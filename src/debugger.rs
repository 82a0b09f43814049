//! The debugging session: at most one live traced child, the requested
//! breakpoints, and the commands that act on them.
use vstd::prelude::*;
use crate::address::{breakpoint_address_of, parse_breakpoint_address, AddressError};
use crate::breakpoints::{
    all_pending, has_address, installed_once, keeps_installed, pending_at, reported,
    same_addresses, BreakpointSet,
};
use crate::inferior::{is_end, Inferior, ResumeReport, StartError, Status, TraceError};
use crate::stack::{follows_chain, resolved, well_ended, Backtrace, WalkEnd};
use crate::symbols::SymbolTable;
use vstd::string::StringSliceAdditionalSpecFns;

verus! {

/// What a `run` did: how ending the previous child went (`None` when
/// there was none), then how starting and resuming the new one went.
pub struct RunReport {
    pub ended: Option<Result<(), TraceError>>,
    pub started: Result<ResumeReport, SessionError>,
    /// How killing a new child that did not stop at its first trap went,
    /// when one had to be killed.
    pub cleanup: Option<Result<(), TraceError>>,
}

/// Why a command that needs a child could not act.
#[derive(Clone, Copy, Debug, PartialEq, Eq)]
pub enum SessionError {
    /// No child is running.
    NoProcess,
    /// The child could not be started under tracing.
    StartFailed,
}

pub struct Debugger {
    target: String,
    inferior: Option<Inferior>,
    breakpoints: BreakpointSet,
    symbols: SymbolTable,
    reaped: Ghost<Seq<i32>>,
}

impl Debugger {
    /// The live child, if any.
    pub closed spec fn live(&self) -> Option<Inferior> {
        self.inferior
    }

    /// The requested breakpoints.
    pub closed spec fn spec_breakpoints(&self) -> BreakpointSet {
        self.breakpoints
    }

    /// The symbol tables of the target.
    pub closed spec fn spec_symbols(&self) -> SymbolTable {
        self.symbols
    }

    pub closed spec fn spec_target(&self) -> Seq<char> {
        self.target@
    }

    /// Process ids of the children that this session has waited for to the
    /// end (killed and reaped, or seen to exit), oldest first.
    pub closed spec fn reaped(&self) -> Seq<i32> {
        self.reaped@
    }

    /// The session's invariant: breakpoint addresses are unique; with a live
    /// child, each installed breakpoint was patched into it exactly once;
    /// without one, every breakpoint is pending.
    pub open spec fn wf(&self) -> bool {
        &&& self.spec_breakpoints().wf()
        &&& match self.live() {
            Some(inf) => installed_once(self.spec_breakpoints()@, inf.patch_log()),
            None => all_pending(self.spec_breakpoints()@),
        }
    }

    /// A session for the program at `target`, with no child and no
    /// breakpoints yet.
    pub fn new(target: &str, symbols: SymbolTable) -> (r: Debugger)
        ensures
            r.wf(),
            r.live() is None,
            r.spec_breakpoints()@.len() == 0,
            r.spec_target() == target@,
            r.spec_symbols() == symbols,
            r.reaped().len() == 0,
    {
        Debugger {
            target: target.to_string(),
            inferior: None,
            breakpoints: BreakpointSet::new(),
            symbols,
            reaped: Ghost(Seq::empty()),
        }
    }

    /// The program this session debugs.
    pub fn target(&self) -> (r: &String)
        ensures
            r@ == self.spec_target(),
    {
        &self.target
    }

    /// The symbol tables of the target.
    pub fn symbols(&self) -> (r: &SymbolTable)
        ensures
            *r == self.spec_symbols(),
    {
        &self.symbols
    }

    /// The requested breakpoints.
    pub fn breakpoints(&self) -> (r: &BreakpointSet)
        ensures
            *r == self.spec_breakpoints(),
    {
        &self.breakpoints
    }

    /// Whether a child is live.
    pub fn is_running(&self) -> (r: bool)
        ensures
            r == self.live() is Some,
    {
        self.inferior.is_some()
    }

    /// Process id of the live child, if any.
    pub fn pid(&self) -> (r: Option<i32>)
        ensures
            r == (match self.live() {
                Some(inf) => Some(inf.spec_pid()),
                None => None,
            }),
    {
        match &self.inferior {
            Some(inf) => Some(inf.pid()),
            None => None,
        }
    }

    /// Kills and reaps the live child, if any, and forgets it; every
    /// breakpoint becomes pending again. Returns `None` when there was no
    /// child, else how the kill went. A failed kill is reported, not fatal.
    pub fn end_inferior(&mut self) -> (r: Option<Result<(), TraceError>>)
        requires
            old(self).wf(),
        ensures
            final(self).wf(),
            final(self).live() is None,
            final(self).spec_target() == old(self).spec_target(),
            final(self).spec_symbols() == old(self).spec_symbols(),
            same_addresses(old(self).spec_breakpoints()@, final(self).spec_breakpoints()@),
            old(self).live() is None <==> r is None,
            old(self).live() is None ==> *final(self) == *old(self),
            old(self).live() matches Some(inf) ==> (r == Some(Ok::<(), TraceError>(()))
                <==> final(self).reaped() == old(self).reaped().push(inf.spec_pid())),
            r matches Some(Err(_)) ==> final(self).reaped() == old(self).reaped(),
            old(self).reaped().is_prefix_of(final(self).reaped()),
            final(self).reaped().len() <= old(self).reaped().len() + 1,
    {
        if self.inferior.is_none() {
            return None;
        }
        let mut inf = self.inferior.take().unwrap();
        let res = inf.kill();
        self.breakpoints.forget_installed();
        match res {
            Ok(()) => {
                self.reaped = Ghost(self.reaped@.push(inf.spec_pid()));
                assert(old(self).reaped() =~= self.reaped@.subrange(0, old(self).reaped().len() as int));
                Some(Ok(()))
            },
            Err(e) => {
                assert(self.reaped@.len() != old(self).reaped().push(inf.spec_pid()).len());
                assert(old(self).reaped() =~= self.reaped@.subrange(0, old(self).reaped().len() as int));
                Some(Err(e))
            },
        }
    }

    /// Installs the pending breakpoints into the live child, resumes it and
    /// waits for its next stop. A child that exits or is killed is
    /// forgotten; otherwise the same child stays live.
    fn resume(&mut self) -> (r: ResumeReport)
        requires
            old(self).wf(),
            old(self).live() is Some,
        ensures
            final(self).wf(),
            final(self).spec_target() == old(self).spec_target(),
            final(self).spec_symbols() == old(self).spec_symbols(),
            same_addresses(old(self).spec_breakpoints()@, final(self).spec_breakpoints()@),
            is_end(r.outcome) ==> final(self).live() is None && final(self).reaped()
                == old(self).reaped().push(old(self).live().unwrap().spec_pid()),
            !is_end(r.outcome) ==> {
                &&& final(self).live() is Some
                &&& final(self).live().unwrap().spec_pid() == old(self).live().unwrap().spec_pid()
                &&& old(self).live().unwrap().patch_log().is_prefix_of(final(self).live().unwrap().patch_log())
                &&& keeps_installed(old(self).spec_breakpoints()@, final(self).spec_breakpoints()@)
                &&& final(self).reaped() == old(self).reaped()
                &&& forall|i: int|
                    0 <= i < final(self).spec_breakpoints()@.len() && (#[trigger] final(self).spec_breakpoints()@[i]).saved is None
                        ==> reported(r.failures@, final(self).spec_breakpoints()@[i].address)
            },
            forall|k: int| 0 <= k < r.failures@.len() ==> has_address(final(self).spec_breakpoints()@, (#[trigger] r.failures@[k]).address),
    {
        let mut inf = self.inferior.take().unwrap();
        let report = inf.continue_run(&mut self.breakpoints);
        proof {
            assert forall|k: int| 0 <= k < report.failures@.len() implies has_address(self.breakpoints@, (#[trigger] report.failures@[k]).address) by {
                assert(pending_at(self.breakpoints@, report.failures@[k].address));
            }
        }
        match report.outcome {
            Ok(Status::Exited(_)) | Ok(Status::Signaled(_)) => {
                self.reaped = Ghost(self.reaped@.push(inf.spec_pid()));
                let ghost mid = self.breakpoints@;
                self.breakpoints.forget_installed();
                proof {
                    assert forall|k: int| 0 <= k < report.failures@.len() implies has_address(self.breakpoints@, (#[trigger] report.failures@[k]).address) by {
                        let j = choose|j: int| 0 <= j < mid.len() && #[trigger] mid[j].address == report.failures@[k].address;
                        assert(self.breakpoints@[j].address == mid[j].address);
                    }
                }
            },
            _ => {
                self.inferior = Some(inf);
            },
        }
        report
    }

    /// Runs the target anew as the child `child`, which was just started
    /// with tracing enabled (`None` if starting it failed). A live child is
    /// killed and reaped first, so that there is never more than one. Then
    /// every breakpoint is installed into the new child and it is resumed
    /// once. A new child that does not stop at its first trap is killed.
    pub fn command_run(&mut self, child: Option<i32>) -> (r: RunReport)
        requires
            old(self).wf(),
        ensures
            final(self).wf(),
            final(self).spec_target() == old(self).spec_target(),
            final(self).spec_symbols() == old(self).spec_symbols(),
            same_addresses(old(self).spec_breakpoints()@, final(self).spec_breakpoints()@),
            old(self).live() is None <==> r.ended is None,
            old(self).reaped().is_prefix_of(final(self).reaped()),
            old(self).live() matches Some(old_inf) ==> (r.ended == Some(Ok::<(), TraceError>(()))
                ==> final(self).reaped().len() > old(self).reaped().len() && final(self).reaped()[old(
                self).reaped().len() as int] == old_inf.spec_pid()),
            child is None ==> r.started == Err::<ResumeReport, SessionError>(
                SessionError::StartFailed,
            ) && r.cleanup is None,
            r.started is Err ==> final(self).live() is None,
            child matches Some(p) ==> (r.started is Err && p > 0 ==> (r.cleanup matches Some(Err(_)))
                || final(self).reaped().last() == p),
            r.started is Ok ==> r.cleanup is None,
            r.started matches Ok(rep) ==> (final(self).live() is None <==> is_end(rep.outcome)),
            r.started matches Ok(rep) ==> (!is_end(rep.outcome) ==> forall|i: int|
                0 <= i < final(self).spec_breakpoints()@.len() && (#[trigger] final(self).spec_breakpoints()@[i]).saved is None
                    ==> reported(rep.failures@, final(self).spec_breakpoints()@[i].address)),
            final(self).live() matches Some(inf) ==> child == Some(inf.spec_pid()),
    {
        let ended = self.end_inferior();
        let ghost mid = self.reaped@;
        let (started, cleanup) = self.start(child);
        proof {
            if ended == Some(Ok::<(), TraceError>(())) {
                assert(self.reaped@[old(self).reaped().len() as int] == mid[old(self).reaped().len() as int]);
            }
            assert(old(self).reaped() =~= self.reaped@.subrange(0, old(self).reaped().len() as int)) by {
                assert(old(self).reaped() =~= mid.subrange(0, old(self).reaped().len() as int));
                assert(mid =~= self.reaped@.subrange(0, mid.len() as int));
            }
        }
        RunReport { ended, started, cleanup }
    }

    /// Takes over the freshly started child `child`, installs every
    /// breakpoint into it and resumes it once. A child that does not stop
    /// at its first trap and is not already gone is killed and reaped.
    fn start(&mut self, child: Option<i32>) -> (r: (
        Result<ResumeReport, SessionError>,
        Option<Result<(), TraceError>>,
    ))
        requires
            old(self).wf(),
            old(self).live() is None,
        ensures
            final(self).wf(),
            final(self).spec_target() == old(self).spec_target(),
            final(self).spec_symbols() == old(self).spec_symbols(),
            same_addresses(old(self).spec_breakpoints()@, final(self).spec_breakpoints()@),
            old(self).reaped().is_prefix_of(final(self).reaped()),
            final(self).reaped().len() <= old(self).reaped().len() + 1,
            child is None ==> r.0 == Err::<ResumeReport, SessionError>(SessionError::StartFailed)
                && r.1 is None,
            r.0 is Err ==> final(self).live() is None,
            child matches Some(p) ==> (r.0 is Err && p > 0 ==> (r.1 matches Some(Err(_)))
                || final(self).reaped() == old(self).reaped().push(p)),
            r.0 is Ok ==> r.1 is None,
            r.0 matches Ok(rep) ==> (final(self).live() is None <==> is_end(rep.outcome)),
            r.0 matches Ok(rep) ==> (!is_end(rep.outcome) ==> forall|i: int|
                0 <= i < final(self).spec_breakpoints()@.len() && (#[trigger] final(self).spec_breakpoints()@[i]).saved is None
                    ==> reported(rep.failures@, final(self).spec_breakpoints()@[i].address)),
            final(self).live() matches Some(inf) ==> child == Some(inf.spec_pid()),
    {
        let ghost mid = self.reaped@;
        let pid = match child {
            Some(p) => p,
            None => {
                assert(mid =~= mid.subrange(0, mid.len() as int));
                return (Err(SessionError::StartFailed), None);
            },
        };
        match Inferior::new(pid) {
            Ok(inf) => {
                self.inferior = Some(inf);
                proof {
                    reveal(installed_once);
                }
                let rep = self.resume();
                assert(mid =~= self.reaped@.subrange(0, mid.len() as int));
                (Ok(rep), None)
            },
            Err(StartError::InvalidPid) => {
                assert(mid =~= mid.subrange(0, mid.len() as int));
                (Err(SessionError::StartFailed), None)
            },
            Err(StartError::NotStopped(mut inf, _)) => {
                let cleanup = if inf.is_reaped_now() {
                    None
                } else {
                    Some(inf.kill())
                };
                if inf.is_reaped_now() {
                    self.reaped = Ghost(self.reaped@.push(pid));
                }
                assert(mid =~= self.reaped@.subrange(0, mid.len() as int));
                (Err(SessionError::StartFailed), cleanup)
            },
        }
    }

    /// Resumes the live child after installing the breakpoints requested
    /// since it last ran. With no live child, reports
    /// `SessionError::NoProcess` and changes nothing. Unless the child
    /// ended, the same child stays live, its earlier patches stand and no
    /// installed breakpoint is patched again.
    pub fn command_continue(&mut self) -> (r: Result<ResumeReport, SessionError>)
        requires
            old(self).wf(),
        ensures
            final(self).wf(),
            old(self).live() is None <==> r is Err,
            r is Err ==> r == Err::<ResumeReport, SessionError>(SessionError::NoProcess),
            old(self).live() is None ==> *final(self) == *old(self),
            same_addresses(old(self).spec_breakpoints()@, final(self).spec_breakpoints()@),
            final(self).spec_symbols() == old(self).spec_symbols(),
            r matches Ok(rep) ==> (final(self).live() is None <==> is_end(rep.outcome)),
            r matches Ok(rep) ==> (is_end(rep.outcome) ==> final(self).reaped() == old(self).reaped().push(old(self).live().unwrap().spec_pid())),
            r matches Ok(rep) ==> (!is_end(rep.outcome) ==> {
                &&& final(self).live().unwrap().spec_pid() == old(self).live().unwrap().spec_pid()
                &&& old(self).live().unwrap().patch_log().is_prefix_of(final(self).live().unwrap().patch_log())
                &&& keeps_installed(old(self).spec_breakpoints()@, final(self).spec_breakpoints()@)
                &&& final(self).reaped() == old(self).reaped()
                &&& forall|i: int|
                    0 <= i < final(self).spec_breakpoints()@.len() && (#[trigger] final(self).spec_breakpoints()@[i]).saved is None
                        ==> reported(rep.failures@, final(self).spec_breakpoints()@[i].address)
            }),
    {
        if self.inferior.is_none() {
            return Err(SessionError::NoProcess);
        }
        Ok(self.resume())
    }

    /// Requests a breakpoint at the address in `text` (`*` then a
    /// hexadecimal address). It takes effect when the child next resumes.
    /// Returns its number and address; a malformed address changes nothing.
    pub fn command_break(&mut self, text: &str) -> (r: Result<(usize, usize), AddressError>)
        requires
            old(self).wf(),
        ensures
            final(self).wf(),
            final(self).live() == old(self).live(),
            final(self).reaped() == old(self).reaped(),
            r is Err ==> *final(self) == *old(self),
            r is Err ==> r == (match breakpoint_address_of(text.spec_bytes()) {
                Err(e) => Err::<(usize, usize), AddressError>(e),
                Ok(_) => r,
            }),
            breakpoint_address_of(text.spec_bytes()) is Err <==> r is Err,
            r matches Ok((n, a)) ==> {
                &&& breakpoint_address_of(text.spec_bytes()) == Ok::<usize, AddressError>(a)
                &&& final(self).spec_breakpoints()@[n - 1].address == a
                &&& 1 <= n <= final(self).spec_breakpoints()@.len()
                &&& has_address(old(self).spec_breakpoints()@, a) ==> final(self).spec_breakpoints()@
                    == old(self).spec_breakpoints()@
                &&& !has_address(old(self).spec_breakpoints()@, a) ==> final(self).spec_breakpoints()@ == old(self).spec_breakpoints()@.push(
                    crate::breakpoints::Breakpoint { address: a, saved: None },
                )
            },
    {
        match parse_breakpoint_address(text) {
            Ok(addr) => {
                let n = self.breakpoints.request(addr);
                proof {
                    lemma_request_keeps(old(self).breakpoints, self.breakpoints, addr, self.inferior);
                }
                Ok((n, addr))
            },
            Err(e) => Err(e),
        }
    }

    /// Unwinds the live child's stack; `None` when no child is live.
    pub fn command_backtrace(&mut self) -> (r: Option<Result<Backtrace, TraceError>>)
        requires
            old(self).wf(),
        ensures
            final(self).wf(),
            old(self).live() is None <==> r is None,
            old(self).live() is None ==> *final(self) == *old(self),
            final(self).spec_breakpoints() == old(self).spec_breakpoints(),
            final(self).spec_symbols() == old(self).spec_symbols(),
            final(self).reaped() == old(self).reaped(),
            old(self).live() is Some ==> final(self).live() is Some && final(self).live().unwrap().spec_pid()
                == old(self).live().unwrap().spec_pid(),
            r matches Some(Ok(bt)) ==> {
                let before = old(self).live().unwrap();
                let after = final(self).live().unwrap();
                &&& before.read_log().is_prefix_of(after.read_log())
                &&& follows_chain(bt.frames@, after.read_log().skip(before.read_log().len() as int))
                &&& after.register_reads().len() == before.register_reads().len() + 1
                &&& after.register_reads().last() matches Ok((ip, fp)) && bt.frames@[0].ip == ip as usize
                    && bt.frames@[0].fp == fp as usize
                &&& resolved(bt.frames@, &final(self).spec_symbols())
                &&& well_ended(bt.frames@, bt.end, &final(self).spec_symbols())
                &&& bt.end == WalkEnd::ReadFailed ==> (after.failed_reads().len() == before.failed_reads().len() + 1
                    || bt.frames@.last().fp + 8 > usize::MAX)
            },
            r matches Some(Err(e)) ==> old(self).live().unwrap().read_log() == final(self).live().unwrap().read_log(),
            r matches Some(Err(e)) ==> (final(self).live().unwrap().register_reads().last() matches Err(c)
                && e == TraceError::Os(c)),
    {
        match self.inferior.take() {
            Some(mut inf) => {
                let bt = inf.backtrace(&self.symbols);
                self.inferior = Some(inf);
                Some(bt)
            },
            None => None,
        }
    }

    /// Ends the session's child, if any: it is killed and reaped.
    pub fn quit(&mut self) -> (r: Option<Result<(), TraceError>>)
        requires
            old(self).wf(),
        ensures
            final(self).wf(),
            final(self).live() is None,
            old(self).live() is None <==> r is None,
            old(self).live() matches Some(inf) ==> (r == Some(Ok::<(), TraceError>(()))
                <==> final(self).reaped() == old(self).reaped().push(inf.spec_pid())),
    {
        self.end_inferior()
    }
}

proof fn lemma_request_keeps(
    old_bps: BreakpointSet,
    bps: BreakpointSet,
    addr: usize,
    inf: Option<Inferior>,
)
    requires
        old_bps.wf(),
        has_address(old_bps@, addr) ==> bps@ == old_bps@,
        !has_address(old_bps@, addr) ==> bps@ == old_bps@.push(
            crate::breakpoints::Breakpoint { address: addr, saved: None },
        ),
        match inf {
            Some(i) => installed_once(old_bps@, i.patch_log()),
            None => all_pending(old_bps@),
        },
    ensures
        match inf {
            Some(i) => installed_once(bps@, i.patch_log()),
            None => all_pending(bps@),
        },
{
    reveal(installed_once);
    if !has_address(old_bps@, addr) {
        let n = old_bps@.len() as int;
        assert forall|k: int| 0 <= k < n implies #[trigger] bps@[k] == old_bps@[k] by {}
        match inf {
            Some(i) => {
                let log = i.patch_log();
                assert forall|j: int| 0 <= j < log.len() implies has_address(bps@, (#[trigger] log[j]).address) by {
                    let w = choose|k: int| 0 <= k < old_bps@.len() && #[trigger] old_bps@[k].address == log[j].address;
                    assert(bps@[w].address == log[j].address);
                }
                assert forall|k: int, j: int|
                    0 <= k < bps@.len() && 0 <= j < log.len() && (#[trigger] bps@[k]).address == (
                    #[trigger] log[j]).address implies (bps@[k].saved matches Some(b) && crate::inferior::patch_of(
                        log[j],
                        crate::breakpoints::TRAP_OPCODE,
                        b,
                    )) by {
                    if k == n {
                        let w = choose|w: int| 0 <= w < old_bps@.len() && #[trigger] old_bps@[w].address == log[j].address;
                        assert(old_bps@[w].address == addr);
                    }
                }
                assert forall|k: int|
                    0 <= k < bps@.len() && (#[trigger] bps@[k]).saved is Some implies exists|j: int|
                        0 <= j < log.len() && #[trigger] log[j].address == bps@[k].address by {
                    assert(bps@[k] == old_bps@[k]);
                }
            },
            None => {},
        }
    }
}

} // verus!
