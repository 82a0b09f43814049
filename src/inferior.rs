//! The traced child process: waiting on it, resuming it, reading and
//! patching its memory, and ending it.
use vstd::prelude::*;
use crate::breakpoints::{installed_once, pending_at, reported, BreakpointSet, InstallFailure};
use crate::patch::{align_addr_to_word, byte_at, patch_word};
use crate::trace::{
    peek_word, poke_word, read_ip_and_fp, resume_child, send_kill, wait_child, WaitReport,
};

verus! {

/// Why the child last gave control back to the debugger.
#[derive(Clone, Copy, Debug, PartialEq, Eq)]
pub enum Status {
    /// The child stopped on the signal with this number, at this
    /// instruction pointer.
    Stopped(i32, usize),
    /// The child exited normally with this status code.
    Exited(i32),
    /// The child was ended by the signal with this number.
    Signaled(i32),
}

/// What resuming the child did: the breakpoints that could not be
/// installed before it ran, and how it stopped next.
pub struct ResumeReport {
    pub failures: Vec<InstallFailure>,
    pub outcome: Result<Status, TraceError>,
}

/// A failed tracing request.
#[derive(Clone, Copy, Debug, PartialEq, Eq)]
pub enum TraceError {
    /// The operating system refused the request with this `errno`.
    Os(i32),
    /// A wait reported a state change that this debugger does not follow.
    UnexpectedStop,
}

/// One successful byte patch: the byte at `address` was replaced, which
/// turned the word that holds it from `before` into `after`.
pub struct PatchRecord {
    pub address: usize,
    pub before: u64,
    pub after: u64,
}

/// Whether `st` ends the child.
fn is_end_status(st: &Result<Status, TraceError>) -> (r: bool)
    ensures
        r == is_end(*st),
{
    match st {
        Ok(Status::Exited(_)) => true,
        Ok(Status::Signaled(_)) => true,
        _ => false,
    }
}

/// Position of `addr`'s byte inside its word.
pub open spec fn offset_in_word(addr: usize) -> u64 {
    (addr % 8) as u64
}

/// `p` replaced the byte at its address by `val` and left the rest of the
/// word alone, and `orig` is the byte it replaced.
pub open spec fn patch_of(p: PatchRecord, val: u8, orig: u8) -> bool {
    &&& byte_at(p.after, offset_in_word(p.address)) == val as u64
    &&& byte_at(p.before, offset_in_word(p.address)) == orig as u64
    &&& forall|k: u64|
        k < 8 && k != offset_in_word(p.address) ==> byte_at(p.after, k) == byte_at(p.before, k)
}

/// One wait on the child as it happened: the process waited for, what the
/// wait reported, and, for a stop, what reading the registers gave.
pub struct WaitRecord {
    pub pid: i32,
    pub report: Result<WaitReport, i32>,
    pub regs: Option<Result<(u64, u64), i32>>,
}

/// The status that a wait report (and, for a stop, the register read that
/// followed it) stands for.
pub open spec fn decoded(
    report: Result<WaitReport, i32>,
    regs: Option<Result<(u64, u64), i32>>,
) -> Result<Status, TraceError> {
    match report {
        Ok(WaitReport::Exited(code)) => Ok(Status::Exited(code)),
        Ok(WaitReport::Signaled(sig)) => Ok(Status::Signaled(sig)),
        Ok(WaitReport::Stopped(sig)) => match regs {
            Some(Ok((ip, _))) => Ok(Status::Stopped(sig, ip as usize)),
            Some(Err(e)) => Err(TraceError::Os(e)),
            None => Err(TraceError::UnexpectedStop),
        },
        Ok(WaitReport::Other) => Err(TraceError::UnexpectedStop),
        Err(e) => Err(TraceError::Os(e)),
    }
}

/// The status ends the child: it exited or a signal killed it.
pub open spec fn is_end(st: Result<Status, TraceError>) -> bool {
    st matches Ok(Status::Exited(_)) || st matches Ok(Status::Signaled(_))
}

/// Decodes what a wait reported. `regs` is the register read made after a
/// stop, and only then.
pub fn decode_wait(report: Result<WaitReport, i32>, regs: Option<Result<(u64, u64), i32>>) -> (r:
    Result<Status, TraceError>)
    requires
        (report matches Ok(WaitReport::Stopped(_))) == (regs is Some),
    ensures
        r == decoded(report, regs),
{
    match report {
        Ok(WaitReport::Exited(code)) => Ok(Status::Exited(code)),
        Ok(WaitReport::Signaled(sig)) => Ok(Status::Signaled(sig)),
        Ok(WaitReport::Stopped(sig)) => match regs {
            Some(Ok((ip, _))) => Ok(Status::Stopped(sig, #[verifier::truncate] (ip as usize))),
            Some(Err(e)) => Err(TraceError::Os(e)),
            None => Err(TraceError::UnexpectedStop),
        },
        Ok(WaitReport::Other) => Err(TraceError::UnexpectedStop),
        Err(e) => Err(TraceError::Os(e)),
    }
}

/// How many state changes `kill` waits through for the child's end.
pub const KILL_WAITS: usize = 16;

/// Why a child could not be taken over.
pub enum StartError {
    /// The process id names no single process (0 or below).
    InvalidPid,
    /// The first wait did not report the child stopped. The handle is
    /// given back with what the wait reported, so that a child still
    /// alive can be killed.
    NotStopped(Inferior, Result<Status, TraceError>),
}

/// The traced child.
///
/// Besides the process id it keeps, as ghost state, what was done to the
/// child through this handle, oldest first: the patches made to its memory,
/// the words read from it and the addresses whose read failed, the register
/// reads made for unwinding, and the waits. It also records whether a kill
/// signal was sent and whether the child has been seen to end (and so was
/// reaped).
pub struct Inferior {
    pid: i32,
    patches: Ghost<Seq<PatchRecord>>,
    reads: Ghost<Seq<(usize, u64)>>,
    failed: Ghost<Seq<usize>>,
    regs: Ghost<Seq<Result<(u64, u64), i32>>>,
    waits: Ghost<Seq<WaitRecord>>,
    resumed: Ghost<Seq<Result<(), i32>>>,
    killed: Ghost<bool>,
    reaped: bool,
}

impl Inferior {
    pub closed spec fn spec_pid(&self) -> i32 {
        self.pid
    }

    /// The byte patches made to the child's memory through this handle.
    pub closed spec fn patch_log(&self) -> Seq<PatchRecord> {
        self.patches@
    }

    /// The words read from the child's memory through this handle, with
    /// their addresses.
    pub closed spec fn read_log(&self) -> Seq<(usize, u64)> {
        self.reads@
    }

    /// The addresses whose read failed.
    pub closed spec fn failed_reads(&self) -> Seq<usize> {
        self.failed@
    }

    /// The register reads made for unwinding the stack.
    pub closed spec fn register_reads(&self) -> Seq<Result<(u64, u64), i32>> {
        self.regs@
    }

    /// The waits on the child.
    pub closed spec fn waits(&self) -> Seq<WaitRecord> {
        self.waits@
    }

    /// The resume requests, with what each returned.
    pub closed spec fn resumes(&self) -> Seq<Result<(), i32>> {
        self.resumed@
    }

    /// Everything but the memory logs is as in `other`.
    pub open spec fn same_process_state(&self, other: &Inferior) -> bool {
        &&& self.spec_pid() == other.spec_pid()
        &&& self.read_log() == other.read_log()
        &&& self.failed_reads() == other.failed_reads()
        &&& self.register_reads() == other.register_reads()
        &&& self.waits() == other.waits()
        &&& self.resumes() == other.resumes()
        &&& self.kill_sent() == other.kill_sent()
        &&& self.is_reaped() == other.is_reaped()
    }

    /// `SIGKILL` was sent to the child.
    pub closed spec fn kill_sent(&self) -> bool {
        self.killed@
    }

    /// A wait saw the child end, so it is gone and reaped.
    pub closed spec fn is_reaped(&self) -> bool {
        self.reaped
    }

    /// Takes over the child `pid`, which was started with tracing enabled,
    /// by waiting for the trap that its `exec` raises. The handle is kept
    /// only if that wait reports the child stopped; otherwise it is handed
    /// back inside the error with the decoded status.
    pub fn new(pid: i32) -> (r: Result<Inferior, StartError>)
        ensures
            pid <= 0 <==> r matches Err(StartError::InvalidPid),
            r matches Ok(inf) ==> {
                &&& inf.spec_pid() == pid
                &&& inf.patch_log().len() == 0
                &&& inf.read_log().len() == 0
                &&& inf.waits().len() == 1
                &&& inf.waits()[0].pid == pid
                &&& decoded(inf.waits()[0].report, inf.waits()[0].regs) matches Ok(Status::Stopped(_, _))
                &&& !inf.is_reaped()
                &&& !inf.kill_sent()
            },
            r matches Err(StartError::NotStopped(inf, st)) ==> {
                &&& inf.spec_pid() == pid
                &&& inf.patch_log().len() == 0
                &&& inf.waits().len() == 1
                &&& inf.waits()[0].pid == pid
                &&& st == decoded(inf.waits()[0].report, inf.waits()[0].regs)
                &&& !(st matches Ok(Status::Stopped(_, _)))
                &&& inf.is_reaped() == is_end(st)
                &&& !inf.kill_sent()
            },
    {
        if pid <= 0 {
            return Err(StartError::InvalidPid);
        }
        let mut inf = Inferior {
            pid,
            patches: Ghost(Seq::empty()),
            reads: Ghost(Seq::empty()),
            failed: Ghost(Seq::empty()),
            regs: Ghost(Seq::empty()),
            waits: Ghost(Seq::empty()),
            resumed: Ghost(Seq::empty()),
            killed: Ghost(false),
            reaped: false,
        };
        let st = inf.wait();
        match st {
            Ok(Status::Stopped(_, _)) => Ok(inf),
            _ => Err(StartError::NotStopped(inf, st)),
        }
    }

    /// Whether a wait has seen the child end.
    pub fn is_reaped_now(&self) -> (r: bool)
        ensures
            r == self.is_reaped(),
    {
        self.reaped
    }

    /// The process id of the child.
    pub fn pid(&self) -> (r: i32)
        ensures
            r == self.spec_pid(),
    {
        self.pid
    }

    /// Waits for the child's next state change and decodes it; after a stop
    /// the registers are read for the instruction pointer. The wait is
    /// recorded, and a child seen to end is marked reaped.
    pub fn wait(&mut self) -> (r: Result<Status, TraceError>)
        ensures
            final(self).spec_pid() == old(self).spec_pid(),
            final(self).patch_log() == old(self).patch_log(),
            final(self).read_log() == old(self).read_log(),
            final(self).failed_reads() == old(self).failed_reads(),
            final(self).register_reads() == old(self).register_reads(),
            final(self).resumes() == old(self).resumes(),
            final(self).kill_sent() == old(self).kill_sent(),
            final(self).waits().len() == old(self).waits().len() + 1,
            final(self).waits().drop_last() == old(self).waits(),
            final(self).waits().last().pid == old(self).spec_pid(),
            (final(self).waits().last().report matches Ok(WaitReport::Stopped(_))) == (final(
                self).waits().last().regs is Some),
            r == decoded(final(self).waits().last().report, final(self).waits().last().regs),
            final(self).is_reaped() == (old(self).is_reaped() || is_end(r)),
            r matches Ok(Status::Exited(code)) ==> 0 <= code <= 255,
    {
        let report = wait_child(self.pid);
        let regs = match report {
            Ok(WaitReport::Stopped(_)) => Some(read_ip_and_fp(self.pid)),
            _ => None,
        };
        let r = decode_wait(report, regs);
        let ghost rec = WaitRecord { pid: self.pid, report, regs };
        self.waits = Ghost(self.waits@.push(rec));
        assert(self.waits@.drop_last() =~= old(self).waits());
        if is_end_status(&r) {
            self.reaped = true;
        }
        r
    }

    /// Installs the pending breakpoints of `break_points` into the stopped
    /// child, lets it run, and waits for its next state change. An
    /// installed breakpoint is not patched again.
    pub fn continue_run(&mut self, break_points: &mut BreakpointSet) -> (r: ResumeReport)
        requires
            old(break_points).wf(),
            installed_once(old(break_points)@, old(self).patch_log()),
        ensures
            final(self).spec_pid() == old(self).spec_pid(),
            final(break_points).wf(),
            installed_once(final(break_points)@, final(self).patch_log()),
            old(self).patch_log().is_prefix_of(final(self).patch_log()),
            final(break_points)@.len() == old(break_points)@.len(),
            forall|i: int|
                0 <= i < old(break_points)@.len() ==> (#[trigger] final(break_points)@[i]).address
                    == old(break_points)@[i].address,
            forall|i: int|
                0 <= i < old(break_points)@.len() && (#[trigger] old(break_points)@[i]).saved is Some
                    ==> final(break_points)@[i] == old(break_points)@[i],
            forall|i: int|
                0 <= i < old(break_points)@.len() && (#[trigger] final(break_points)@[i]).saved is None
                    ==> reported(r.failures@, final(break_points)@[i].address),
            forall|j: int|
                old(self).patch_log().len() <= j < final(self).patch_log().len() ==> pending_at(
                    old(break_points)@,
                    (#[trigger] final(self).patch_log()[j]).address,
                ),
            forall|k: int| 0 <= k < r.failures@.len() ==> pending_at(final(break_points)@, (#[trigger] r.failures@[k]).address),
            final(self).kill_sent() == old(self).kill_sent(),
            final(self).resumes() == old(self).resumes().push(final(self).resumes().last()),
            final(self).resumes().last() matches Err(e) ==> r.outcome == Err::<Status, TraceError>(
                TraceError::Os(e),
            ) && final(self).waits() == old(self).waits() && final(self).is_reaped() == old(
                self).is_reaped(),
            final(self).resumes().last() is Ok ==> {
                &&& final(self).waits().len() == old(self).waits().len() + 1
                &&& final(self).waits().drop_last() == old(self).waits()
                &&& r.outcome == decoded(final(self).waits().last().report, final(self).waits().last().regs)
                &&& final(self).is_reaped() == (old(self).is_reaped() || is_end(r.outcome))
            },
            r.outcome matches Ok(Status::Exited(code)) ==> 0 <= code <= 255,
    {
        let failures = break_points.install_all(self);
        let outcome = self.cont();
        ResumeReport { failures, outcome }
    }

    /// Lets the stopped child run, then waits for its next state change.
    /// A failed resume is recorded and reported, with no wait.
    fn cont(&mut self) -> (r: Result<Status, TraceError>)
        ensures
            final(self).spec_pid() == old(self).spec_pid(),
            final(self).patch_log() == old(self).patch_log(),
            final(self).read_log() == old(self).read_log(),
            final(self).kill_sent() == old(self).kill_sent(),
            final(self).resumes() == old(self).resumes().push(final(self).resumes().last()),
            final(self).resumes().last() matches Err(e) ==> r == Err::<Status, TraceError>(
                TraceError::Os(e),
            ) && final(self).waits() == old(self).waits() && final(self).is_reaped() == old(
                self).is_reaped(),
            final(self).resumes().last() is Ok ==> {
                &&& final(self).waits().len() == old(self).waits().len() + 1
                &&& final(self).waits().drop_last() == old(self).waits()
                &&& r == decoded(final(self).waits().last().report, final(self).waits().last().regs)
                &&& final(self).is_reaped() == (old(self).is_reaped() || is_end(r))
            },
            r matches Ok(Status::Exited(code)) ==> 0 <= code <= 255,
    {
        let res = resume_child(self.pid);
        self.resumed = Ghost(self.resumed@.push(res));
        match res {
            Ok(()) => self.wait(),
            Err(e) => Err(TraceError::Os(e)),
        }
    }

    /// Kills the child and reaps it, so that no zombie is left behind:
    /// `SIGKILL` is sent, then the child is waited for until a wait sees it
    /// end (at most `KILL_WAITS` waits). A child already reaped is left
    /// alone, so that its process id, which may since name another process,
    /// is never signalled. `Ok` means the child is gone and reaped.
    pub fn kill(&mut self) -> (r: Result<(), TraceError>)
        ensures
            final(self).spec_pid() == old(self).spec_pid(),
            final(self).patch_log() == old(self).patch_log(),
            final(self).read_log() == old(self).read_log(),
            old(self).is_reaped() ==> r is Ok && *final(self) == *old(self),
            !old(self).is_reaped() ==> (r is Ok <==> final(self).is_reaped()),
            !old(self).is_reaped() && r is Ok ==> {
                &&& final(self).kill_sent()
                &&& final(self).waits().len() > old(self).waits().len()
                &&& is_end(decoded(final(self).waits().last().report, final(self).waits().last().regs))
                &&& final(self).waits().last().pid == old(self).spec_pid()
            },
    {
        if self.reaped {
            return Ok(());
        }
        match send_kill(self.pid) {
            Ok(()) => {},
            Err(e) => {
                return Err(TraceError::Os(e));
            },
        }
        self.killed = Ghost(true);
        let mut n: usize = 0;
        while n < KILL_WAITS
            invariant
                self.spec_pid() == old(self).spec_pid(),
                self.patch_log() == old(self).patch_log(),
                self.read_log() == old(self).read_log(),
                self.kill_sent(),
                !self.is_reaped(),
                !old(self).is_reaped(),
                self.waits().len() >= old(self).waits().len(),
            decreases KILL_WAITS - n,
        {
            let st = self.wait();
            match st {
                Ok(Status::Exited(_)) | Ok(Status::Signaled(_)) => {
                    return Ok(());
                },
                Ok(Status::Stopped(_, _)) => {},
                Err(e) => {
                    return Err(e);
                },
            }
            n = n + 1;
        }
        Err(TraceError::UnexpectedStop)
    }

    /// Reads the word at `addr` of the child's memory, and records the read,
    /// or the address if the read failed.
    pub fn read_word(&mut self, addr: usize) -> (r: Result<u64, TraceError>)
        ensures
            final(self).spec_pid() == old(self).spec_pid(),
            final(self).patch_log() == old(self).patch_log(),
            final(self).register_reads() == old(self).register_reads(),
            r matches Ok(w) ==> final(self).read_log() == old(self).read_log().push((addr, w)),
            r matches Ok(w) ==> final(self).failed_reads() == old(self).failed_reads(),
            r is Err ==> final(self).read_log() == old(self).read_log(),
            r is Err ==> final(self).failed_reads() == old(self).failed_reads().push(addr),
    {
        match peek_word(self.pid, addr) {
            Ok(w) => {
                self.reads = Ghost(self.reads@.push((addr, w)));
                Ok(w)
            },
            Err(e) => {
                self.failed = Ghost(self.failed@.push(addr));
                Err(TraceError::Os(e))
            },
        }
    }

    /// Reads the instruction and frame pointers, for unwinding, and records
    /// what the read gave.
    pub fn read_frame_registers(&mut self) -> (r: Result<(u64, u64), TraceError>)
        ensures
            final(self).spec_pid() == old(self).spec_pid(),
            final(self).patch_log() == old(self).patch_log(),
            final(self).read_log() == old(self).read_log(),
            final(self).failed_reads() == old(self).failed_reads(),
            final(self).register_reads() == old(self).register_reads().push(
                final(self).register_reads().last(),
            ),
            final(self).register_reads().last() matches Ok(regs) ==> r == Ok::<
                (u64, u64),
                TraceError,
            >(regs),
            final(self).register_reads().last() matches Err(e) ==> r == Err::<
                (u64, u64),
                TraceError,
            >(TraceError::Os(e)),
    {
        let res = read_ip_and_fp(self.pid);
        self.regs = Ghost(self.regs@.push(res));
        match res {
            Ok(regs) => Ok(regs),
            Err(e) => Err(TraceError::Os(e)),
        }
    }

    /// Writes the byte `val` at `addr`, which need not be aligned, and
    /// returns the byte that was there. The word that holds it is read,
    /// patched at the byte's position alone, and written back.
    pub fn write_byte(&mut self, addr: usize, val: u8) -> (r: Result<u8, TraceError>)
        ensures
            final(self).same_process_state(old(self)),
            r matches Ok(orig) ==> {
                &&& final(self).patch_log().len() == old(self).patch_log().len() + 1
                &&& final(self).patch_log().drop_last() == old(self).patch_log()
                &&& final(self).patch_log().last().address == addr
                &&& patch_of(final(self).patch_log().last(), val, orig)
            },
            r is Err ==> final(self).patch_log() == old(self).patch_log(),
    {
        let aligned = align_addr_to_word(addr);
        let offset = addr - aligned;
        let word = match peek_word(self.pid, aligned) {
            Ok(w) => w,
            Err(e) => {
                return Err(TraceError::Os(e));
            },
        };
        let (updated, orig) = patch_word(word, offset, val);
        match poke_word(self.pid, aligned, updated) {
            Ok(()) => {
                let ghost rec = PatchRecord { address: addr, before: word, after: updated };
                self.patches = Ghost(self.patches@.push(rec));
                assert(self.patches@.drop_last() =~= old(self).patches@);
                Ok(orig)
            },
            Err(e) => Err(TraceError::Os(e)),
        }
    }
}

} // verus!
