//! The set of requested breakpoints, and their installation into the
//! traced child.
use vstd::prelude::*;
use crate::inferior::{offset_in_word, patch_of, Inferior, PatchRecord, TraceError};
use crate::patch::byte_at;

verus! {

/// The one-byte trap instruction (`int3`) that a breakpoint writes.
pub const TRAP_OPCODE: u8 = 0xcc;

/// A requested breakpoint. `saved` holds the byte that the trap replaced
/// once the breakpoint is installed in the current child, and is `None`
/// while it is still pending.
#[derive(Clone, Copy, Debug, PartialEq, Eq)]
pub struct Breakpoint {
    pub address: usize,
    pub saved: Option<u8>,
}

/// A breakpoint that could not be installed, with the reason.
#[derive(Clone, Copy, Debug, PartialEq, Eq)]
pub struct InstallFailure {
    pub address: usize,
    pub error: TraceError,
}

/// Breakpoints keyed by address, in the order they were requested.
pub struct BreakpointSet {
    points: Vec<Breakpoint>,
}

/// No two breakpoints share an address.
pub open spec fn unique_addresses(points: Seq<Breakpoint>) -> bool {
    forall|i: int, j: int|
        0 <= i < points.len() && 0 <= j < points.len() && i != j ==> points[i].address
            != points[j].address
}

/// `s` holds a breakpoint at `addr`.
pub open spec fn has_address(points: Seq<Breakpoint>, addr: usize) -> bool {
    exists|i: int| 0 <= i < points.len() && #[trigger] points[i].address == addr
}

/// No breakpoint is installed.
pub open spec fn all_pending(points: Seq<Breakpoint>) -> bool {
    forall|i: int| 0 <= i < points.len() ==> (#[trigger] points[i]).saved is None
}

/// `b` holds the breakpoints of `a`, at the same addresses in the same order.
pub open spec fn same_addresses(a: Seq<Breakpoint>, b: Seq<Breakpoint>) -> bool {
    &&& b.len() == a.len()
    &&& forall|i: int| 0 <= i < a.len() ==> (#[trigger] b[i]).address == a[i].address
}

/// Every breakpoint installed in `a` is unchanged in `b`, saved byte
/// included.
pub open spec fn keeps_installed(a: Seq<Breakpoint>, b: Seq<Breakpoint>) -> bool {
    forall|i: int| 0 <= i < a.len() && (#[trigger] a[i]).saved is Some ==> b[i] == a[i]
}

/// Some breakpoint of `points` at `addr` is pending.
pub open spec fn pending_at(points: Seq<Breakpoint>, addr: usize) -> bool {
    exists|k: int| 0 <= k < points.len() && #[trigger] points[k].address == addr && points[k].saved is None
}

/// `failures` reports a failure at `addr`.
pub open spec fn reported(failures: Seq<InstallFailure>, addr: usize) -> bool {
    exists|m: int| 0 <= m < failures.len() && #[trigger] failures[m].address == addr
}

/// How the breakpoints relate to the patches made in the current child:
/// each installed breakpoint was patched exactly once, with the trap, and
/// its saved byte is the one that patch replaced; a pending one was never
/// patched; and nothing else was patched.
#[verifier::opaque]
pub open spec fn installed_once(points: Seq<Breakpoint>, log: Seq<PatchRecord>) -> bool {
    &&& forall|j1: int, j2: int|
        0 <= j1 < log.len() && 0 <= j2 < log.len() && j1 != j2 ==> log[j1].address
            != log[j2].address
    &&& forall|j: int| 0 <= j < log.len() ==> has_address(points, (#[trigger] log[j]).address)
    &&& forall|i: int, j: int|
        0 <= i < points.len() && 0 <= j < log.len() && (#[trigger] points[i]).address == (
        #[trigger] log[j]).address ==> (points[i].saved matches Some(b) && patch_of(
            log[j],
            TRAP_OPCODE,
            b,
        ))
    &&& forall|i: int|
        0 <= i < points.len() && (#[trigger] points[i]).saved is Some ==> exists|j: int|
            0 <= j < log.len() && #[trigger] log[j].address == points[i].address
}

impl View for BreakpointSet {
    type V = Seq<Breakpoint>;

    closed spec fn view(&self) -> Seq<Breakpoint> {
        self.points@
    }
}

impl BreakpointSet {
    pub open spec fn wf(&self) -> bool {
        unique_addresses(self@)
    }

    /// An empty set.
    pub fn new() -> (r: BreakpointSet)
        ensures
            r@.len() == 0,
            r.wf(),
    {
        BreakpointSet { points: Vec::new() }
    }

    /// Number of breakpoints requested so far.
    pub fn len(&self) -> (r: usize)
        ensures
            r == self@.len(),
    {
        self.points.len()
    }

    /// The `i`-th breakpoint, in request order.
    pub fn get(&self, i: usize) -> (r: Breakpoint)
        requires
            i < self@.len(),
        ensures
            r == self@[i as int],
    {
        self.points[i]
    }

    /// Requests a breakpoint at `addr`. It is added as pending unless one
    /// is already there. Returns its 1-based number in request order.
    pub fn request(&mut self, addr: usize) -> (r: usize)
        requires
            old(self).wf(),
        ensures
            final(self).wf(),
            has_address(old(self)@, addr) ==> final(self)@ == old(self)@,
            !has_address(old(self)@, addr) ==> final(self)@ == old(self)@.push(
                Breakpoint { address: addr, saved: None },
            ),
            1 <= r <= final(self)@.len(),
            final(self)@[r - 1].address == addr,
    {
        let n = self.points.len();
        let mut i: usize = 0;
        while i < n
            invariant
                n == self@.len(),
                i <= n,
                self@ == old(self)@,
                self.wf(),
                forall|k: int| 0 <= k < i ==> self@[k].address != addr,
            decreases n - i,
        {
            if self.points[i].address == addr {
                return i + 1;
            }
            i = i + 1;
        }
        self.points.push(Breakpoint { address: addr, saved: None });
        self.points.len()
    }

    /// Marks every breakpoint pending again, for a child whose memory has
    /// not been patched yet.
    pub fn forget_installed(&mut self)
        requires
            old(self).wf(),
        ensures
            final(self).wf(),
            all_pending(final(self)@),
            final(self)@.len() == old(self)@.len(),
            forall|i: int|
                0 <= i < final(self)@.len() ==> (#[trigger] final(self)@[i]).address == old(
                    self,
                )@[i].address,
    {
        let n = self.points.len();
        let mut i: usize = 0;
        while i < n
            invariant
                n == self@.len(),
                i <= n,
                old(self)@.len() == n,
                forall|k: int| 0 <= k < n ==> (#[trigger] self@[k]).address == old(self)@[k].address,
                forall|k: int| 0 <= k < i ==> (#[trigger] self@[k]).saved is None,
            decreases n - i,
        {
            let a = self.points[i].address;
            self.points.set(i, Breakpoint { address: a, saved: None });
            i = i + 1;
        }
    }

    /// Installs every pending breakpoint into the child: the trap byte is
    /// written at its address and the byte it replaced is saved. An
    /// installed breakpoint is never patched again, so its saved byte is
    /// never lost. A breakpoint whose patch fails stays pending and is
    /// reported; the others are installed regardless.
    pub fn install_all(&mut self, inf: &mut Inferior) -> (r: Vec<InstallFailure>)
        requires
            old(self).wf(),
            installed_once(old(self)@, old(inf).patch_log()),
        ensures
            final(self).wf(),
            installed_once(final(self)@, final(inf).patch_log()),
            final(inf).same_process_state(old(inf)),
            old(inf).patch_log().is_prefix_of(final(inf).patch_log()),
            final(self)@.len() == old(self)@.len(),
            forall|i: int|
                0 <= i < old(self)@.len() ==> (#[trigger] final(self)@[i]).address == old(
                    self,
                )@[i].address,
            forall|i: int|
                0 <= i < old(self)@.len() && (#[trigger] old(self)@[i]).saved is Some
                    ==> final(self)@[i] == old(self)@[i],
            forall|i: int|
                0 <= i < old(self)@.len() && (#[trigger] final(self)@[i]).saved is None
                    ==> reported(r@, final(self)@[i].address),
            forall|k: int| 0 <= k < r@.len() ==> pending_at(final(self)@, (#[trigger] r@[k]).address),
            forall|j: int|
                old(inf).patch_log().len() <= j < final(inf).patch_log().len() ==> pending_at(
                    old(self)@,
                    (#[trigger] final(inf).patch_log()[j]).address,
                ),
    {
        let n = self.points.len();
        let mut failures: Vec<InstallFailure> = Vec::new();
        let mut i: usize = 0;
        while i < n
            invariant
                n == self@.len(),
                n == old(self)@.len(),
                i <= n,
                self.wf(),
                installed_once(self@, inf.patch_log()),
                inf.same_process_state(old(inf)),
                old(inf).patch_log().is_prefix_of(inf.patch_log()),
                forall|k: int| 0 <= k < n ==> (#[trigger] self@[k]).address == old(self)@[k].address,
                forall|k: int| i <= k < n ==> #[trigger] self@[k] == old(self)@[k],
                forall|k: int|
                    0 <= k < n && (#[trigger] old(self)@[k]).saved is Some ==> self@[k]
                        == old(self)@[k],
                forall|k: int|
                    0 <= k < i && (#[trigger] self@[k]).saved is None ==> reported(
                        failures@,
                        self@[k].address,
                    ),
                forall|m: int|
                    0 <= m < failures@.len() ==> pending_at(
                        self@.subrange(0, i as int),
                        (#[trigger] failures@[m]).address,
                    ),
            decreases n - i,
        {
            let ghost pts0 = self@;
            let ghost f0 = failures@;
            let ghost log0 = inf.patch_log();
            self.install_one(inf, i, &mut failures);
            proof {
                assert(log0.is_prefix_of(inf.patch_log()));
                assert(old(inf).patch_log().is_prefix_of(inf.patch_log()));
                lemma_failures_step(pts0, self@, f0, failures@, i as int);
            }
            i = i + 1;
        }
        assert(self@.subrange(0, i as int) =~= self@);
        proof {
            lemma_new_patches_were_pending(old(self)@, self@, old(inf).patch_log(), inf.patch_log());
        }
        failures
    }

    /// Installs breakpoint `i` if it is pending; a failure is appended to
    /// `failures`.
    fn install_one(&mut self, inf: &mut Inferior, i: usize, failures: &mut Vec<InstallFailure>)
        requires
            old(self).wf(),
            installed_once(old(self)@, old(inf).patch_log()),
            i < old(self)@.len(),
        ensures
            final(self).wf(),
            installed_once(final(self)@, final(inf).patch_log()),
            final(inf).same_process_state(old(inf)),
            old(inf).patch_log().is_prefix_of(final(inf).patch_log()),
            final(self)@.len() == old(self)@.len(),
            forall|k: int|
                0 <= k < old(self)@.len() && k != i ==> #[trigger] final(self)@[k] == old(self)@[k],
            final(self)@[i as int].address == old(self)@[i as int].address,
            old(self)@[i as int].saved is Some ==> final(self)@[i as int] == old(self)@[i as int],
            final(self)@[i as int].saved is Some ==> final(failures)@ == old(failures)@,
            final(self)@[i as int].saved is None ==> {
                &&& final(failures)@.len() == old(failures)@.len() + 1
                &&& final(failures)@.drop_last() == old(failures)@
                &&& final(failures)@.last().address == old(self)@[i as int].address
            },
    {
        let bp = self.points[i];
        if bp.saved.is_none() {
            let ghost log0 = inf.patch_log();
            let ghost pts0 = self@;
            match inf.write_byte(bp.address, TRAP_OPCODE) {
                Ok(orig) => {
                    self.points.set(i, Breakpoint { address: bp.address, saved: Some(orig) });
                    proof {
                        lemma_install_step(pts0, log0, i as int, orig, inf.patch_log());
                        assert(self@ =~= pts0.update(
                            i as int,
                            Breakpoint { address: bp.address, saved: Some(orig) },
                        ));
                        assert(unique_addresses(self@)) by {
                            assert forall|a: int, b: int|
                                0 <= a < self@.len() && 0 <= b < self@.len() && a != b implies self@[a].address
                                    != self@[b].address by {
                                assert(self@[a].address == pts0[a].address);
                                assert(self@[b].address == pts0[b].address);
                            }
                        }
                    }
                },
                Err(e) => {
                    failures.push(InstallFailure { address: bp.address, error: e });
                    assert(failures@.drop_last() =~= old(failures)@);
                },
            }
        } else {
            assert(old(inf).patch_log() =~= old(inf).patch_log().subrange(0, old(inf).patch_log().len() as int));
        }
    }
}

/// What `installed_once` means for one breakpoint: an installed one was
/// patched exactly once, that patch put the trap at the breakpoint's own
/// byte, and the saved byte is the one the trap replaced; a pending one was
/// never patched.
pub proof fn lemma_patched_exactly_once(points: Seq<Breakpoint>, log: Seq<PatchRecord>, i: int)
    requires
        installed_once(points, log),
        0 <= i < points.len(),
    ensures
        points[i].saved matches Some(b) ==> exists|j: int|
            0 <= j < log.len() && #[trigger] log[j].address == points[i].address && byte_at(
                log[j].after,
                offset_in_word(points[i].address),
            ) == TRAP_OPCODE as u64 && byte_at(log[j].before, offset_in_word(points[i].address))
                == b as u64 && forall|j2: int|
                0 <= j2 < log.len() && #[trigger] log[j2].address == points[i].address ==> j2 == j,
        points[i].saved is None ==> forall|j: int|
            0 <= j < log.len() ==> #[trigger] log[j].address != points[i].address,
{
    reveal(installed_once);
    if points[i].saved is Some {
        let j = choose|j: int| 0 <= j < log.len() && #[trigger] log[j].address == points[i].address;
        assert(points[i].address == log[j].address);
    } else {
        assert forall|j: int| 0 <= j < log.len() implies #[trigger] log[j].address != points[i].address by {
            if log[j].address == points[i].address {
                assert(points[i].address == log[j].address);
            }
        }
    }
}

/// Between two states that both keep `installed_once`, with the same
/// breakpoint addresses and a patch log that only grew, every new patch is
/// at the address of a breakpoint that was pending.
proof fn lemma_new_patches_were_pending(
    pts0: Seq<Breakpoint>,
    pts: Seq<Breakpoint>,
    log0: Seq<PatchRecord>,
    log: Seq<PatchRecord>,
)
    requires
        installed_once(pts0, log0),
        installed_once(pts, log),
        log0.is_prefix_of(log),
        pts.len() == pts0.len(),
        forall|k: int| 0 <= k < pts0.len() ==> (#[trigger] pts[k]).address == pts0[k].address,
    ensures
        forall|j: int| log0.len() <= j < log.len() ==> pending_at(pts0, (#[trigger] log[j]).address),
{
    reveal(installed_once);
    assert forall|j: int| log0.len() <= j < log.len() implies pending_at(pts0, (#[trigger] log[j]).address) by {
        let k = choose|k: int| 0 <= k < pts.len() && #[trigger] pts[k].address == log[j].address;
        assert(pts0[k].address == log[j].address);
        if pts0[k].saved is Some {
            let j0 = choose|j0: int| 0 <= j0 < log0.len() && #[trigger] log0[j0].address == pts0[k].address;
            assert(log[j0] == log0[j0]);
            assert(log[j0].address == log[j].address);
        }
    }
}

/// One step of `install_all` keeps its account of the failures.
proof fn lemma_failures_step(
    pts0: Seq<Breakpoint>,
    pts: Seq<Breakpoint>,
    f0: Seq<InstallFailure>,
    f: Seq<InstallFailure>,
    i: int,
)
    requires
        0 <= i < pts0.len(),
        pts.len() == pts0.len(),
        forall|k: int| 0 <= k < pts0.len() && k != i ==> #[trigger] pts[k] == pts0[k],
        pts[i].address == pts0[i].address,
        pts[i].saved is Some ==> f == f0,
        pts[i].saved is None ==> {
            &&& f.len() == f0.len() + 1
            &&& f.drop_last() == f0
            &&& f.last().address == pts0[i].address
        },
        forall|k: int| 0 <= k < i && (#[trigger] pts0[k]).saved is None ==> reported(f0, pts0[k].address),
        forall|m: int| 0 <= m < f0.len() ==> pending_at(pts0.subrange(0, i), (#[trigger] f0[m]).address),
    ensures
        forall|k: int| 0 <= k < i + 1 && (#[trigger] pts[k]).saved is None ==> reported(f, pts[k].address),
        forall|m: int| 0 <= m < f.len() ==> pending_at(pts.subrange(0, i + 1), (#[trigger] f[m]).address),
{
    assert forall|m: int| 0 <= m < f0.len() implies #[trigger] f[m] == f0[m] by {
        if f != f0 {
            assert(f0[m] == f.drop_last()[m]);
        }
    }
    assert forall|k: int| 0 <= k < i + 1 && (#[trigger] pts[k]).saved is None implies reported(f, pts[k].address) by {
        if k < i {
            assert(pts[k] == pts0[k]);
            let m = choose|m: int| 0 <= m < f0.len() && #[trigger] f0[m].address == pts0[k].address;
            assert(f[m] == f0[m]);
        } else {
            assert(f[f0.len() as int].address == pts[k].address);
        }
    }
    assert forall|m: int| 0 <= m < f.len() implies pending_at(pts.subrange(0, i + 1), (#[trigger] f[m]).address) by {
        let s1 = pts.subrange(0, i + 1);
        if m < f0.len() {
            let s0 = pts0.subrange(0, i);
            let k = choose|k: int| 0 <= k < s0.len() && #[trigger] s0[k].address == f0[m].address && s0[k].saved is None;
            assert(s1[k] == pts[k]);
            assert(pts[k] == pts0[k]);
        } else {
            assert(s1[i].address == f[m].address);
        }
    }
}

/// Installing the pending breakpoint `i` with the patch that `log` ends
/// with keeps `installed_once`.
proof fn lemma_install_step(
    pts: Seq<Breakpoint>,
    log0: Seq<PatchRecord>,
    i: int,
    orig: u8,
    log: Seq<PatchRecord>,
)
    requires
        unique_addresses(pts),
        installed_once(pts, log0),
        0 <= i < pts.len(),
        pts[i].saved is None,
        log.len() == log0.len() + 1,
        log.drop_last() == log0,
        log.last().address == pts[i].address,
        patch_of(log.last(), TRAP_OPCODE, orig),
    ensures
        installed_once(pts.update(i, Breakpoint { address: pts[i].address, saved: Some(orig) }), log),
        log0.is_prefix_of(log),
{
    reveal(installed_once);
    let a = pts[i].address;
    let new_pts = pts.update(i, Breakpoint { address: a, saved: Some(orig) });
    let last = log0.len() as int;
    assert forall|j: int| 0 <= j < log0.len() implies #[trigger] log[j] == log0[j] by {
        assert(log0[j] == log.drop_last()[j]);
    }
    assert forall|j: int| 0 <= j < log0.len() implies (#[trigger] log0[j]).address != a by {
        if log0[j].address == a {
            assert(pts[i].address == log0[j].address);
        }
    }
    assert forall|j: int| 0 <= j < log.len() implies has_address(new_pts, (#[trigger] log[j]).address) by {
        if j < last {
            let w = choose|k: int| 0 <= k < pts.len() && #[trigger] pts[k].address == log0[j].address;
            assert(new_pts[w].address == log[j].address);
        } else {
            assert(new_pts[i].address == log[j].address);
        }
    }
    assert forall|k: int|
        0 <= k < new_pts.len() && (#[trigger] new_pts[k]).saved is Some implies exists|j: int|
            0 <= j < log.len() && #[trigger] log[j].address == new_pts[k].address by {
        if k == i {
            assert(log[last].address == new_pts[k].address);
        } else {
            let j = choose|j: int| 0 <= j < log0.len() && #[trigger] log0[j].address == pts[k].address;
            assert(log[j].address == new_pts[k].address);
        }
    }
    assert(log0 =~= log.subrange(0, log0.len() as int));
}
} // verus!
