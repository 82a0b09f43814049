//! Unwinding the stopped child's stack along the frame-pointer chain.
use vstd::prelude::*;
use crate::inferior::{Inferior, TraceError};
use crate::symbols::SymbolTable;

verus! {

/// Largest number of frames one backtrace reports, so that a frame-pointer
/// chain that loops cannot make the walk run forever.
pub const MAX_FRAMES: usize = 4096;

/// One frame of the stack: where it executes, its frame pointer, and what
/// the symbol tables say about that address (`None` where they know
/// nothing, which is rendered as an unknown frame).
#[derive(Clone, Copy, Debug, PartialEq, Eq)]
pub struct Frame {
    pub ip: usize,
    pub fp: usize,
    pub function: Option<usize>,
    pub line: Option<usize>,
}

/// Why the walk stopped.
#[derive(Clone, Copy, Debug, PartialEq, Eq)]
pub enum WalkEnd {
    /// The last frame is in the entry function.
    ReachedEntry,
    /// Reading the next frame's words from the child failed.
    ReadFailed,
    /// `MAX_FRAMES` frames were gathered.
    DepthLimit,
}

/// The frames found, innermost first, and why the walk stopped.
pub struct Backtrace {
    pub frames: Vec<Frame>,
    pub end: WalkEnd,
}

/// The reads that the walk makes, in order: for each frame but the last,
/// the return address 8 bytes above its frame pointer, which is the next
/// frame's instruction pointer, then the saved frame pointer at its frame
/// pointer, which is the next frame's. A walk cut short by a failed read
/// may have made one more successful read.
pub open spec fn follows_chain(frames: Seq<Frame>, reads: Seq<(usize, u64)>) -> bool {
    &&& frames.len() >= 1
    &&& reads.len() == 2 * (frames.len() - 1) || reads.len() == 2 * (frames.len() - 1) + 1
    &&& forall|i: int|
        0 <= i < frames.len() - 1 ==> {
            &&& (#[trigger] reads[2 * i]).0 == frames[i].fp + 8
            &&& frames[i + 1].ip == reads[2 * i].1 as usize
            &&& reads[2 * i + 1].0 == frames[i].fp
            &&& frames[i + 1].fp == reads[2 * i + 1].1 as usize
        }
}

/// Each frame carries what the tables say of its address.
pub open spec fn resolved(frames: Seq<Frame>, symbols: &SymbolTable) -> bool {
    forall|i: int|
        0 <= i < frames.len() ==> {
            &&& (#[trigger] frames[i]).function matches Some(f) ==> symbols.spec_function_at(
                frames[i].ip,
            ) == Some(f as int)
            &&& frames[i].function is None ==> symbols.spec_function_at(frames[i].ip) is None
            &&& frames[i].line matches Some(l) ==> symbols.spec_line_at(frames[i].ip) == Some(
                l as int,
            )
            &&& frames[i].line is None ==> symbols.spec_line_at(frames[i].ip) is None
        }
}

/// The walk goes on past every frame but the last only because that frame
/// is not in the entry function, and `end` tells why it stopped.
pub open spec fn well_ended(frames: Seq<Frame>, end: WalkEnd, symbols: &SymbolTable) -> bool {
    &&& frames.len() >= 1
    &&& frames.len() <= MAX_FRAMES
    &&& forall|i: int| 0 <= i < frames.len() - 1 ==> !symbols.spec_is_entry((#[trigger] frames[i]).function)
    &&& (end == WalkEnd::ReachedEntry <==> symbols.spec_is_entry(frames.last().function))
    &&& (end == WalkEnd::DepthLimit ==> frames.len() == MAX_FRAMES)
}

impl Inferior {
    /// Unwinds the stack of the stopped child, innermost frame first,
    /// starting from its current instruction and frame pointers. The walk
    /// stops at the entry function, at the first failed read (keeping the
    /// frames found so far), or after `MAX_FRAMES` frames. Fails only if
    /// the registers cannot be read.
    pub fn backtrace(&mut self, symbols: &SymbolTable) -> (r: Result<Backtrace, TraceError>)
        ensures
            final(self).spec_pid() == old(self).spec_pid(),
            final(self).patch_log() == old(self).patch_log(),
            final(self).register_reads().len() == old(self).register_reads().len() + 1,
            final(self).register_reads().drop_last() == old(self).register_reads(),
            r is Err <==> final(self).register_reads().last() is Err,
            r matches Err(e) ==> (final(self).register_reads().last() matches Err(c) && e
                == TraceError::Os(c)),
            r is Err ==> final(self).read_log() == old(self).read_log(),
            r is Err ==> final(self).failed_reads() == old(self).failed_reads(),
            r matches Ok(bt) ==> {
                &&& final(self).register_reads().last() matches Ok((ip, fp)) && bt.frames@[0].ip
                    == ip as usize && bt.frames@[0].fp == fp as usize
                &&& bt.end == WalkEnd::ReadFailed ==> ((final(self).failed_reads()
                    == old(self).failed_reads().push(final(self).failed_reads().last()) && (
                final(self).failed_reads().last() == bt.frames@.last().fp + 8
                    || final(self).failed_reads().last() == bt.frames@.last().fp))
                    || bt.frames@.last().fp + 8 > usize::MAX)
                &&& bt.end != WalkEnd::ReadFailed ==> final(self).failed_reads() == old(
                    self,
                ).failed_reads()
                &&& old(self).read_log().is_prefix_of(final(self).read_log())
                &&& follows_chain(
                    bt.frames@,
                    final(self).read_log().skip(old(self).read_log().len() as int),
                )
                &&& resolved(bt.frames@, symbols)
                &&& well_ended(bt.frames@, bt.end, symbols)
            },
    {
        let (ip0, fp0) = match self.read_frame_registers() {
            Ok(regs) => regs,
            Err(e) => {
                assert(self.register_reads().drop_last() =~= old(self).register_reads());
                return Err(e);
            },
        };
        assert(self.register_reads().drop_last() =~= old(self).register_reads());
        let ghost start = old(self).read_log().len() as int;
        let mut ip: usize = #[verifier::truncate] (ip0 as usize);
        let mut fp: usize = #[verifier::truncate] (fp0 as usize);
        let mut frames: Vec<Frame> = Vec::new();
        loop
            invariant
                self.spec_pid() == old(self).spec_pid(),
                self.patch_log() == old(self).patch_log(),
                self.failed_reads() == old(self).failed_reads(),
                self.register_reads() == old(self).register_reads().push(Ok::<(u64, u64), i32>((ip0, fp0))),
                frames@.len() == 0 ==> ip == ip0 as usize && fp == fp0 as usize,
                frames@.len() >= 1 ==> frames@[0].ip == ip0 as usize && frames@[0].fp == fp0 as usize,
                start == old(self).read_log().len(),
                old(self).read_log().is_prefix_of(self.read_log()),
                frames@.len() < MAX_FRAMES,
                frames@.len() == 0 ==> self.read_log() == old(self).read_log(),
                frames@.len() >= 1 ==> follows_chain(
                    frames@.push(Frame { ip, fp, function: None, line: None }),
                    self.read_log().skip(start),
                ),
                frames@.len() >= 1 ==> self.read_log().len() == start + 2 * frames@.len(),
                resolved(frames@, symbols),
                forall|i: int| 0 <= i < frames@.len() ==> !symbols.spec_is_entry((#[trigger] frames@[i]).function),
            decreases MAX_FRAMES - frames@.len(),
        {
            let frame = Frame { ip, fp, function: symbols.function_at(ip), line: symbols.line_at(ip) };
            let ghost before = frames@;
            frames.push(frame);
            proof {
                lemma_chain_replace_last(before, ip, fp, frame, self.read_log().skip(start));
            }
            if symbols.is_entry(frame.function) {
                return Ok(Backtrace { frames, end: WalkEnd::ReachedEntry });
            }
            if frames.len() == MAX_FRAMES {
                return Ok(Backtrace { frames, end: WalkEnd::DepthLimit });
            }
            if fp > usize::MAX - 8 {
                return Ok(Backtrace { frames, end: WalkEnd::ReadFailed });
            }
            let ghost log0 = self.read_log();
            let ret = match self.read_word(fp + 8) {
                Ok(w) => w,
                Err(_) => {
                    return Ok(Backtrace { frames, end: WalkEnd::ReadFailed });
                },
            };
            let ghost log1 = self.read_log();
            assert(log1 == log0.push(((fp + 8) as usize, ret)));
            let saved = match self.read_word(fp) {
                Ok(w) => w,
                Err(_) => {
                    proof {
                        assert(log1.subrange(0, log0.len() as int) =~= log0);
                        lemma_chain_one_more_read(frames@, log0, start, log1);
                    }
                    return Ok(Backtrace { frames, end: WalkEnd::ReadFailed });
                },
            };
            proof {
                lemma_chain_step(frames@, log0, start, ret, saved);
            }
            ip = #[verifier::truncate] (ret as usize);
            fp = #[verifier::truncate] (saved as usize);
        }
    }
}

/// Frame `i` of the frame-pointer chain that starts at `ip` and `fp`, in
/// a memory whose words `mem` gives: the next frame's instruction pointer
/// is the word 8 bytes above the frame pointer, its frame pointer the word
/// at the frame pointer.
pub open spec fn unwound(mem: Map<usize, u64>, ip: usize, fp: usize, i: nat) -> (usize, usize)
    decreases i,
{
    if i == 0 {
        (ip, fp)
    } else {
        let prev = unwound(mem, ip, fp, (i - 1) as nat);
        (mem[(prev.1 + 8) as usize] as usize, mem[prev.1] as usize)
    }
}

/// A backtrace is the frame-pointer chain itself, innermost frame first:
/// in any memory that agrees with the words the walk read, frame `i` is
/// frame `i` of the chain from the first frame's registers. It is never
/// empty. It ends with the entry function exactly when it stopped there,
/// and no earlier frame is in the entry function. When a read failed, the
/// last frame is not in the entry function, so the full chain, which only
/// ends there, goes on: what was returned is a strict prefix of it.
pub proof fn lemma_backtrace_is_chain_prefix(
    frames: Seq<Frame>,
    end: WalkEnd,
    symbols: &SymbolTable,
    reads: Seq<(usize, u64)>,
    mem: Map<usize, u64>,
)
    requires
        follows_chain(frames, reads),
        well_ended(frames, end, symbols),
        forall|k: int| 0 <= k < reads.len() ==> mem.contains_key(#[trigger] reads[k].0) && mem[reads[k].0] == reads[k].1,
    ensures
        frames.len() >= 1,
        forall|i: int|
            0 <= i < frames.len() ==> ((#[trigger] frames[i]).ip, frames[i].fp) == unwound(
                mem,
                frames[0].ip,
                frames[0].fp,
                i as nat,
            ),
        end == WalkEnd::ReachedEntry <==> symbols.spec_is_entry(frames.last().function),
        forall|i: int| 0 <= i < frames.len() - 1 ==> !symbols.spec_is_entry((#[trigger] frames[i]).function),
        end == WalkEnd::ReadFailed ==> !symbols.spec_is_entry(frames.last().function),
{
    assert forall|i: int| 0 <= i < frames.len() implies ((#[trigger] frames[i]).ip, frames[i].fp) == unwound(
        mem,
        frames[0].ip,
        frames[0].fp,
        i as nat,
    ) by {
        lemma_unwound_prefix(frames, reads, mem, i);
    }
}

proof fn lemma_unwound_prefix(frames: Seq<Frame>, reads: Seq<(usize, u64)>, mem: Map<usize, u64>, i: int)
    requires
        follows_chain(frames, reads),
        forall|k: int| 0 <= k < reads.len() ==> mem.contains_key(#[trigger] reads[k].0) && mem[reads[k].0] == reads[k].1,
        0 <= i < frames.len(),
    ensures
        (frames[i].ip, frames[i].fp) == unwound(mem, frames[0].ip, frames[0].fp, i as nat),
    decreases i,
{
    if i > 0 {
        lemma_unwound_prefix(frames, reads, mem, i - 1);
        let k = i - 1;
        assert(reads[2 * k].0 == frames[k].fp + 8);
        assert(mem[reads[2 * k].0] == reads[2 * k].1);
        assert(mem[reads[2 * k + 1].0] == reads[2 * k + 1].1);
    }
}

proof fn lemma_chain_replace_last(
    before: Seq<Frame>,
    ip: usize,
    fp: usize,
    frame: Frame,
    reads: Seq<(usize, u64)>,
)
    requires
        frame.ip == ip,
        frame.fp == fp,
        before.len() >= 1 ==> follows_chain(before.push(Frame { ip, fp, function: None, line: None }), reads),
        before.len() >= 1 ==> reads.len() == 2 * before.len(),
        before.len() == 0 ==> reads.len() == 0,
    ensures
        follows_chain(before.push(frame), reads),
        reads.len() == 2 * (before.push(frame).len() - 1),
{
    let a = before.push(Frame { ip, fp, function: None, line: None });
    let b = before.push(frame);
    assert forall|i: int| 0 <= i < b.len() - 1 implies {
        &&& (#[trigger] reads[2 * i]).0 == b[i].fp + 8
        &&& b[i + 1].ip == reads[2 * i].1 as usize
        &&& reads[2 * i + 1].0 == b[i].fp
        &&& b[i + 1].fp == reads[2 * i + 1].1 as usize
    } by {
        assert(a[i] == b[i]);
        assert(a[i + 1].ip == b[i + 1].ip && a[i + 1].fp == b[i + 1].fp);
    }
}

proof fn lemma_chain_one_more_read(
    frames: Seq<Frame>,
    log0: Seq<(usize, u64)>,
    start: int,
    log1: Seq<(usize, u64)>,
)
    requires
        0 <= start <= log0.len(),
        follows_chain(frames, log0.skip(start)),
        log0.skip(start).len() == 2 * (frames.len() - 1),
        log1.len() == log0.len() + 1,
        log1.subrange(0, log0.len() as int) == log0,
    ensures
        follows_chain(frames, log1.skip(start)),
        log0.is_prefix_of(log1),
{
    let r0 = log0.skip(start);
    let r1 = log1.skip(start);
    assert forall|k: int| 0 <= k < r0.len() implies #[trigger] r1[k] == r0[k] by {
        assert(log1[start + k] == log1.subrange(0, log0.len() as int)[start + k]);
    }
    assert forall|i: int| 0 <= i < frames.len() - 1 implies {
        &&& (#[trigger] r1[2 * i]).0 == frames[i].fp + 8
        &&& frames[i + 1].ip == r1[2 * i].1 as usize
        &&& r1[2 * i + 1].0 == frames[i].fp
        &&& frames[i + 1].fp == r1[2 * i + 1].1 as usize
    } by {
        assert(r1[2 * i] == r0[2 * i]);
        assert(r1[2 * i + 1] == r0[2 * i + 1]);
    }
}

proof fn lemma_chain_step(
    frames: Seq<Frame>,
    log0: Seq<(usize, u64)>,
    start: int,
    ret: u64,
    saved: u64,
)
    requires
        0 <= start <= log0.len(),
        frames.len() >= 1,
        follows_chain(frames, log0.skip(start)),
        log0.skip(start).len() == 2 * (frames.len() - 1),
        frames.last().fp + 8 <= usize::MAX,
    ensures
        ({
            let log2 = log0.push(((frames.last().fp + 8) as usize, ret)).push((frames.last().fp, saved));
            &&& follows_chain(
                frames.push(
                    Frame { ip: ret as usize, fp: saved as usize, function: None, line: None },
                ),
                log2.skip(start),
            )
            &&& log2.len() == start + 2 * frames.len()
            &&& log0.is_prefix_of(log2)
        }),
{
    let log2 = log0.push(((frames.last().fp + 8) as usize, ret)).push((frames.last().fp, saved));
    let f2 = frames.push(Frame { ip: ret as usize, fp: saved as usize, function: None, line: None });
    let r0 = log0.skip(start);
    let r2 = log2.skip(start);
    assert forall|k: int| 0 <= k < r0.len() implies #[trigger] r2[k] == r0[k] by {
        assert(log2[start + k] == log0[start + k]);
    }
    assert forall|i: int| 0 <= i < f2.len() - 1 implies {
        &&& (#[trigger] r2[2 * i]).0 == f2[i].fp + 8
        &&& f2[i + 1].ip == r2[2 * i].1 as usize
        &&& r2[2 * i + 1].0 == f2[i].fp
        &&& f2[i + 1].fp == r2[2 * i + 1].1 as usize
    } by {
        if i < frames.len() - 1 {
            assert(f2[i] == frames[i]);
            assert(f2[i + 1] == frames[i + 1]);
            assert(r2[2 * i] == r0[2 * i]);
            assert(r2[2 * i + 1] == r0[2 * i + 1]);
        } else {
            assert(f2[i] == frames.last());
            assert(r2[2 * i] == log2[log0.len() as int]);
            assert(r2[2 * i + 1] == log2[log0.len() as int + 1]);
        }
    }
    assert(log0 =~= log2.subrange(0, log0.len() as int));
}

} // verus!
