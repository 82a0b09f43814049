//! A small process-level debugger engine: it drives one traced child
//! process, patches software breakpoints into its memory, decodes why it
//! stopped, and unwinds its stack along the frame-pointer chain. It also
//! holds the longest-common-subsequence table behind a line diff.
//!
//! The calls into the operating system's tracing interface all go through
//! the `trace` module.
mod address;
mod breakpoints;
mod debugger;
mod diff;
mod grid;
mod inferior;
mod patch;
mod stack;
mod symbols;
mod trace;

pub use address::{
    address_of, breakpoint_address_of, hex_value, parse_address, parse_breakpoint_address,
    AddressError,
};
pub use breakpoints::{
    all_pending, has_address, installed_once, keeps_installed, same_addresses, lemma_patched_exactly_once, pending_at, reported,
    unique_addresses, Breakpoint, BreakpointSet, InstallFailure, TRAP_OPCODE,
};
pub use debugger::{Debugger, RunReport, SessionError};
pub use diff::{
    diff_lines, diff_of, first_side, is_lcs_table, lcs, lcs_len, lemma_diff_gives_back_both,
    lemma_diff_shares_lcs, second_side, shared_count, texts, upto, DiffLine,
};
pub use grid::{Grid, GridError};
pub use inferior::{
    decode_wait, decoded, is_end, offset_in_word, patch_of, Inferior, PatchRecord, ResumeReport,
    StartError, Status, TraceError, WaitRecord, KILL_WAITS,
};
pub use patch::{align_addr_to_word, byte_at, lemma_patch_round_trip, patch_word, WORD_BYTES};
pub use stack::{
    follows_chain, lemma_backtrace_is_chain_prefix, resolved, unwound, well_ended, Backtrace,
    Frame, WalkEnd, MAX_FRAMES,
};
pub use trace::WaitReport;
pub use symbols::{covers, function_from, line_upto, FunctionSymbol, LineSymbol, SymbolTable};
