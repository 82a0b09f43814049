//! The calls into the operating system's process-tracing interface.
//!
//! Each function here makes one call through `nix` and converts between the
//! plain values the rest of the library works with and `nix`'s own types.
//! Errors come back as the raw `errno` value.
use nix::sys::wait::WaitStatus;
use vstd::prelude::*;

verus! {

/// What one wait on the traced child reported.
#[derive(Clone, Copy, Debug, PartialEq, Eq)]
pub enum WaitReport {
    /// The child exited normally with this status code.
    Exited(i32),
    /// A signal with this number ended the child.
    Signaled(i32),
    /// A signal with this number stopped the child.
    Stopped(i32),
    /// Any other state change (a continue, a ptrace event, a syscall stop).
    Other,
}

/// Relies on `nix::sys::wait::waitpid` (blocking, no flags): the status it
/// decodes, with the exit code taken by `WEXITSTATUS`, so within 0 to 255.
#[verifier::external_body]
pub(crate) fn wait_child(pid: i32) -> (r: Result<WaitReport, i32>)
    ensures
        r matches Ok(WaitReport::Exited(code)) ==> 0 <= code <= 255,
{
    match nix::sys::wait::waitpid(nix::unistd::Pid::from_raw(pid), None) {
        Ok(WaitStatus::Exited(_, code)) => Ok(WaitReport::Exited(code)),
        Ok(WaitStatus::Signaled(_, sig, _)) => Ok(WaitReport::Signaled(sig as i32)),
        Ok(WaitStatus::Stopped(_, sig)) => Ok(WaitReport::Stopped(sig as i32)),
        Ok(_) => Ok(WaitReport::Other),
        Err(e) => Err(e as i32),
    }
}

/// Relies on `nix::sys::ptrace::cont`: restarts the stopped child without
/// delivering a signal.
#[verifier::external_body]
pub(crate) fn resume_child(pid: i32) -> (r: Result<(), i32>) {
    nix::sys::ptrace::cont(nix::unistd::Pid::from_raw(pid), None).map_err(|e| e as i32)
}

/// Relies on `nix::sys::ptrace::getregs`: the child's instruction pointer
/// and frame pointer, in that order.
#[verifier::external_body]
pub(crate) fn read_ip_and_fp(pid: i32) -> (r: Result<(u64, u64), i32>) {
    match nix::sys::ptrace::getregs(nix::unistd::Pid::from_raw(pid)) {
        Ok(regs) => Ok((regs.rip, regs.rbp)),
        Err(e) => Err(e as i32),
    }
}

/// Relies on `nix::sys::ptrace::read` (`PTRACE_PEEKDATA`): the word of the
/// child's memory at `addr`.
#[verifier::external_body]
pub(crate) fn peek_word(pid: i32, addr: usize) -> (r: Result<u64, i32>) {
    nix::sys::ptrace::read(nix::unistd::Pid::from_raw(pid), addr as nix::sys::ptrace::AddressType)
        .map(|w| w as u64)
        .map_err(|e| e as i32)
}

/// Relies on `nix::sys::ptrace::write` (`PTRACE_POKEDATA`): stores `word`
/// at `addr` in the child's memory.
#[verifier::external_body]
pub(crate) fn poke_word(pid: i32, addr: usize, word: u64) -> (r: Result<(), i32>) {
    nix::sys::ptrace::write(
        nix::unistd::Pid::from_raw(pid),
        addr as nix::sys::ptrace::AddressType,
        word as nix::libc::c_long,
    ).map_err(|e| e as i32)
}

/// Relies on `nix::sys::signal::kill`: sends `SIGKILL` to the child.
#[verifier::external_body]
pub(crate) fn send_kill(pid: i32) -> (r: Result<(), i32>) {
    nix::sys::signal::kill(nix::unistd::Pid::from_raw(pid), nix::sys::signal::Signal::SIGKILL)
        .map_err(|e| e as i32)
}

} // verus!
