//! The operating system's side: process identifiers, handles and the raw read.
use vstd::prelude::*;

verus! {

/// A process identifier.
pub type Pid = i32;

/// The capability used to read a target's memory. On this platform the
/// process identifier is the capability itself: acquiring it takes no
/// system call and releasing it is a no-op.
pub type HANDLE = Pid;

/// One address range: `iov_len` bytes starting at address `iov_base`.
#[allow(non_camel_case_types)]
#[derive(Clone, Copy, Debug, PartialEq, Eq)]
pub struct iovec {
    pub iov_base: usize,
    pub iov_len: usize,
}

/// An error of a read from a target process.
#[derive(Clone, Copy, Debug, PartialEq, Eq)]
pub enum ReadError {
    /// The system call failed with this error number.
    Os(i32),
    /// The read succeeded but delivered only `read` of the `requested` bytes.
    Short { requested: usize, read: usize },
}

/// An error of acquiring a handle on a target process.
#[derive(Clone, Copy, Debug, PartialEq, Eq)]
pub enum AcquireError {
    /// The identifier is not positive, so it names no single process.
    BadPid,
    /// The system refused the process: it does not exist (`ESRCH`) or may
    /// not be accessed (`EPERM`); the error number is kept.
    Os(i32),
}

/// Relies on nix::unistd::getpid: the identifier of the calling process,
/// which POSIX makes positive.
#[verifier::external_body]
fn os_getpid() -> (r: Pid)
    ensures
        r > 0,
{
    nix::unistd::getpid().as_raw()
}

/// Relies on nix::sys::signal::kill with no signal: it only checks that
/// process `pid` exists and may be signalled, and returns the error number
/// when it may not.
#[verifier::external_body]
fn probe_process(pid: Pid) -> (r: Result<(), i32>)
    requires
        pid > 0,
{
    match nix::sys::signal::kill(nix::unistd::Pid::from_raw(pid), None) {
        Ok(()) => Ok(()),
        Err(e) => Err(e as i32),
    }
}

/// Relies on nix::sys::uio::process_vm_readv with one local and one remote
/// range of the same length: it fills `local` in place, keeps its length,
/// and on success returns a byte count no larger than the range; on failure
/// it returns the error number.
#[verifier::external_body]
fn process_vm_read(pid: Pid, remote: iovec, local: &mut Vec<u8>) -> (r: Result<usize, i32>)
    requires
        old(local)@.len() == remote.iov_len,
    ensures
        final(local)@.len() == old(local)@.len(),
        r matches Ok(n) ==> n <= remote.iov_len,
{
    let mut local_iov = [std::io::IoSliceMut::new(local.as_mut_slice())];
    let remote_iov = [nix::sys::uio::RemoteIoVec { base: remote.iov_base, len: remote.iov_len }];
    match nix::sys::uio::process_vm_readv(nix::unistd::Pid::from_raw(pid), &mut local_iov, &remote_iov) {
        Ok(n) => Ok(n),
        Err(e) => Err(e as i32),
    }
}

/// The identifier of the calling process.
pub fn get_current_id() -> (r: Pid)
    ensures
        r > 0,
{
    os_getpid()
}

/// A handle on the calling process: its own identifier, which needs no
/// check since the caller is alive.
pub fn get_current_handle() -> (r: HANDLE)
    ensures
        r > 0,
{
    get_current_id()
}

/// Turns the outcome of probing process `pid` into the outcome of acquiring
/// a handle on it: the handle is the identifier itself.
pub fn handle_from_probe(pid: Pid, probe: Result<(), i32>) -> (r: Result<HANDLE, AcquireError>)
    ensures
        match probe {
            Ok(()) => r == Ok::<HANDLE, AcquireError>(pid),
            Err(code) => r == Err::<HANDLE, AcquireError>(AcquireError::Os(code)),
        },
{
    match probe {
        Ok(()) => Ok(pid),
        Err(code) => Err(AcquireError::Os(code)),
    }
}

/// A handle on process `pid`. An identifier that is not positive is
/// refused before any system call; otherwise the process must exist and be
/// accessible. On this platform the handle is the identifier itself and
/// needs no release.
pub fn pid_to_handle(pid: Pid) -> (r: Result<HANDLE, AcquireError>)
    ensures
        pid <= 0 <==> r == Err::<HANDLE, AcquireError>(AcquireError::BadPid),
        r matches Ok(h) ==> h == pid,
{
    if pid <= 0 {
        return Err(AcquireError::BadPid);
    }
    handle_from_probe(pid, probe_process(pid))
}

/// Reads `size` bytes at `addr` of the process behind `hdl` into `dst`.
/// `dst` ends up exactly `size` bytes long, whatever the outcome; on success
/// its first `n` bytes are those read, where `n` is the count returned.
pub fn peek_buf(hdl: &HANDLE, addr: usize, dst: &mut Vec<u8>, size: usize) -> (r: Result<usize, ReadError>)
    ensures
        final(dst)@.len() == size,
        match r {
            Ok(n) => n <= size,
            Err(e) => e is Os,
        },
{
    dst.clear();
    dst.resize(size, 0u8);
    let range = iovec { iov_base: addr, iov_len: size };
    match process_vm_read(*hdl, range, dst) {
        Ok(n) => Ok(n),
        Err(code) => Err(ReadError::Os(code)),
    }
}

} // verus!
