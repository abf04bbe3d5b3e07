//! Reading memory of a running process: typed values, exact-size buffers and
//! null-terminated byte strings.
pub mod os;
pub mod scan;
pub mod peek;

pub use os::{
    get_current_handle, get_current_id, handle_from_probe, iovec, peek_buf, pid_to_handle, AcquireError, Pid,
    ReadError, HANDLE,
};
pub use scan::{absorb_chunk, first_zero, scan_cstring, PEEK_SIZE};
pub use peek::{complete_read, Peek, Plain};
