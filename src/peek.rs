//! The reader: one handle on a target process and the reads made through it.
use vstd::prelude::*;
use crate::os::{peek_buf, pid_to_handle, AcquireError, ReadError, Pid, HANDLE};
use crate::scan::{no_zero, scan_cstring, PEEK_SIZE};

verus! {

/// A type whose values may be rebuilt from any bytes of their memory image.
pub trait Plain: Sized {
    /// The byte length of a value's memory image.
    fn size() -> usize;

    /// The value whose memory image is `image`, which is `size()` bytes long.
    fn from_image(image: &[u8]) -> Self;
}

/// Relies on Vec::capacity, which is never below the length.
#[verifier::external_body]
fn capacity_of(v: &Vec<u8>) -> (r: usize)
    ensures
        r >= v@.len(),
{
    v.capacity()
}

/// Reads one chunk of the null-terminated scan at `addr`: the bytes that a
/// read of `PEEK_SIZE` bytes delivered.
fn read_chunk(hdl: HANDLE, addr: usize) -> (r: Result<Vec<u8>, ReadError>)
    ensures
        r matches Ok(c) ==> c@.len() <= PEEK_SIZE,
        r matches Err(e) ==> e is Os,
{
    let mut buf: Vec<u8> = Vec::new();
    match peek_buf(&hdl, addr, &mut buf, PEEK_SIZE) {
        Ok(n) => {
            buf.truncate(n);
            Ok(buf)
        },
        Err(e) => Err(e),
    }
}

/// Turns the outcome of a raw read of `requested` bytes into the outcome of
/// an exact read: a short count becomes an error.
pub fn complete_read(res: Result<usize, ReadError>, requested: usize) -> (r: Result<(), ReadError>)
    ensures
        match res {
            Ok(n) => if n == requested {
                r == Ok::<(), ReadError>(())
            } else {
                r == Err::<(), ReadError>(ReadError::Short { requested, read: n })
            },
            Err(e) => r == Err::<(), ReadError>(e),
        },
{
    match res {
        Ok(n) => if n == requested {
            Ok(())
        } else {
            Err(ReadError::Short { requested, read: n })
        },
        Err(e) => Err(e),
    }
}

/// A reader of one target process's memory.
pub struct Peek {
    hdl: HANDLE,
}

impl Peek {
    /// The handle through which this reader reads.
    pub closed spec fn target(&self) -> HANDLE {
        self.hdl
    }

    /// A reader of process `pid`, which fails as acquiring its handle does.
    pub fn new_with_pid(pid: Pid) -> (r: Result<Self, AcquireError>)
        ensures
            pid <= 0 <==> r matches Err(AcquireError::BadPid),
            r matches Ok(p) ==> p.target() == pid,
            r matches Err(e) ==> e is BadPid || e is Os,
    {
        match pid_to_handle(pid) {
            Ok(hdl) => Ok(Peek { hdl }),
            Err(e) => Err(e),
        }
    }

    /// A reader that reads through `hdl`.
    pub fn new_with_handle(hdl: HANDLE) -> (r: Self)
        ensures
            r.target() == hdl,
    {
        Peek { hdl }
    }

    /// The handle through which this reader reads.
    pub fn handle(&self) -> (r: HANDLE)
        ensures
            r == self.target(),
    {
        self.hdl
    }

    /// Reads a value of type `T` at `addr`. A value is built only from a
    /// read that delivered its whole image.
    pub fn peek_data<T: Plain>(&self, addr: usize) -> (r: Result<T, ReadError>)
        ensures
            r matches Err(ReadError::Short { requested, read }) ==> read < requested,
    {
        let size = T::size();
        let mut buf: Vec<u8> = Vec::new();
        let res = peek_buf(&self.hdl, addr, &mut buf, size);
        match complete_read(res, size) {
            Ok(()) => Ok(T::from_image(buf.as_slice())),
            Err(e) => Err(e),
        }
    }

    /// Reads the null-terminated byte string at `addr`, without its
    /// terminator. Where the readable memory ends before a zero byte, the
    /// bytes read so far are returned.
    pub fn peek_until_null(&self, addr: usize) -> (r: Result<Vec<u8>, ReadError>)
        ensures
            r matches Ok(s) ==> no_zero(s@),
            r matches Err(e) ==> e is Os,
    {
        let hdl = self.hdl;
        let read = |a: usize| -> (c: Result<Vec<u8>, ReadError>)
            ensures
                c matches Err(e) ==> e is Os,
            {
                read_chunk(hdl, a)
            };
        scan_cstring(read, addr)
    }

    /// Reads into `dst` as many bytes at `addr` as `dst` has capacity for.
    /// A read that delivers fewer fails; on success `dst` holds the bytes
    /// read, on failure it is left as it was.
    pub fn peek_vec(&self, addr: usize, dst: &mut Vec<u8>) -> (r: Result<(), ReadError>)
        ensures
            r is Ok ==> final(dst)@.len() >= old(dst)@.len(),
            r is Err ==> final(dst)@ == old(dst)@,
            r matches Err(ReadError::Short { requested, read }) ==> requested >= old(dst)@.len()
                && read < requested,
    {
        let size = capacity_of(dst);
        self.peek_sized(addr, dst, size)
    }

    /// Reads exactly `size` bytes at `addr` into `dst`. A read that delivers
    /// fewer fails; on success `dst` holds the bytes read, on failure it is
    /// left as it was.
    pub fn peek_sized(&self, addr: usize, dst: &mut Vec<u8>, size: usize) -> (r: Result<(), ReadError>)
        ensures
            r is Ok ==> final(dst)@.len() == size,
            r is Err ==> final(dst)@ == old(dst)@,
            r matches Err(ReadError::Short { requested, read }) ==> requested == size && read < size,
    {
        let mut buf: Vec<u8> = Vec::new();
        let res = peek_buf(&self.hdl, addr, &mut buf, size);
        let r = complete_read(res, size);
        if r.is_ok() {
            *dst = buf;
        }
        r
    }
}

} // verus!
