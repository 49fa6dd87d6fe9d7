//! The platform layer the loader's diagnostics are written through.

use vstd::prelude::*;

verus! {

/// The system calls the loader's output goes through.
pub trait Pal {
    fn write(fd: i32, buf: &[u8]) -> isize;

    fn read(fd: i32, buf: &mut [u8]) -> isize;
}

/// The platform of a freestanding loader, which has no descriptor to write to
/// or read from: every call transfers nothing and succeeds.
pub struct Sys;

impl Pal for Sys {
    fn write(fd: i32, buf: &[u8]) -> isize {
        0
    }

    fn read(fd: i32, buf: &mut [u8]) -> isize {
        0
    }
}

/// A failed write; the error number is kept in the writer.
#[derive(Debug, Clone, Copy, PartialEq, Eq)]
pub struct WriteError;

/// The error number a negative system-call result stands for.
pub open spec fn errno_of(ret: isize) -> i32 {
    if ret < -(i32::MAX as int) {
        i32::MAX
    } else {
        (-ret) as i32
    }
}

/// A writer to a file descriptor that remembers the last error number.
pub struct FileWriter(pub i32, pub Option<i32>);

impl FileWriter {
    pub fn new(fd: i32) -> (r: FileWriter)
        ensures
            r.0 == fd,
            r.1 is None,
    {
        FileWriter(fd, None)
    }

    /// Takes the result `ret` of a write system call: a negative result is
    /// an error whose number is kept.
    pub fn record(&mut self, ret: isize) -> (r: Result<(), WriteError>)
        ensures
            final(self).0 == old(self).0,
            ret < 0 ==> r is Err && final(self).1 == Some(errno_of(ret)),
            ret >= 0 ==> r is Ok && final(self).1 == old(self).1,
    {
        if ret < 0 {
            let errno = if ret < -(i32::MAX as isize) {
                i32::MAX
            } else {
                (-ret) as i32
            };
            self.1 = Some(errno);
            Err(WriteError)
        } else {
            Ok(())
        }
    }

    /// Writes `buf` to the descriptor; on failure the error number is kept.
    pub fn write(&mut self, buf: &[u8]) -> (r: Result<(), WriteError>)
        ensures
            final(self).0 == old(self).0,
            r is Ok ==> final(self).1 == old(self).1,
            r is Err ==> final(self).1 is Some && final(self).1->0 > 0,
    {
        let ret = Sys::write(self.0, buf);
        self.record(ret)
    }
}

} // verus!
