//! The errors of the fmac control interface.

use vstd::prelude::*;

verus! {

/// Why a control operation failed; an `errno` is the raw OS error number.
#[derive(Debug)]
pub enum Error {
    /// The `ioctl` with request `cmd` failed.
    Ioctl { cmd: u32, errno: i32 },
    /// The `prctl` with option `op` failed.
    Prctl { op: u32, errno: i32 },
    /// No open file descriptor links to a path that holds this text.
    FdNotFound(&'static str),
    /// Creating the event file descriptor failed.
    EventFd(i32),
    /// Polling the event file descriptor failed.
    Poll(i32),
    /// Reading the event file descriptor failed.
    Read(i32),
}

} // verus!
