//! Core of a small microkernel: two-level page-table management with page
//! lending between address spaces, a process table keyed by 16-byte access
//! keys, the system-call wire codec, and the dispatcher decisions that drive
//! the hosted transport.

use vstd::prelude::*;

pub mod dispatch;
pub mod flags;
pub mod frame;
pub mod manager;
pub mod mem;
pub mod ram;
pub mod services;
pub mod syscall;

verus! {

/// Size of one page of memory, in bytes.
pub const PAGE_SIZE: usize = 4096;

/// Kernel-chosen base of the window where incoming message buffers are
/// mapped into a receiving process.
pub const DEFAULT_MESSAGE_BASE: usize = 0x4000_0000;

/// Default base of a process heap.
pub const DEFAULT_HEAP_BASE: usize = 0x2000_0000;

/// Default base for miscellaneous mappings.
pub const DEFAULT_BASE: usize = 0x6000_0000;

/// End of the user-addressable area.
pub const USER_AREA_END: usize = 0xff00_0000;

/// Errors a system call can report back to the calling process.
#[derive(Clone, Copy, Debug, PartialEq, Eq, Structural)]
pub enum Error {
    BadAddress,
    BadAlignment,
    OutOfMemory,
    ShareViolation,
    ProcessNotFound,
    ThreadNotFound,
    ServerNotFound,
    InvalidSyscall,
    AlreadyMapped,
}

impl Error {
    /// Stable numeric code used on the wire.
    pub fn code(&self) -> (r: usize)
        ensures
            r == self.spec_code(),
    {
        match self {
            Error::BadAddress => 1,
            Error::BadAlignment => 2,
            Error::OutOfMemory => 3,
            Error::ShareViolation => 4,
            Error::ProcessNotFound => 5,
            Error::ThreadNotFound => 6,
            Error::ServerNotFound => 7,
            Error::InvalidSyscall => 8,
            Error::AlreadyMapped => 9,
        }
    }

    pub open spec fn spec_code(self) -> usize {
        match self {
            Error::BadAddress => 1,
            Error::BadAlignment => 2,
            Error::OutOfMemory => 3,
            Error::ShareViolation => 4,
            Error::ProcessNotFound => 5,
            Error::ThreadNotFound => 6,
            Error::ServerNotFound => 7,
            Error::InvalidSyscall => 8,
            Error::AlreadyMapped => 9,
        }
    }

    /// Inverse of `code`; unknown codes fall back to `InvalidSyscall`.
    pub fn from_code(code: usize) -> (r: Error)
        ensures
            r == Error::spec_from_code(code),
    {
        match code {
            1 => Error::BadAddress,
            2 => Error::BadAlignment,
            3 => Error::OutOfMemory,
            4 => Error::ShareViolation,
            5 => Error::ProcessNotFound,
            6 => Error::ThreadNotFound,
            7 => Error::ServerNotFound,
            9 => Error::AlreadyMapped,
            _ => Error::InvalidSyscall,
        }
    }

    pub open spec fn spec_from_code(code: usize) -> Error {
        if code == 1 {
            Error::BadAddress
        } else if code == 2 {
            Error::BadAlignment
        } else if code == 3 {
            Error::OutOfMemory
        } else if code == 4 {
            Error::ShareViolation
        } else if code == 5 {
            Error::ProcessNotFound
        } else if code == 6 {
            Error::ThreadNotFound
        } else if code == 7 {
            Error::ServerNotFound
        } else if code == 9 {
            Error::AlreadyMapped
        } else {
            Error::InvalidSyscall
        }
    }
}

/// Every error code round-trips through its wire encoding.
pub proof fn lemma_error_code_round_trip(e: Error)
    ensures
        Error::spec_from_code(e.spec_code()) == e,
{
}

} // verus!
