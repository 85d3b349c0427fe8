//! Room: the decision core of a user-space out-of-memory killer.
//!
//! The library observes nothing by itself. Its caller reads `/proc`, the
//! clock and the outcome of `kill(2)`, and hands plain values in; the library
//! says whether the host is under persistent memory pressure, which process
//! is the victim, and how the books change after a kill.

use vstd::prelude::*;

pub mod ffi;
pub mod linux;
pub mod oom;

pub use crate::ffi::safe_wrapper::SystemInterface;
use crate::ffi::types::ENOENT;
pub use crate::ffi::types::{ProcessId, SystemError};
pub use crate::oom::killer::OOMKiller;
pub use crate::oom::pressure::MemoryStats;
pub use crate::oom::pressure::PressureDetector;
pub use crate::oom::score::OOMScorer;
pub use crate::oom::selector::ProcessSelector;

verus! {

/// Version of this library.
pub const VERSION: &'static str = "0.1.0";

/// The check of the environment at startup, on what the caller found:
/// whether `/proc` exists, and how reading the host's memory went. A
/// missing `/proc` is a failed system call, "no such file or directory"; a
/// failed reading is handed back. Either is fatal to the caller.
pub fn check_environment(proc_exists: bool, memory_reading: Result<MemoryStats, SystemError>) -> (r:
    Result<(), SystemError>)
    ensures
        r == (if !proc_exists {
            Err::<(), SystemError>(SystemError::SyscallError(ENOENT))
        } else {
            match memory_reading {
                Ok(_) => Ok::<(), SystemError>(()),
                Err(e) => Err::<(), SystemError>(e),
            }
        }),
{
    if !proc_exists {
        return Err(SystemError::SyscallError(ENOENT));
    }
    match memory_reading {
        Ok(_) => Ok(()),
        Err(e) => Err(e),
    }
}

} // verus!
