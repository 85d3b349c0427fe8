//! The meaning of what the signal-delivery system call reports.

use crate::ffi::types::{errno_category, SystemError};
use vstd::prelude::*;

verus! {

/// What a `kill(2)` that returned `status`, leaving `errno` behind, means.
pub open spec fn kill_outcome(status: i32, errno: i32) -> Result<(), SystemError> {
    if status == 0 {
        Ok(())
    } else {
        Err(errno_category(errno))
    }
}

/// The number of the signal that cannot be caught or ignored.
pub open spec fn spec_sigkill() -> i32 {
    9
}

/// Reads `libc::SIGKILL`. The contract claims that the constant is 9, as
/// the crate defines it for every platform it knows.
#[verifier::external_body]
pub(crate) fn sigkill() -> (signal: i32)
    ensures
        signal == spec_sigkill(),
{
    libc::SIGKILL
}

/// Interprets the raw results of system calls that the caller has made.
#[derive(Debug, Clone, Copy)]
pub struct SystemInterface {}

impl SystemInterface {
    /// An interpreter of system call results; it holds nothing.
    pub fn new() -> (s: SystemInterface)
        ensures
            s == (SystemInterface {}),
    {
        SystemInterface {}
    }

    /// The signal this library sends to a victim.
    pub fn kill_signal(&self) -> (signal: i32)
        ensures
            signal == spec_sigkill(),
    {
        sigkill()
    }

    /// Interprets the outcome of a `kill(2)` call: a zero status is
    /// success, anything else fails with the category of `errno`.
    pub fn kill(&self, status: i32, errno: i32) -> (r: Result<(), SystemError>)
        ensures
            r == kill_outcome(status, errno),
    {
        if status == 0 {
            Ok(())
        } else {
            Err(SystemError::from_errno(errno))
        }
    }
}

} // verus!
