//! Identifiers and the error taxonomy shared by every component.

use vstd::prelude::*;

verus! {

/// A point on the caller's monotonic clock or a length of time, in
/// milliseconds.
pub type Millis = u64;

/// `EPERM`: the operation is not permitted.
pub const EPERM: i32 = 1;

/// `ENOENT`: no such file or directory.
pub const ENOENT: i32 = 2;

/// `ESRCH`: no such process.
pub const ESRCH: i32 = 3;

/// `EACCES`: permission denied.
pub const EACCES: i32 = 13;

/// The identifier of a process: always strictly positive.
#[derive(Debug, Clone, Copy, PartialEq, Eq, Structural)]
pub struct ProcessId(i32);

impl ProcessId {
    /// The integer this identifier stands for.
    pub closed spec fn raw(self) -> int {
        self.0 as int
    }

    #[verifier::type_invariant]
    spec fn positive(self) -> bool {
        self.0 > 0
    }

    /// Accepts exactly the strictly positive integers.
    pub fn new(pid: i32) -> (r: Option<ProcessId>)
        ensures
            r is Some <==> pid > 0,
            r matches Some(p) ==> p.raw() == pid,
    {
        if pid > 0 {
            Some(ProcessId(pid))
        } else {
            None
        }
    }

    /// The integer the identifier was made from.
    pub fn as_raw(&self) -> (r: i32)
        ensures
            r == self.raw(),
            r > 0,
    {
        proof {
            use_type_invariant(self);
        }
        self.0
    }

    /// Two identifiers with the same integer are the same identifier.
    pub proof fn lemma_raw_injective(a: ProcessId, b: ProcessId)
        requires
            a.raw() == b.raw(),
        ensures
            a == b,
    {
    }
}

/// Why an operation on the host failed.
#[derive(Debug, Clone, Copy, PartialEq, Eq, Structural)]
pub enum SystemError {
    /// An integer that is not a process identifier was offered as one.
    InvalidPid(i32),
    /// The operating system refused for a reason without a category of its
    /// own; the payload is the raw `errno`.
    SyscallError(i32),
    /// The caller may not read or signal the target.
    PermissionDenied,
    /// The target process no longer exists.
    ProcessNotFound,
    /// A required field could not be parsed and has no sensible default.
    InvalidData,
}

/// The category of a raw `errno`.
pub open spec fn errno_category(errno: i32) -> SystemError {
    if errno == EPERM || errno == EACCES {
        SystemError::PermissionDenied
    } else if errno == ESRCH || errno == ENOENT {
        SystemError::ProcessNotFound
    } else {
        SystemError::SyscallError(errno)
    }
}

/// The category of a raw `errno` from an operation on the host itself,
/// where no process is the target: a refusal, or the failure with its
/// number.
pub open spec fn host_errno_category(errno: i32) -> SystemError {
    if errno == EPERM || errno == EACCES {
        SystemError::PermissionDenied
    } else {
        SystemError::SyscallError(errno)
    }
}

impl SystemError {
    /// Sorts a raw `errno` into the taxonomy: `EPERM` and `EACCES` are a
    /// refusal, `ESRCH` and `ENOENT` a vanished target, anything else is
    /// kept with its number.
    pub fn from_errno(errno: i32) -> (e: SystemError)
        ensures
            e == errno_category(errno),
    {
        if errno == EPERM || errno == EACCES {
            SystemError::PermissionDenied
        } else if errno == ESRCH || errno == ENOENT {
            SystemError::ProcessNotFound
        } else {
            SystemError::SyscallError(errno)
        }
    }

    /// Sorts the raw `errno` of an operation on the host itself, such as
    /// reading `/proc/meminfo`: `EPERM` and `EACCES` are a refusal,
    /// anything else, a missing file too, is kept with its number.
    pub fn from_host_errno(errno: i32) -> (e: SystemError)
        ensures
            e == host_errno_category(errno),
    {
        if errno == EPERM || errno == EACCES {
            SystemError::PermissionDenied
        } else {
            SystemError::SyscallError(errno)
        }
    }

    /// The smart constructor as a fallible conversion: the identifier for a
    /// positive integer, `InvalidPid` with the offending integer otherwise.
    pub fn checked_pid(pid: i32) -> (r: Result<ProcessId, SystemError>)
        ensures
            pid > 0 ==> r is Ok && r->Ok_0.raw() == pid,
            pid <= 0 ==> r == Err::<ProcessId, SystemError>(SystemError::InvalidPid(pid)),
    {
        match ProcessId::new(pid) {
            Some(p) => Ok(p),
            None => Err(SystemError::InvalidPid(pid)),
        }
    }
}

} // verus!
