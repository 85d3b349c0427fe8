use room::ffi::safe_wrapper::SystemInterface;
use room::ffi::types::{ProcessId, SystemError};
use room::oom::pressure::MemoryStats;
use room::{check_environment, VERSION};

#[test]
fn test_version() {
    assert!(!VERSION.is_empty());
}

#[test]
fn test_invalid_pid() {
    let _sys = SystemInterface::new();
    let pid = ProcessId::new(-1);
    assert!(pid.is_none());
}

#[test]
fn pid_rejects_everything_up_to_zero() {
    for p in [i32::MIN, -1000, -1, 0] {
        assert!(ProcessId::new(p).is_none());
        assert_eq!(SystemError::checked_pid(p), Err(SystemError::InvalidPid(p)));
    }
}

#[test]
fn pid_accepts_positive_and_round_trips() {
    for p in [1, 2, 1234, 32768, 4194304, i32::MAX] {
        let pid = ProcessId::new(p).unwrap();
        assert_eq!(pid.as_raw(), p);
        assert_eq!(SystemError::checked_pid(p).unwrap().as_raw(), p);
    }
}

#[test]
fn pids_compare_by_value() {
    assert_eq!(ProcessId::new(7), ProcessId::new(7));
    assert_ne!(ProcessId::new(7), ProcessId::new(8));
}

#[test]
fn errno_categories() {
    assert_eq!(SystemError::from_errno(1), SystemError::PermissionDenied);
    assert_eq!(SystemError::from_errno(13), SystemError::PermissionDenied);
    assert_eq!(SystemError::from_errno(3), SystemError::ProcessNotFound);
    assert_eq!(SystemError::from_errno(2), SystemError::ProcessNotFound);
    assert_eq!(SystemError::from_errno(22), SystemError::SyscallError(22));
    assert_eq!(SystemError::from_errno(0), SystemError::SyscallError(0));
    assert_eq!(SystemError::from_errno(-5), SystemError::SyscallError(-5));
}

#[test]
fn errno_categories_of_the_host() {
    assert_eq!(SystemError::from_host_errno(1), SystemError::PermissionDenied);
    assert_eq!(SystemError::from_host_errno(13), SystemError::PermissionDenied);
    assert_eq!(SystemError::from_host_errno(2), SystemError::SyscallError(2));
    assert_eq!(SystemError::from_host_errno(3), SystemError::SyscallError(3));
    assert_eq!(SystemError::from_host_errno(5), SystemError::SyscallError(5));
}

#[test]
fn kill_outcome_is_classified() {
    let sys = SystemInterface::new();
    assert_eq!(sys.kill(0, 0), Ok(()));
    assert_eq!(sys.kill(0, 3), Ok(()));
    assert_eq!(sys.kill(-1, 1), Err(SystemError::PermissionDenied));
    assert_eq!(sys.kill(-1, 3), Err(SystemError::ProcessNotFound));
    assert_eq!(sys.kill(-1, 22), Err(SystemError::SyscallError(22)));
}

#[test]
fn kill_signal_is_sigkill() {
    assert_eq!(SystemInterface::new().kill_signal(), 9);
}

#[test]
fn environment_check() {
    let stats = MemoryStats {
        total_memory: 1,
        free_memory: 0,
        available_memory: 0,
        total_swap: 0,
        free_swap: 0,
        cached_memory: 0,
    };
    assert_eq!(check_environment(true, Ok(stats)), Ok(()));
    assert_eq!(check_environment(false, Ok(stats)), Err(SystemError::SyscallError(2)));
    assert_eq!(
        check_environment(true, Err(SystemError::SyscallError(5))),
        Err(SystemError::SyscallError(5))
    );
    assert_eq!(
        check_environment(false, Err(SystemError::SyscallError(5))),
        Err(SystemError::SyscallError(2))
    );
    assert_eq!(
        check_environment(false, Err(SystemError::PermissionDenied)),
        Err(SystemError::SyscallError(2))
    );
    assert_eq!(
        check_environment(true, Err(SystemError::PermissionDenied)),
        Err(SystemError::PermissionDenied)
    );
}
