use room::ffi::types::{ProcessId, SystemError};
use room::linux::proc::{ProcessInfo, ProcessMemInfo};
use room::oom::killer::{KillerConfig, KillerStatus, MockKiller, OOMKiller};
use room::oom::pressure::{MemoryStats, PressureThresholds};
use room::oom::selector::{ProcessSample, SelectorConfig};

const KMIB: u64 = 1024 * 1024;
const KGIB: u64 = 1024 * 1024 * 1024;

fn process(pid: i32, name: &str, rss: u64) -> ProcessInfo {
    ProcessInfo {
        pid: ProcessId::new(pid).unwrap(),
        name: name.as_bytes().to_vec(),
        state: b"S (sleeping)".to_vec(),
        ppid: 1,
        uid: None,
        mem_info: ProcessMemInfo {
            vm_peak: rss,
            vm_size: rss,
            vm_rss: rss,
            vm_swap: 0,
            oom_score: 0,
            oom_score_adj: 0,
        },
    }
}

fn crowd() -> Vec<ProcessSample> {
    vec![
        ProcessSample { info: process(11, "a", 200 * KMIB), stat: None },
        ProcessSample { info: process(12, "b", 300 * KMIB), stat: None },
        ProcessSample { info: process(13, "c", 250 * KMIB), stat: None },
    ]
}

fn short_of_memory() -> MemoryStats {
    MemoryStats {
        total_memory: 10 * KGIB,
        free_memory: 100 * KMIB,
        available_memory: 400 * KMIB,
        total_swap: 0,
        free_swap: 0,
        cached_memory: 0,
    }
}

/// Selects, reads again and delivers with the given outcome.
fn kill_once(
    killer: &mut OOMKiller,
    now: u64,
    reread_rss: u64,
    outcome: Result<(), SystemError>,
) -> Option<i32> {
    let victim = killer.check_and_kill(now, &short_of_memory(), crowd(), 0)?;
    let request = killer
        .kill_process(victim, Ok(process(victim.as_raw(), "b", reread_rss)))
        .unwrap()
        .unwrap();
    assert_eq!(request.signal, 9);
    assert_eq!(request.pid, victim);
    let _ = killer.record_kill(now, request, outcome);
    Some(victim.as_raw())
}

#[test]
fn test_oom_killer_lifecycle() {
    let mut killer = OOMKiller::new(None, 0);

    assert!(killer.start());
    assert!(killer.running);

    killer.stop();
    assert!(!killer.running);

    let status = killer.get_status();
    assert!(status.running_since <= 1_000);
}

#[test]
fn start_and_stop_are_idempotent() {
    let mut killer = OOMKiller::new(None, 17);
    assert!(!killer.running);
    killer.stop();
    assert!(!killer.running);
    assert!(killer.start());
    assert!(!killer.start());
    assert!(killer.running);
    killer.stop();
    killer.stop();
    assert!(!killer.running);
    assert!(killer.start());
    assert_eq!(
        killer.get_status(),
        KillerStatus {
            last_kill_time: None,
            total_kills: 0,
            total_memory_reclaimed: 0,
            running_since: 17
        }
    );
}

#[test]
fn test_kill_interval() {
    let config = KillerConfig { min_kill_interval: 100, ..Default::default() };

    let mut killer = OOMKiller::new(Some(config), 0);

    // the first look finds pressure beginning: no victim, and nothing in the books
    let before = killer.get_status();
    assert_eq!(killer.check_and_kill(0, &short_of_memory(), crowd(), 0), None);
    assert_eq!(killer.get_status(), before);
    assert_eq!(killer.last_kill_time, None);
    assert_eq!(killer.selector.pressure_detector.pressure_start, Some(0));

    // once the pressure has lasted, a kill is made and entered
    let killed_at = 5_000;
    assert_eq!(kill_once(&mut killer, killed_at, 300 * KMIB, Ok(())), Some(12));
    assert_eq!(killer.last_kill_time, Some(killed_at));

    // a look right after it is held back by the interval
    let now = killed_at + 99;
    let books = killer.get_status();
    let detector = killer.selector.pressure_detector;
    assert_eq!(killer.check_and_kill(now, &short_of_memory(), crowd(), 0), None);
    assert_eq!(killer.get_status(), books);
    assert_eq!(killer.selector.pressure_detector, detector);
    if let Some(last_time) = killer.last_kill_time {
        assert!(now - last_time < killer.config.min_kill_interval);
    }

    // at the interval the killer looks again
    assert_eq!(
        killer.check_and_kill(killed_at + 100, &short_of_memory(), crowd(), 0).map(|p| p.as_raw()),
        Some(12)
    );
}

#[test]
fn test_mock_killer() {
    let mut mock = MockKiller::new();
    let pid = ProcessId::new(1234).unwrap();

    assert!(mock.kill(pid).is_ok());
    assert_eq!(mock.get_killed_processes(), &[pid]);
}

#[test]
fn mock_killer_remembers_in_order() {
    let mut mock = MockKiller::new();
    assert!(mock.get_killed_processes().is_empty());
    for p in [5, 3, 5, 9] {
        assert_eq!(mock.kill(ProcessId::new(p).unwrap()), Ok(()));
    }
    let killed: Vec<i32> = mock.get_killed_processes().iter().map(|p| p.as_raw()).collect();
    assert_eq!(killed, vec![5, 3, 5, 9]);
}

#[test]
fn default_killer_config() {
    let c = KillerConfig::default();
    assert_eq!(c.selector, SelectorConfig::default());
    assert_eq!(c.pressure, PressureThresholds::default());
    assert_eq!(c.min_kill_interval, 5_000);
    assert_eq!(c.check_interval, 100);
    let killer = OOMKiller::new(None, 3);
    assert_eq!(killer.config, c);
    assert_eq!(killer.selector.config, c.selector);
    assert_eq!(killer.selector.pressure_detector.thresholds, c.pressure);
    assert_eq!(killer.selector.pressure_detector.last_pressure_check, 3);
}

#[test]
fn a_full_iteration_kills_and_counts() {
    let mut killer = OOMKiller::new(None, 0);
    assert_eq!(killer.check_and_kill(0, &short_of_memory(), crowd(), 0), None);
    assert_eq!(killer.check_and_kill(2_500, &short_of_memory(), crowd(), 0), None);
    let victim = killer.check_and_kill(5_000, &short_of_memory(), crowd(), 0).unwrap();
    assert_eq!(victim.as_raw(), 12);
    let request = killer.kill_process(victim, Ok(process(12, "b", 310 * KMIB))).unwrap().unwrap();
    assert_eq!(request.signal, 9);
    let record = killer.record_kill(5_001, request, Ok(())).unwrap();
    assert_eq!(record.pid, victim);
    assert_eq!(record.name, b"b");
    assert_eq!(record.rss_bytes, 310 * KMIB);
    assert_eq!(record.reclaimed_mib(), 310);
    assert_eq!(
        killer.get_status(),
        KillerStatus {
            last_kill_time: Some(5_001),
            total_kills: 1,
            total_memory_reclaimed: 310 * KMIB,
            running_since: 0
        }
    );
}

#[test]
fn kills_are_spaced_by_the_interval() {
    let mut killer = OOMKiller::new(None, 0);
    let request = killer
        .kill_process(ProcessId::new(12).unwrap(), Ok(process(12, "b", KGIB)))
        .unwrap()
        .unwrap();
    killer.record_kill(0, request, Ok(())).unwrap();
    // two iterations within the interval both skip, without a look at memory
    assert_eq!(killer.check_and_kill(1_000, &short_of_memory(), crowd(), 0), None);
    assert_eq!(killer.selector.pressure_detector.pressure_start, None);
    assert_eq!(killer.check_and_kill(4_999, &short_of_memory(), crowd(), 0), None);
    assert_eq!(killer.selector.pressure_detector.pressure_start, None);
    // after the interval the selector is asked again
    assert_eq!(killer.check_and_kill(6_000, &short_of_memory(), crowd(), 0), None);
    assert_eq!(killer.selector.pressure_detector.pressure_start, Some(6_000));
    assert_eq!(kill_once(&mut killer, 11_000, KGIB, Ok(())), Some(12));
    assert_eq!(killer.get_status().total_kills, 2);
    assert_eq!(killer.get_status().last_kill_time, Some(11_000));
    assert_eq!(killer.check_and_kill(15_999, &short_of_memory(), crowd(), 0), None);
    assert_eq!(kill_once(&mut killer, 16_000, KGIB, Ok(())), Some(12));
    assert_eq!(killer.get_status().total_kills, 3);
}

#[test]
fn a_victim_that_vanished_changes_nothing() {
    let mut killer = OOMKiller::new(None, 0);
    killer.check_and_kill(0, &short_of_memory(), crowd(), 0);
    let victim = killer.check_and_kill(5_000, &short_of_memory(), crowd(), 0).unwrap();
    let before = killer.get_status();
    assert!(matches!(killer.kill_process(victim, Err(SystemError::ProcessNotFound)), Ok(None)));
    assert_eq!(killer.get_status(), before);
    // the next iteration proceeds as usual
    assert_eq!(kill_once(&mut killer, 5_100, 300 * KMIB, Ok(())), Some(12));
    assert_eq!(killer.get_status().total_kills, 1);
    assert_eq!(killer.get_status().total_memory_reclaimed, 300 * KMIB);
}

#[test]
fn other_failures_of_the_second_reading_are_handed_back() {
    let killer = OOMKiller::new(None, 0);
    let pid = ProcessId::new(12).unwrap();
    for e in [SystemError::PermissionDenied, SystemError::InvalidData, SystemError::SyscallError(5),
        SystemError::InvalidPid(0)]
    {
        assert_eq!(killer.kill_process(pid, Err(e)).err(), Some(e));
    }
}

#[test]
fn delivery_outcomes() {
    let pid = ProcessId::new(12).unwrap();
    let request = |killer: &OOMKiller| {
        killer.kill_process(pid, Ok(process(12, "b", 5 * KMIB))).unwrap().unwrap()
    };
    let mut killer = OOMKiller::new(None, 0);
    let fresh = killer.get_status();

    let r = request(&killer);
    assert_eq!(killer.record_kill(10, r, Err(SystemError::PermissionDenied)).err(),
        Some(SystemError::PermissionDenied));
    assert_eq!(killer.get_status(), fresh);

    let r = request(&killer);
    assert_eq!(killer.record_kill(20, r, Err(SystemError::SyscallError(22))).err(),
        Some(SystemError::SyscallError(22)));
    assert_eq!(killer.get_status(), fresh);

    // a process that was gone already counts as a kill that reclaimed nothing
    let r = request(&killer);
    let record = killer.record_kill(30, r, Err(SystemError::ProcessNotFound)).unwrap();
    assert_eq!(record.rss_bytes, 0);
    assert_eq!(record.pid, pid);
    assert_eq!(
        killer.get_status(),
        KillerStatus {
            last_kill_time: Some(30),
            total_kills: 1,
            total_memory_reclaimed: 0,
            running_since: 0
        }
    );

    let r = request(&killer);
    killer.record_kill(40, r, Ok(())).unwrap();
    assert_eq!(
        killer.get_status(),
        KillerStatus {
            last_kill_time: Some(40),
            total_kills: 2,
            total_memory_reclaimed: 5 * KMIB,
            running_since: 0
        }
    );
}

#[test]
fn books_add_up_over_many_kills() {
    let mut killer = OOMKiller::new(None, 0);
    let mut sum = 0;
    for n in 1..=50u64 {
        let rss = n * 3 * KMIB + n;
        let pid = ProcessId::new(n as i32).unwrap();
        let request = killer.kill_process(pid, Ok(process(n as i32, "p", rss))).unwrap().unwrap();
        killer.record_kill(n * 10_000, request, Ok(())).unwrap();
        sum += rss;
        let status = killer.get_status();
        assert_eq!(status.total_kills, n);
        assert_eq!(status.total_memory_reclaimed, sum);
        assert_eq!(status.last_kill_time, Some(n * 10_000));
    }
}

#[test]
fn counters_stop_at_the_largest_value() {
    let mut killer = OOMKiller::new(None, 0);
    killer.total_kills = u64::MAX;
    killer.total_memory_reclaimed = u64::MAX - 5;
    let pid = ProcessId::new(1).unwrap();
    let request = killer.kill_process(pid, Ok(process(1, "p", 10))).unwrap().unwrap();
    killer.record_kill(1, request, Ok(())).unwrap();
    assert_eq!(killer.total_kills, u64::MAX);
    assert_eq!(killer.total_memory_reclaimed, u64::MAX);
}

#[test]
fn a_clock_that_ran_backwards_does_not_unlock_a_kill() {
    let mut killer = OOMKiller::new(None, 0);
    let pid = ProcessId::new(1).unwrap();
    let request = killer.kill_process(pid, Ok(process(1, "p", 10))).unwrap().unwrap();
    killer.record_kill(50_000, request, Ok(())).unwrap();
    assert_eq!(killer.check_and_kill(10, &short_of_memory(), crowd(), 0), None);
    assert_eq!(killer.selector.pressure_detector.pressure_start, None);
}
