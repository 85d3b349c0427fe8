use room::ffi::types::{ProcessId, SystemError};
use room::linux::proc_stat::{
    calculate_runtime_score, get_system_uptime, runtime_score_of_age, ProcessStat,
    RUNTIME_SCALE, UNKNOWN_RUNTIME_SCORE,
};

const STAT: &[u8] = b"4242 (Web Content) S 1780 4242 4242 0 -1 4194560 96233 0 12 0 1520 431 7 3 20 0 28 0 8350012 3221225472 131072 18446744073709551615 1 1 0 0 0 0 0 4096 17663 0 0 0 17 3 0 0 0 0 0\n";

fn stat_started_at(ticks: u64) -> ProcessStat {
    ProcessStat {
        pid: ProcessId::new(1).unwrap(),
        comm: b"test".to_vec(),
        state: b'R',
        ppid: 0,
        start_time: ticks,
        utime: 0,
        stime: 0,
        cutime: 0,
        cstime: 0,
    }
}

fn stat_with_fields(comm: &str, fields: &[&str]) -> Vec<u8> {
    format!("77 ({}) {}", comm, fields.join(" ")).into_bytes()
}

fn usual_fields() -> Vec<&'static str> {
    vec![
        "R", "1", "5", "3", "4", "5", "6", "7", "8", "9", "10", "11", "12", "13", "14", "15",
        "16", "17", "18", "19", "20", "21", "22", "23",
    ]
}

#[test]
fn stat_line_is_read() {
    let pid = ProcessId::new(4242).unwrap();
    let stat = ProcessStat::parse_stat(STAT, pid).unwrap();
    assert_eq!(stat.pid, pid);
    assert_eq!(stat.comm, b"Web Content");
    assert_eq!(stat.state, b'S');
    assert_eq!(stat.ppid, 4242);
    assert_eq!(stat.utime, 1520);
    assert_eq!(stat.stime, 431);
    assert_eq!(stat.cutime, 7);
    assert_eq!(stat.cstime, 3);
    assert_eq!(stat.start_time, 8350012);
}

#[test]
fn stat_fields_are_counted_from_zero_after_the_name() {
    let pid = ProcessId::new(77).unwrap();
    let stat = ProcessStat::parse_stat(&stat_with_fields("sh", &usual_fields()), pid).unwrap();
    assert_eq!(stat.comm, b"sh");
    assert_eq!(stat.state, b'R');
    assert_eq!(stat.ppid, 5);
    assert_eq!(stat.utime, 11);
    assert_eq!(stat.stime, 12);
    assert_eq!(stat.cutime, 13);
    assert_eq!(stat.cstime, 14);
    assert_eq!(stat.start_time, 19);
}

#[test]
fn command_name_may_hold_parentheses_and_spaces() {
    let pid = ProcessId::new(77).unwrap();
    let line = stat_with_fields("a) b (c)) d", &usual_fields());
    let stat = ProcessStat::parse_stat(&line, pid).unwrap();
    assert_eq!(stat.comm, b"a) b (c)) d");
    assert_eq!(stat.state, b'R');
    assert_eq!(stat.start_time, 19);
    let spaced = stat_with_fields("  ", &usual_fields());
    assert_eq!(ProcessStat::parse_stat(&spaced, pid).unwrap().comm, b"  ");
}

#[test]
fn stat_with_too_few_fields_is_invalid() {
    let pid = ProcessId::new(77).unwrap();
    let fields = usual_fields();
    assert_eq!(fields.len(), 24);
    assert!(ProcessStat::parse_stat(&stat_with_fields("sh", &fields), pid).is_ok());
    assert_eq!(
        ProcessStat::parse_stat(&stat_with_fields("sh", &fields[..23]), pid).err(),
        Some(SystemError::InvalidData)
    );
    assert_eq!(
        ProcessStat::parse_stat(&stat_with_fields("sh", &[]), pid).err(),
        Some(SystemError::InvalidData)
    );
    // fields before the name do not count
    let crowded = format!("1 2 3 4 5 6 7 8 9 10 11 12 13 14 15 16 17 18 19 20 21 22 23 24 (sh) R");
    assert_eq!(
        ProcessStat::parse_stat(crowded.as_bytes(), pid).err(),
        Some(SystemError::InvalidData)
    );
}

#[test]
fn stat_without_parentheses_is_invalid() {
    let pid = ProcessId::new(77).unwrap();
    let tail = usual_fields().join(" ");
    for head in ["77 sh", "77 (sh", "77 sh)", "77 )sh("] {
        let line = format!("{} {}", head, tail);
        assert_eq!(
            ProcessStat::parse_stat(line.as_bytes(), pid).err(),
            Some(SystemError::InvalidData)
        );
    }
    assert_eq!(ProcessStat::parse_stat(b"", pid).err(), Some(SystemError::InvalidData));
}

#[test]
fn unreadable_numbers_in_stat_count_as_zero() {
    let pid = ProcessId::new(77).unwrap();
    let mut fields = usual_fields();
    fields[0] = "?";
    fields[2] = "x";
    fields[11] = "-1";
    fields[12] = "1.5";
    fields[13] = "y";
    fields[14] = "99999999999999999999";
    fields[19] = "z";
    let stat = ProcessStat::parse_stat(&stat_with_fields("", &fields), pid).unwrap();
    assert_eq!(stat.comm, b"");
    assert_eq!(stat.state, b'?');
    assert_eq!(stat.ppid, 0);
    assert_eq!(stat.utime, 0);
    assert_eq!(stat.stime, 0);
    assert_eq!(stat.cutime, 0);
    assert_eq!(stat.cstime, 0);
    assert_eq!(stat.start_time, 0);
}

#[test]
fn uptime_is_the_first_field_in_milliseconds() {
    assert_eq!(get_system_uptime(b"350735.47 234388.90\n"), 350735470);
    assert_eq!(get_system_uptime(b"12.5"), 12500);
    assert_eq!(get_system_uptime(b"  7 "), 7000);
    assert_eq!(get_system_uptime(b".75 1"), 750);
    assert_eq!(get_system_uptime(b"+3.5"), 3500);
    assert_eq!(get_system_uptime(b""), 0);
    assert_eq!(get_system_uptime(b"soon 12.5"), 0);
    assert_eq!(get_system_uptime(b"99999999999999999999.0"), 0);
}

#[test]
fn cpu_time_adds_all_four_counters() {
    let pid = ProcessId::new(4242).unwrap();
    let stat = ProcessStat::parse_stat(STAT, pid).unwrap();
    assert_eq!(stat.total_cpu_time(100), 19610);
    assert_eq!(stat.total_cpu_time(1000), 1961);
    assert_eq!(stat.total_cpu_time(300), 6536);
    let mut busy = stat_started_at(0);
    busy.utime = u64::MAX;
    busy.stime = u64::MAX;
    busy.cutime = u64::MAX;
    busy.cstime = u64::MAX;
    assert_eq!(busy.total_cpu_time(100), 4 * (u64::MAX as u128) * 10);
}

#[test]
fn running_time_is_uptime_less_start() {
    let stat = stat_started_at(180000);
    assert_eq!(stat.running_time(3_600_000, 100), 1_800_000);
    assert_eq!(stat.running_time(1_800_000, 100), 0);
    assert_eq!(stat.running_time(1_799_999, 100), 0);
    assert_eq!(stat.running_time(0, 100), 0);
    assert_eq!(stat_started_at(1).running_time(1000, 3), 666);
    assert_eq!(stat_started_at(0).running_time(u64::MAX, u64::MAX), u64::MAX);
    assert_eq!(stat_started_at(u64::MAX).running_time(u64::MAX, 1), 0);
}

#[test]
fn runtime_score_by_age() {
    assert_eq!(runtime_score_of_age(0), 864000);
    assert_eq!(runtime_score_of_age(600), 835200);
    assert_eq!(runtime_score_of_age(1800), 777600);
    assert_eq!(runtime_score_of_age(3599), 691248);
    assert_eq!(runtime_score_of_age(3600), 673200);
    assert_eq!(runtime_score_of_age(43200), 475200);
    assert_eq!(runtime_score_of_age(86399), 259205);
    assert_eq!(runtime_score_of_age(86400), 259200);
    assert_eq!(runtime_score_of_age(129600), 129600);
    assert_eq!(runtime_score_of_age(172799), 3);
    assert_eq!(runtime_score_of_age(172800), 0);
    assert_eq!(runtime_score_of_age(259200), 0);
    assert_eq!(runtime_score_of_age(u64::MAX), 0);
    assert_eq!(UNKNOWN_RUNTIME_SCORE * 2, RUNTIME_SCALE);
}

#[test]
fn runtime_score_as_fractions() {
    let as_score = |age: u64| runtime_score_of_age(age) as f64 / RUNTIME_SCALE as f64;
    assert!((as_score(0) - 1.0).abs() < 1e-12);
    assert!((as_score(1800) - 0.9).abs() < 1e-12);
    assert!((as_score(43200) - 0.55).abs() < 1e-12);
    assert!((as_score(86400) - 0.3).abs() < 1e-12);
    assert!((as_score(129600) - 0.15).abs() < 1e-12);
}

#[test]
fn runtime_score_never_rises_with_age() {
    let mut last = runtime_score_of_age(0);
    let mut age = 0;
    while age < 200000 {
        let score = runtime_score_of_age(age);
        assert!(score <= last);
        assert!(score <= RUNTIME_SCALE);
        last = score;
        age += 37;
    }
}

#[test]
fn test_runtime_score_values() {
    // three processes that have run for 30 minutes, 12 hours and 2 days on a
    // host that has been up for three days
    let uptime_secs: u64 = 3 * 24 * 3600;
    let uptime = uptime_secs * 1000;
    let mut stat = stat_started_at(0);

    stat.start_time = (uptime_secs - 1800) * 100;
    let new_process_score = calculate_runtime_score(&stat, uptime, 100);

    stat.start_time = (uptime_secs - 12 * 3600) * 100;
    let medium_process_score = calculate_runtime_score(&stat, uptime, 100);

    stat.start_time = (uptime_secs - 2 * 24 * 3600) * 100;
    let long_process_score = calculate_runtime_score(&stat, uptime, 100);

    assert!(new_process_score > medium_process_score);
    assert!(medium_process_score > long_process_score);
    assert_eq!(new_process_score, 777600);
    assert_eq!(medium_process_score, 475200);
    assert_eq!(long_process_score, 0);
}

#[test]
fn test_read_current_process_stat() {
    let pid = ProcessId::new(4242).unwrap();
    let stat = ProcessStat::from_pid(pid, STAT).unwrap();

    assert_eq!(stat.pid, pid);
    assert!(!stat.comm.is_empty());
    assert!(stat.start_time > 0);
}

#[test]
fn test_process_times() {
    let pid = ProcessId::new(4242).unwrap();
    let stat = ProcessStat::from_pid(pid, STAT).unwrap();
    let uptime = get_system_uptime(b"350735.47 234388.90\n");

    let cpu_time = stat.total_cpu_time(100);
    let running_time = stat.running_time(uptime, 100);

    assert!(running_time > 0);
    assert!(cpu_time <= running_time as u128);
    assert_eq!(running_time, 350735470 - 83500120);
}

#[test]
fn test_runtime_score() {
    let pid = ProcessId::new(4242).unwrap();
    let stat = ProcessStat::from_pid(pid, STAT).unwrap();
    let uptime = get_system_uptime(b"350735.47 234388.90\n");

    let score = calculate_runtime_score(&stat, uptime, 100) as f64 / RUNTIME_SCALE as f64;
    assert!(score >= 0.0 && score <= 1.0);
}
