use rhei_cli::lock_owner::{
    displaced_run_lock_target, fdinfo_holds_exclusive_flock, lock_owner_verdict, parse_linux_process_start_ticks,
    FdFinding, ProcessProbe, RecordRead, RunLockOwner,
};

const STAT: &str = "1234 (my (odd) proc) S 1 1234 1234 0 -1 4194560 123 0 0 0 1 2 0 0 20 0 1 0 98765 100 200";

#[test]
fn the_start_time_is_the_twentieth_field_after_the_command() {
    assert_eq!(parse_linux_process_start_ticks(STAT), Ok(98765));
}

#[test]
fn start_time_errors_say_what_is_missing() {
    assert_eq!(
        parse_linux_process_start_ticks("1234 no terminator"),
        Err("the recorded process stat has no command terminator".to_string())
    );
    assert_eq!(
        parse_linux_process_start_ticks("1234 (x) S 1 2 3"),
        Err("the recorded process stat has no start identity".to_string())
    );
    assert_eq!(
        parse_linux_process_start_ticks("1 (x) S 1 1 1 0 -1 0 0 0 0 0 1 2 0 0 20 0 1 0 12ab 1"),
        Err("the recorded process start identity is invalid: invalid digit found in string".to_string())
    );
    assert_eq!(
        parse_linux_process_start_ticks("1 (x) S 1 1 1 0 -1 0 0 0 0 0 1 2 0 0 20 0 1 0 99999999999999999999 1"),
        Err("the recorded process start identity is invalid: number too large to fit in target type".to_string())
    );
}

#[test]
fn exclusive_flocks_are_found_in_fdinfo() {
    let fdinfo = "pos:\t0\nflags:\t02\nlock:\t1: FLOCK  ADVISORY  WRITE 4242 00:2a:123 0 EOF\n";
    assert!(fdinfo_holds_exclusive_flock(fdinfo, 4242));
    assert!(!fdinfo_holds_exclusive_flock(fdinfo, 4243));
    let shared = "lock:\t1: FLOCK  ADVISORY  READ 4242 00:2a:123 0 EOF\n";
    assert!(!fdinfo_holds_exclusive_flock(shared, 4242));
    assert!(!fdinfo_holds_exclusive_flock("", 4242));
}

#[test]
fn displaced_lock_targets_are_recognised() {
    let lock = "/w/.rhei/run.lock";
    assert!(displaced_run_lock_target("/w/.rhei/run.lock", lock));
    assert!(displaced_run_lock_target("/w/.rhei/run.lock (deleted)", lock));
    assert!(displaced_run_lock_target("/w/.rhei/run.lock.123", lock));
    assert!(displaced_run_lock_target("/w//.rhei/run.lock.9", lock));
    assert!(!displaced_run_lock_target("/other/run.lock.1", lock));
    assert!(!displaced_run_lock_target("/w/.rhei/notes.txt", lock));
}

fn owner(id: &str, ticks: u64) -> RunLockOwner {
    RunLockOwner { version: 1, id: id.to_string(), pid: 4242, workspace: "/w".to_string(), process_start_ticks: ticks }
}

#[test]
fn only_a_matching_record_proves_ownership() {
    let lock = "/w/.rhei/run.lock";
    let owned = vec![
        FdFinding::Skip,
        FdFinding::Locked { target: lock.to_string(), record: RecordRead::Owner(owner("r1", 77)) },
    ];
    assert_eq!(lock_owner_verdict("r1", 4242, "/w/", lock, 77, &owned), ProcessProbe::OwnsLock);
    let stale = vec![FdFinding::Locked { target: lock.to_string(), record: RecordRead::Owner(owner("r1", 76)) }];
    assert_eq!(lock_owner_verdict("r1", 4242, "/w", lock, 77, &stale), ProcessProbe::DoesNotOwnLock);
    assert_eq!(lock_owner_verdict("r1", 4242, "/w", lock, 77, &Vec::new()), ProcessProbe::DoesNotOwnLock);
}

#[test]
fn unreadable_evidence_makes_the_probe_unknown() {
    let lock = "/w/.rhei/run.lock";
    let findings = vec![
        FdFinding::Inconclusive("fd 3 vanished".to_string()),
        FdFinding::Locked { target: "/w/.rhei/run.lock.5".to_string(), record: RecordRead::Unparsable },
    ];
    assert_eq!(
        lock_owner_verdict("r1", 4242, "/w", lock, 77, &findings),
        ProcessProbe::Unknown("/w/.rhei/run.lock.5 is locked by pid 4242 but carries no verifiable run ownership".to_string())
    );
    let too_large = vec![FdFinding::Locked { target: lock.to_string(), record: RecordRead::TooLarge }];
    assert_eq!(
        lock_owner_verdict("r1", 4242, "/w", lock, 77, &too_large),
        ProcessProbe::Unknown("/w/.rhei/run.lock is locked by pid 4242 but its ownership record is too large".to_string())
    );
    let unrelated = vec![FdFinding::Locked { target: "/tmp/other".to_string(), record: RecordRead::Unparsable }];
    assert_eq!(lock_owner_verdict("r1", 4242, "/w", lock, 77, &unrelated), ProcessProbe::DoesNotOwnLock);
    let then_owned = vec![
        FdFinding::Inconclusive("x".to_string()),
        FdFinding::Locked { target: lock.to_string(), record: RecordRead::Owner(owner("r1", 77)) },
    ];
    assert_eq!(lock_owner_verdict("r1", 4242, "/w", lock, 77, &then_owned), ProcessProbe::OwnsLock);
}

#[test]
fn a_path_is_rooted_only_when_it_starts_at_a_root() {
    assert!(rhei_cli::paths::path_is_rooted("/etc/passwd"));
    assert!(!rhei_cli::paths::path_is_rooted("out/result.md"));
    assert!(!rhei_cli::paths::path_is_rooted("../x"));
    assert!(!rhei_cli::paths::path_is_rooted(""));
}
