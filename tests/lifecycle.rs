use enough::block::{Action, BlockError, BlockManager, Snapshot, Status, UnitRef};
use enough::profile::Profile;

const HOSTS: &str = "127.0.0.1 localhost\n";

fn unit(id: &str) -> UnitRef {
    UnitRef { id: id.to_string(), home: "/home/u".to_string() }
}

fn empty_snapshot() -> Snapshot {
    Snapshot { hosts: HOSTS.to_string(), state_dir: false, record: None, unit: None }
}

fn lock_in() -> Profile {
    Profile {
        duration_secs: 125,
        websites: vec!["https://www.youtube.com".to_string(), "https://reddit.com".to_string()],
        apps: vec![],
    }
}

fn denial_lines(hosts: &str) -> usize {
    hosts.lines().filter(|l| l.starts_with("0.0.0.0 ") || l.starts_with("::1 ")).count()
}

#[test]
fn lock_in_scenario() {
    let manager = BlockManager::new();
    let mut snap = empty_snapshot();
    let acts = manager.block_items(&mut snap, "lock-in", &lock_in(), 125, 1_000, unit("u1")).unwrap();
    assert_eq!(denial_lines(&snap.hosts), 8);
    for name in ["youtube.com", "www.youtube.com", "reddit.com", "www.reddit.com"] {
        assert!(snap.hosts.contains(&format!("0.0.0.0 {}\n", name)));
        assert!(snap.hosts.contains(&format!("::1 {}\n", name)));
    }
    assert!(matches!(acts.last(), Some(Action::SaveRecord)));
    let status = manager.get_status(&snap);
    assert!(status.is_blocked());
    assert_eq!(status.remaining_secs(1_000), 125);
    match &status {
        Status::Blocked { profile_name, unblock_time_secs } => {
            assert_eq!(profile_name, "lock-in");
            assert_eq!(*unblock_time_secs, 1_125);
        }
        Status::Unblocked => panic!("expected a block"),
    }
    let (_, outcome) = manager.unblock_all(&mut snap);
    assert_eq!(outcome, Ok(()));
    assert_eq!(snap.hosts, HOSTS);
    assert!(!snap.hosts.contains("# ENOUGH BLOCK"));
    assert_eq!(denial_lines(&snap.hosts), 0);
    assert!(snap.record.is_none());
    assert!(!manager.get_status(&snap).is_blocked());
}

#[test]
fn block_plan_clears_stale_block_before_writing_new_one() {
    let manager = BlockManager::new();
    let mut snap = empty_snapshot();
    let acts = manager.block_items(&mut snap, "a", &lock_in(), 60, 0, unit("u1")).unwrap();
    assert_eq!(acts.len(), 8);
    assert!(matches!(&acts[0], Action::WriteHosts(t) if t == HOSTS));
    assert!(matches!(acts[1], Action::FlushNameCache));
    assert!(matches!(acts[2], Action::ClearStateDir));
    assert!(matches!(&acts[3], Action::WriteHosts(t) if *t == snap.hosts));
    assert!(matches!(acts[4], Action::FlushNameCache));
    assert!(matches!(acts[5], Action::CreateStateDir));
    assert!(matches!(acts[6], Action::InstallUnit));
    assert!(matches!(acts[7], Action::SaveRecord));
    let first_hosts = snap.hosts.clone();
    let acts = manager.block_items(&mut snap, "b", &lock_in(), 60, 0, unit("u2")).unwrap();
    assert_eq!(acts.len(), 9);
    assert!(matches!(&acts[0], Action::WriteHosts(t) if t == HOSTS));
    match &acts[2] {
        Action::RemoveUnit(u) => assert_eq!(u.id, "u1"),
        other => panic!("unexpected step {:?}", other),
    }
    assert!(matches!(acts[3], Action::ClearStateDir));
    assert_eq!(snap.hosts, first_hosts);
}

#[test]
fn block_plan_without_websites_only_clears() {
    let manager = BlockManager::new();
    let mut snap = empty_snapshot();
    let p = Profile { duration_secs: 10, websites: vec![], apps: vec![] };
    let acts = manager.block_items(&mut snap, "quiet", &p, 10, 0, unit("u1")).unwrap();
    assert_eq!(acts.len(), 6);
    assert!(matches!(acts[3], Action::CreateStateDir));
}

#[test]
fn second_block_supersedes_first() {
    let manager = BlockManager::new();
    let mut snap = empty_snapshot();
    manager.block_items(&mut snap, "a", &lock_in(), 60, 100, unit("u1")).unwrap();
    let github_only = Profile { duration_secs: 30, websites: vec!["https://github.com".to_string()], apps: vec!["/x".to_string()] };
    manager.block_items(&mut snap, "b", &github_only, 30, 200, unit("u2")).unwrap();
    let r = snap.record.as_ref().unwrap();
    assert_eq!(r.profile_name, "b");
    assert_eq!(r.profile.websites, vec!["https://github.com".to_string()]);
    assert_eq!(r.profile.apps, vec!["/x".to_string()]);
    assert_eq!(r.unblock_time_secs, 230);
    assert_eq!(snap.unit.as_ref().unwrap().id, "u2");
    assert!(!snap.hosts.contains("reddit"));
    assert_eq!(snap.hosts.matches("# ENOUGH BLOCK START").count(), 1);
}

#[test]
fn block_without_websites_only_clears_hosts() {
    let manager = BlockManager::new();
    let mut snap = empty_snapshot();
    snap.hosts = BlockManager::block_websites(HOSTS, &vec!["x.com".to_string()]);
    assert!(snap.hosts.contains("0.0.0.0 x.com\n"));
    let p = Profile { duration_secs: 10, websites: vec![], apps: vec![] };
    manager.block_items(&mut snap, "quiet", &p, 10, 0, unit("u1")).unwrap();
    assert_eq!(snap.hosts, HOSTS);
    assert!(manager.get_status(&snap).is_blocked());
}

#[test]
fn unblock_clears_everything() {
    let manager = BlockManager::new();
    let mut snap = empty_snapshot();
    manager.block_items(&mut snap, "a", &lock_in(), 60, 0, unit("u1")).unwrap();
    let (acts, outcome) = manager.unblock_all(&mut snap);
    assert_eq!(outcome, Ok(()));
    assert_eq!(acts.len(), 4);
    assert!(matches!(acts[0], Action::WriteHosts(_)));
    assert!(matches!(&acts[2], Action::RemoveUnit(u) if u.id == "u1"));
    assert!(matches!(acts[3], Action::ClearStateDir));
    assert!(snap.record.is_none());
    assert!(snap.unit.is_none());
    assert!(!snap.state_dir);
    assert_eq!(snap.hosts, HOSTS);
}

#[test]
fn unblock_without_state_still_lifts_the_block() {
    let manager = BlockManager::new();
    let mut snap = empty_snapshot();
    manager.block_items(&mut snap, "a", &lock_in(), 60, 0, unit("u1")).unwrap();
    snap.state_dir = false;
    snap.record = None;
    let (acts, outcome) = manager.unblock_all(&mut snap);
    assert_eq!(outcome, Err(BlockError::MissingState));
    assert_eq!(acts.len(), 3);
    assert!(matches!(acts[0], Action::WriteHosts(_)));
    assert!(matches!(acts[1], Action::FlushNameCache));
    assert!(matches!(&acts[2], Action::RemoveUnit(u) if u.id == "u1"));
    assert_eq!(snap.hosts, HOSTS);
    assert!(snap.unit.is_none());
}

#[test]
fn unblock_with_nothing_recorded_reports_missing_state() {
    let manager = BlockManager::new();
    let mut snap = empty_snapshot();
    let (acts, outcome) = manager.unblock_all(&mut snap);
    assert_eq!(outcome, Err(BlockError::MissingState));
    assert_eq!(acts.len(), 2);
    assert_eq!(snap.hosts, HOSTS);
}

#[test]
fn unblock_time_overflow_fails() {
    let manager = BlockManager::new();
    let mut snap = empty_snapshot();
    let r = manager.block_items(&mut snap, "a", &lock_in(), u64::MAX, 1, unit("u1"));
    assert_eq!(r.unwrap_err(), BlockError::TimeOverflow);
    assert!(snap.record.is_none());
    assert_eq!(snap.hosts, HOSTS);
}

#[test]
fn status_stays_blocked_after_unblock_time() {
    let manager = BlockManager::new();
    let mut snap = empty_snapshot();
    manager.block_items(&mut snap, "a", &lock_in(), 60, 0, unit("u1")).unwrap();
    for _ in 0..3 {
        let s = manager.get_status(&snap);
        assert!(s.is_blocked());
        assert_eq!(s.remaining_secs(10_000), 0);
    }
    assert!(snap.record.is_some());
}

#[test]
fn status_of_empty_snapshot_is_unblocked() {
    let manager = BlockManager::new();
    let s = manager.get_status(&empty_snapshot());
    assert!(matches!(s, Status::Unblocked));
    assert_eq!(s.remaining_secs(0), 0);
}

#[test]
fn manager_uses_the_well_known_state_dir() {
    assert_eq!(BlockManager::new().state_dir, "/tmp/enough");
}

#[test]
fn profile_snapshot_copies_everything() {
    let p = lock_in();
    let q = p.snapshot();
    assert_eq!(q.duration_secs, 125);
    assert_eq!(q.websites, p.websites);
    assert_eq!(q.apps, p.apps);
}
