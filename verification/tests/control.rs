//! The registry, the correlation tracker, the spawner's decisions and the
//! upgrade phases on concrete runs.

use ctlplane::channel::Channel;
use ctlplane::data::{ConfigMessageStatus, ProxyType, RunState};
use ctlplane::registry::{Registry, Worker};
use ctlplane::router::{request_expired, select_workers, RequestTracker, REQUEST_DEADLINE_MS};
use ctlplane::spawn::{upgrade_args, upgrade_step, worker_args, worker_ids, UpgradePhase};

fn worker(tag: &str, id: u32, pid: i32) -> Worker {
    Worker::new(
        String::from(tag),
        id,
        pid,
        ProxyType::HTTP,
        String::from("127.0.0.1"),
        8080,
        Channel::new(10000, 20000, false),
    )
}

#[test]
fn registry_lists_and_counts() {
    let mut reg = Registry::new();
    reg.insert(worker("tag-a", 1, 101));
    reg.insert(worker("tag-a", 0, 102));
    reg.insert(worker("tag-b", 0, 103));
    let infos = reg.list();
    assert_eq!(infos.len(), 3);
    assert_eq!(infos[0].id, 1);
    assert_eq!(infos[0].tag, "tag-a");
    assert_eq!(infos[0].run_state, RunState::Running);
    assert_eq!(reg.running_count("tag-a"), 2);
    assert_eq!(reg.running_count("tag-b"), 1);
}

#[test]
fn registry_converges_after_worker_loss() {
    let mut reg = Registry::new();
    reg.insert(worker("tag-a", 1, 101));
    reg.insert(worker("tag-a", 0, 102));
    reg.mark_stopped(102);
    assert_eq!(reg.running_count("tag-a"), 1);
    let missing = reg.deficit("tag-a", 2);
    assert_eq!(missing, 1);
    let id = reg.next_id("tag-a");
    reg.insert(worker("tag-a", id, 104));
    assert_eq!(reg.running_count("tag-a"), 2);
    assert_eq!(reg.deficit("tag-a", 2), 0);
}

#[test]
fn one_terminal_answer_per_request() {
    let mut t = RequestTracker::new();
    t.open_request(String::from("X"), 7, vec![0, 1]);
    assert!(t.is_pending("X"));
    assert_eq!(t.handle_reply("X", 0, false), None);
    assert_eq!(t.handle_reply("X", 1, false), Some((7, ConfigMessageStatus::Okay)));
    assert!(!t.is_pending("X"));
    assert_eq!(t.handle_reply("X", 1, false), None);
}

#[test]
fn an_error_reply_turns_the_answer_to_error() {
    let mut t = RequestTracker::new();
    t.open_request(String::from("X"), 3, vec![0, 1]);
    assert_eq!(t.handle_reply("X", 0, true), None);
    assert_eq!(t.handle_reply("X", 1, false), Some((3, ConfigMessageStatus::Error)));
}

#[test]
fn selection_filters_by_tag_and_state() {
    let mut reg = Registry::new();
    reg.insert(worker("tag-a", 0, 101));
    reg.insert(worker("tag-a", 1, 102));
    reg.insert(worker("tag-b", 0, 103));
    reg.mark_stopped(102);
    let infos = reg.list();
    let picked = select_workers(&infos, &Some(String::from("tag-a")), &None);
    assert_eq!(picked, vec![0]);
    let all = select_workers(&infos, &None, &None);
    assert_eq!(all, vec![0, 0]);
}

#[test]
fn worker_ids_run_then_zero() {
    assert_eq!(worker_ids(3), vec![1, 2, 0]);
    assert_eq!(worker_ids(1), vec![0]);
}

#[test]
fn child_argument_vectors() {
    let args = worker_args(5, "tag-a", 2, 10000);
    let expect = vec![
        "worker",
        "--fd",
        "5",
        "--tag",
        "tag-a",
        "--id",
        "2",
        "--channel-buffer-size",
        "10000",
    ];
    assert_eq!(args, expect);
    assert_eq!(upgrade_args(9), vec!["upgrade", "--fd", "9"]);
}

#[test]
fn upgrade_phases_end_once() {
    let p = UpgradePhase::Idle;
    let p = upgrade_step(p, true);
    assert_eq!(p, UpgradePhase::Draining);
    let p = upgrade_step(p, true);
    assert_eq!(p, UpgradePhase::Handoff);
    let p = upgrade_step(p, true);
    assert_eq!(p, UpgradePhase::Okay);
    assert_eq!(upgrade_step(p, false), UpgradePhase::Okay);
    assert_eq!(upgrade_step(UpgradePhase::Draining, false), UpgradePhase::Failed);
    assert_eq!(upgrade_step(UpgradePhase::Failed, true), UpgradePhase::Failed);
}

#[test]
fn deadline_and_expiry_release_the_client() {
    assert!(!request_expired(100, 50));
    assert!(request_expired(50 + REQUEST_DEADLINE_MS, 50));
    assert!(!request_expired(10, 50));
    let mut t = RequestTracker::new();
    t.open_request(String::from("X"), 9, vec![0]);
    assert_eq!(t.expire_request("X"), Some(9));
    assert!(!t.is_pending("X"));
    assert_eq!(t.expire_request("X"), None);
    assert_eq!(t.handle_reply("X", 0, false), None);
}

#[test]
fn reply_from_a_worker_not_outstanding_changes_nothing() {
    let mut t = RequestTracker::new();
    t.open_request(String::from("X"), 1, vec![4]);
    assert_eq!(t.handle_reply("X", 7, false), None);
    assert!(t.is_pending("X"));
    assert_eq!(t.handle_reply("X", 4, false), Some((1, ConfigMessageStatus::Okay)));
}
