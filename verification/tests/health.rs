//! Health and shutdown of stores.

use crowkv::cluster::group::PxGroup;
use crowkv::cluster::health::{HealthReport, HealthStatus};
use crowkv::cluster::kv_server::{server_shut_down, BindOutcome, JoinOutcome};
use crowkv::cluster::local_replica::{PxLocalReplica, PxLocalReplicaRole};
use crowkv::cluster::px_kv_store::PxKvStore;
use crowkv::cluster::remote_replica::PxRemoteReplica;
use crowkv::cluster::shutdown::ShutdownReport;
use crowkv::cluster::status::StatusLevel;

fn make_store_single_replica() -> PxKvStore {
    let mut store = PxKvStore::new(1, "127.0.0.1:0".to_string());
    store.add_group(PxGroup::new(1, PxLocalReplica::new(1, PxLocalReplicaRole::Follower)));
    store
}

fn started() -> PxKvStore {
    let mut store = make_store_single_replica();
    assert!(store.start(BindOutcome::Bound("127.0.0.1:4000".to_string())).is_ok());
    store
}

#[test]
fn health_unhealthy_before_start() {
    let mut store = make_store_single_replica();
    let report = store.health();
    assert_eq!(report.status, HealthStatus::Unhealthy, "{report:?}");
    assert!(
        report.messages.iter().any(|m| m.contains("not running")),
        "expected 'not running' message, got: {:?}",
        report.messages
    );
}

#[test]
fn health_ok_after_start_single_replica() {
    let mut store = started();
    let report = store.health();
    assert_eq!(report.status, HealthStatus::Healthy, "{report:?}");
}

#[test]
fn health_unhealthy_after_shutdown() {
    let mut store = started();
    let _ = store.shutdown(Ok(()));
    let report = store.health();
    assert_eq!(report.status, HealthStatus::Unhealthy);
    assert!(
        report.messages.iter().any(|m| m.contains("shut down")),
        "expected 'shut down' message, got: {:?}",
        report.messages
    );
}

#[test]
fn health_status_worst_of_combinator() {
    let (ok, degraded, unhealthy) =
        (HealthStatus::Healthy, HealthStatus::Degraded, HealthStatus::Unhealthy);
    assert_eq!(HealthStatus::worst(ok, ok), ok);
    assert_eq!(HealthStatus::worst(ok, degraded), degraded);
    assert_eq!(HealthStatus::worst(degraded, ok), degraded);
    assert_eq!(HealthStatus::worst(ok, unhealthy), unhealthy);
    assert_eq!(HealthStatus::worst(degraded, unhealthy), unhealthy);
    assert_eq!(HealthStatus::worst(unhealthy, unhealthy), unhealthy);
}

#[test]
fn names_of_levels() {
    assert_eq!(HealthStatus::Healthy.as_str(), "ok");
    assert_eq!(HealthStatus::Degraded.as_str(), "degraded");
    assert_eq!(HealthStatus::Unhealthy.as_str(), "unhealthy");
    assert!(HealthStatus::Unhealthy.is_unhealthy() && !HealthStatus::Degraded.is_unhealthy());
    assert_eq!(StatusLevel::worst(StatusLevel::Healthy, StatusLevel::Degraded), StatusLevel::Degraded);
}

#[test]
fn child_reports_are_merged_with_their_prefix() {
    let mut report = HealthReport::ok();
    report.note("fine so far".to_string());
    assert_eq!(report.status, HealthStatus::Healthy);
    report.merge_child("group 3", HealthReport::degraded("slow".to_string()));
    assert_eq!(report.status, HealthStatus::Degraded);
    assert_eq!(report.messages, vec!["fine so far".to_string(), "group 3: slow".to_string()]);
    report.merge_child("x", HealthReport::unhealthy("down".to_string()));
    assert_eq!(report.status, HealthStatus::Unhealthy);
}

#[test]
fn unreached_member_degrades_its_group() {
    let mut group = PxGroup::new(1, PxLocalReplica::new(1, PxLocalReplicaRole::Leader));
    group.add_remote_replica(PxRemoteReplica::new(2, "h:2".to_string()));
    let status = group.status();
    assert_ne!(status.status, StatusLevel::Healthy);
    assert_eq!(status.remotes.len(), 1);
    assert_eq!(status.remotes[0].status, StatusLevel::Degraded);
}

#[test]
fn shutdown_happens_once() {
    let mut store = started();
    assert!(!store.start_needed());
    let todo = store.shutdown_server();
    assert!(todo.send_stop && todo.wait);
    let again = store.shutdown_server();
    assert!(!again.send_stop && !again.wait);
    let report = store.shutdown(Err("late".to_string()));
    assert!(!report.is_clean());
    assert!(store.shutdown(Ok(())).is_clean(), "the second shutdown does nothing");
}

#[test]
fn ends_of_the_server_task() {
    assert!(server_shut_down(JoinOutcome::Joined).is_ok());
    assert!(server_shut_down(JoinOutcome::Cancelled).is_ok());
    assert!(server_shut_down(JoinOutcome::Failed("boom".to_string())).unwrap_err().contains("boom"));
    assert!(server_shut_down(JoinOutcome::TimedOut("5s".to_string())).unwrap_err().contains("5s"));
}

#[test]
fn reports_of_a_shutdown_add_up() {
    let mut report = ShutdownReport::new();
    assert!(report.is_clean());
    let mut other = ShutdownReport::new();
    other.push_error("a".to_string());
    report.merge(other);
    report.push_error("b".to_string());
    assert!(!report.is_clean());
    assert_eq!(report.errors, vec!["a".to_string(), "b".to_string()]);
}

#[test]
fn address_is_known_once_the_server_runs() {
    let mut store = make_store_single_replica();
    assert_eq!(store.listen_addr(), None);
    assert!(store.start(BindOutcome::Refused("taken".to_string())).is_err());
    assert_eq!(store.listen_addr(), None);
    assert!(store.start(BindOutcome::Bound("127.0.0.1:9".to_string())).is_ok());
    assert_eq!(store.listen_addr(), Some("127.0.0.1:9"));
    let group = store.get_group(1).unwrap();
    assert_eq!(group.local_replica().own_endpoint.as_deref(), Some("127.0.0.1:9"));
    store.put_group(group);
    assert!(store.stop());
    assert!(!store.stop(), "the task is told once");
    assert!(store.join());
}
