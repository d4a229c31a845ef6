use edr_agent::policy::RawPolicy;
use edr_agent::schedule::{
    collect_user_sessions, mode_is_forensic, on_collect_result, CollectorError, CollectorKind,
    CollectorSchedule, CollectorSupervisor,
};
use edr_agent::telemetry::Payload;

#[test]
fn schedule_fires_at_most_once_per_interval() {
    let mut s = CollectorSchedule::new(CollectorKind::Process, 5, 100);
    assert!(s.poll(100));
    assert!(!s.poll(101));
    assert!(!s.poll(104));
    assert!(s.poll(105));
    assert!(!s.poll(109));
    assert!(s.poll(112));
    // after firing at 112 the next due time is 117
    assert_eq!(s.next_due, 117);
}

#[test]
fn schedule_fires_within_any_full_window() {
    let mut s = CollectorSchedule::new(CollectorKind::Network, 20, 1000);
    assert!(s.poll(1000));
    // a check anywhere at or past 1020 fires
    assert!(s.poll(1035));
    assert_eq!(s.next_due, 1055);
}

#[test]
fn forensic_mode_starts_all_collectors() {
    let p = RawPolicy {
        collection_interval: 5,
        endpoint_role: "server".to_string(),
        mode: "forensic".to_string(),
    };
    assert!(mode_is_forensic(&p));
    let sup = CollectorSupervisor::new(&p, 50);
    assert_eq!(sup.timer_count(), 3);
    assert!(sup.file_watch);
    assert_eq!(sup.schedules[0].kind, CollectorKind::Process);
    assert_eq!(sup.schedules[0].interval, 5);
    assert_eq!(sup.schedules[1].kind, CollectorKind::Network);
    assert_eq!(sup.schedules[1].interval, 20);
    assert_eq!(sup.schedules[2].kind, CollectorKind::UserSession);
    assert_eq!(sup.schedules[2].interval, 30);
}

#[test]
fn minimal_mode_starts_only_process_loop() {
    let p = RawPolicy {
        collection_interval: 9,
        endpoint_role: "workstation".to_string(),
        mode: "minimal".to_string(),
    };
    assert!(!mode_is_forensic(&p));
    let sup = CollectorSupervisor::new(&p, 50);
    assert_eq!(sup.timer_count(), 1);
    assert!(!sup.file_watch);
    assert_eq!(sup.schedules[0].interval, 9);
}

#[test]
fn collector_failure_is_isolated() {
    let failed: Result<Payload, CollectorError> = Err(CollectorError::Enumeration);
    assert!(on_collect_result(failed).is_none());
    let ok: Result<Payload, CollectorError> = Ok(Payload::Files(vec![]));
    assert!(on_collect_result(ok).is_some());
}

#[test]
fn user_sessions_are_not_fabricated() {
    match collect_user_sessions() {
        Err(CollectorError::NotImplemented) => {}
        _ => panic!("placeholder collector must report NotImplemented"),
    }
}
