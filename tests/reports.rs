use blooming_light::report::{describe_outcome, ErrorReport, PendingReports, ServiceKind, TaskOutcome};

fn report(causes: &[&str]) -> ErrorReport {
    ErrorReport { causes: causes.iter().map(|c| c.to_string()).collect() }
}

#[test]
fn clean_exit_is_reported() {
    let r = describe_outcome(ServiceKind::Server, TaskOutcome::Exited);
    assert_eq!(r, report(&["server exited"]));
}

#[test]
fn task_error_gets_context() {
    let inner = report(&["failed to listen 127.0.0.1:8081", "address in use"]);
    let r = describe_outcome(ServiceKind::WsClient, TaskOutcome::Failed(inner));
    assert_eq!(
        r,
        report(&[
            "ws_client task exited with an error",
            "failed to listen 127.0.0.1:8081",
            "address in use",
        ])
    );
}

#[test]
fn panic_is_a_join_failure() {
    let inner = report(&["task 7 panicked with message \"boom\""]);
    let r = describe_outcome(ServiceKind::Server, TaskOutcome::JoinFailed(inner));
    assert_eq!(
        r,
        report(&["failed to join server task", "task 7 panicked with message \"boom\""])
    );
    assert_eq!(r.headline().map(|h| h.as_str()), Some("failed to join server task"));
}

#[test]
fn context_goes_in_front() {
    let r = ErrorReport::new("b".to_string()).context("a".to_string());
    assert_eq!(r, report(&["a", "b"]));
    assert_eq!(report(&[]).headline(), None);
}

#[test]
fn shown_report_is_kept_until_cleared() {
    let mut p = PendingReports::new();
    assert!(p.wants(ServiceKind::Server));
    p.offer(ServiceKind::Server, Some(report(&["first"])));
    assert!(!p.wants(ServiceKind::Server));
    assert!(p.wants(ServiceKind::WsClient));
    p.offer(ServiceKind::Server, Some(report(&["second"])));
    assert_eq!(p.server, Some(report(&["first"])));
    p.offer(ServiceKind::Server, None);
    assert_eq!(p.server, Some(report(&["first"])));
    p.clear(ServiceKind::Server);
    assert!(p.wants(ServiceKind::Server));
    assert_eq!(p.server, None);
    p.offer(ServiceKind::WsClient, Some(report(&["client"])));
    assert_eq!(p.ws_client, Some(report(&["client"])));
    assert_eq!(p.server, None);
}
