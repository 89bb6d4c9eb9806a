use blooming_light::log_record::LogEntry;
use blooming_light::report::{ErrorReport, ServiceKind, TaskOutcome};
use blooming_light::supervisor::{Action, Event, Phase, Slot, Supervisor};

use ServiceKind::{Server, WsClient};

fn report(causes: &[&str]) -> ErrorReport {
    ErrorReport { causes: causes.iter().map(|c| c.to_string()).collect() }
}

fn entry(msg: &str, is_delete: bool, ts: i64) -> LogEntry {
    LogEntry { msg: msg.to_string(), is_delete, ts }
}

fn started() -> Supervisor {
    let (s, actions) = Supervisor::start();
    assert_eq!(actions, vec![Action::Spawn(Server), Action::Spawn(WsClient)]);
    s
}

#[test]
fn start_spawns_both_services() {
    let s = started();
    assert_eq!(s.server, Slot::Running);
    assert_eq!(s.ws_client, Slot::Running);
    assert_eq!(s.phase, Phase::Serving);
}

#[test]
fn restart_joins_before_spawning() {
    let mut s = started();
    assert_eq!(s.step(Event::Restart(Server)), vec![Action::Cancel(Server), Action::Join(Server)]);
    assert_eq!(s.server, Slot::Retiring);
    // A second command while the first is under way adds nothing.
    assert_eq!(s.step(Event::Restart(Server)), vec![]);
    let a = s.step(Event::TaskEnded(Server, TaskOutcome::Exited));
    assert_eq!(
        a,
        vec![
            Action::Discard(report(&["server exited"])),
            Action::Spawn(Server),
            Action::Acknowledge(Server),
        ]
    );
    assert_eq!(s.server, Slot::Running);
    assert_eq!(s.ws_client, Slot::Running);
}

#[test]
fn panicked_task_reported_once_then_restarted() {
    let mut s = started();
    let a = s.step(Event::TaskEnded(
        WsClient,
        TaskOutcome::JoinFailed(report(&["task 3 panicked"])),
    ));
    assert_eq!(
        a,
        vec![Action::Report(
            WsClient,
            report(&["failed to join ws_client task", "task 3 panicked"])
        )]
    );
    assert_eq!(s.ws_client, Slot::Vacant);
    // Not restarted on its own: other events leave the slot vacant.
    assert_eq!(s.step(Event::Log(entry("m", false, 0))).len(), 1);
    assert_eq!(s.ws_client, Slot::Vacant);
    let a = s.step(Event::Restart(WsClient));
    assert_eq!(a, vec![Action::Spawn(WsClient), Action::Acknowledge(WsClient)]);
    assert_eq!(s.ws_client, Slot::Running);
    assert_eq!(s.server, Slot::Running);
}

#[test]
fn failure_of_one_service_leaves_the_other() {
    let mut s = started();
    let a = s.step(Event::TaskEnded(Server, TaskOutcome::Failed(report(&["bind failed"]))));
    assert_eq!(
        a,
        vec![Action::Report(Server, report(&["server task exited with an error", "bind failed"]))]
    );
    assert_eq!(s.ws_client, Slot::Running);
    assert_eq!(s.phase, Phase::Serving);
}

#[test]
fn log_entries_appended_in_order() {
    let mut s = started();
    let mut lines = Vec::new();
    for (i, m) in ["one", "two", "three"].iter().enumerate() {
        let e = entry(m, i == 1, i as i64);
        let expected = e.to_line();
        let a = s.step(Event::Log(e));
        assert_eq!(a, vec![Action::Append(expected.clone())]);
        lines.push(expected);
    }
    assert!(lines[0].contains("\"one\""));
    assert!(lines[1].contains("\"two\",\"is_delete\":true"));
    assert!(lines[2].contains("\"three\""));
}

#[test]
fn stop_cancels_joins_and_finishes() {
    let mut s = started();
    let a = s.step(Event::StopRequested);
    assert_eq!(
        a,
        vec![
            Action::Cancel(Server),
            Action::Cancel(WsClient),
            Action::Join(Server),
            Action::Join(WsClient),
        ]
    );
    assert_eq!(s.phase, Phase::Draining);
    // Nothing is spawned while draining.
    assert_eq!(s.step(Event::Restart(Server)), vec![]);
    let a = s.step(Event::TaskEnded(Server, TaskOutcome::Exited));
    assert_eq!(a, vec![Action::Discard(report(&["server exited"]))]);
    assert_eq!(s.phase, Phase::Draining);
    let a = s.step(Event::TaskEnded(WsClient, TaskOutcome::Exited));
    assert_eq!(a, vec![Action::Discard(report(&["ws_client exited"]))]);
    // The log channel is still open: the loop waits for it.
    assert_eq!(s.phase, Phase::Draining);
    assert_eq!(s.step(Event::LogsClosed), vec![Action::Finish]);
    assert_eq!(s.phase, Phase::Stopped);
    assert_eq!(s.step(Event::StopRequested), vec![]);
}

#[test]
fn records_queued_at_stop_are_written() {
    let mut s = started();
    s.step(Event::StopRequested);
    let late = entry("late", false, 3);
    let line = late.to_line();
    assert_eq!(s.step(Event::Log(late)), vec![Action::Append(line)]);
    s.step(Event::TaskEnded(Server, TaskOutcome::Exited));
    s.step(Event::TaskEnded(WsClient, TaskOutcome::Exited));
    let last = entry("last", true, 4);
    let line = last.to_line();
    assert_eq!(s.step(Event::Log(last)), vec![Action::Append(line)]);
    assert_eq!(s.phase, Phase::Draining);
    assert_eq!(s.step(Event::LogsClosed), vec![Action::Finish]);
}

#[test]
fn stop_with_no_live_task_waits_for_logs() {
    let mut s = started();
    s.step(Event::TaskEnded(Server, TaskOutcome::Exited));
    s.step(Event::TaskEnded(WsClient, TaskOutcome::Exited));
    let a = s.step(Event::CommandsClosed);
    assert_eq!(a, vec![Action::Cancel(Server), Action::Cancel(WsClient)]);
    assert_eq!(s.phase, Phase::Draining);
    assert_eq!(s.step(Event::LogsClosed), vec![Action::Finish]);
    assert_eq!(s.phase, Phase::Stopped);
}

#[test]
fn closed_log_channel_with_no_live_task_finishes_at_once() {
    let mut s = started();
    s.step(Event::TaskEnded(Server, TaskOutcome::Exited));
    s.step(Event::TaskEnded(WsClient, TaskOutcome::Exited));
    let a = s.step(Event::LogsClosed);
    assert_eq!(a, vec![Action::Cancel(Server), Action::Cancel(WsClient), Action::Finish]);
    assert_eq!(s.phase, Phase::Stopped);
    assert!(!s.logs_open);
}

#[test]
fn stop_during_restart_waits_for_retiring_task() {
    let mut s = started();
    s.step(Event::Restart(Server));
    let a = s.step(Event::LogsClosed);
    assert_eq!(a, vec![Action::Cancel(Server), Action::Cancel(WsClient), Action::Join(WsClient)]);
    let a = s.step(Event::TaskEnded(WsClient, TaskOutcome::Exited));
    assert_eq!(a, vec![Action::Discard(report(&["ws_client exited"]))]);
    let a = s.step(Event::TaskEnded(Server, TaskOutcome::Exited));
    assert_eq!(a, vec![Action::Discard(report(&["server exited"])), Action::Finish]);
    assert_eq!(s.server, Slot::Vacant);
}
