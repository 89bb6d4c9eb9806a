use blooming_light::stream::{admission_ceiling, Session, StreamAction, StreamEvent, MAX_SEND_FAILURES};

fn admitted() -> Session {
    let (s, a) = Session::open(true);
    assert_eq!(a, StreamAction::Wait);
    s
}

#[test]
fn two_peers_receive_broadcast_once() {
    let mut first_peer = admitted();
    let mut second_peer = admitted();
    let first_action = first_peer.step(StreamEvent::Broadcast("A".to_string()));
    let second_action = second_peer.step(StreamEvent::Broadcast("A".to_string()));
    assert_eq!(first_action, StreamAction::Send("A".to_string()));
    assert_eq!(second_action, StreamAction::Send("A".to_string()));
    assert_eq!(first_peer.step(StreamEvent::SendSucceeded), StreamAction::Wait);
    assert_eq!(second_peer.step(StreamEvent::SendSucceeded), StreamAction::Wait);
    assert_eq!(first_peer, Session::Streaming { failures: 0 });
}

#[test]
fn refused_connection_closed_at_once() {
    let (s, a) = Session::open(false);
    assert_eq!(a, StreamAction::CloseAndEnd);
    assert!(s.is_ended());
    let mut s = s;
    assert_eq!(s.step(StreamEvent::Broadcast("A".to_string())), StreamAction::End);
    // An admitted neighbour is untouched.
    let mut other = admitted();
    assert_eq!(other.step(StreamEvent::Broadcast("B".to_string())), StreamAction::Send("B".to_string()));
}

#[test]
fn lagging_subscriber_keeps_streaming() {
    let mut s = admitted();
    assert_eq!(s.step(StreamEvent::Lagged(1000)), StreamAction::Wait);
    assert!(!s.is_ended());
    assert_eq!(s.step(StreamEvent::Broadcast("next".to_string())), StreamAction::Send("next".to_string()));
}

#[test]
fn closed_after_repeated_send_failures() {
    let mut s = admitted();
    for i in 0..MAX_SEND_FAILURES {
        assert_eq!(s.step(StreamEvent::SendFailed), StreamAction::Wait);
        assert_eq!(s, Session::Streaming { failures: i + 1 });
    }
    assert_eq!(s.step(StreamEvent::SendFailed), StreamAction::CloseAndEnd);
    assert!(s.is_ended());
}

#[test]
fn success_resets_failure_count() {
    let mut s = admitted();
    for _ in 0..MAX_SEND_FAILURES {
        s.step(StreamEvent::SendFailed);
    }
    assert_eq!(s.step(StreamEvent::SendSucceeded), StreamAction::Wait);
    assert_eq!(s, Session::Streaming { failures: 0 });
    assert_eq!(s.step(StreamEvent::SendFailed), StreamAction::Wait);
}

#[test]
fn stop_closes_the_connection() {
    let mut s = admitted();
    assert_eq!(s.step(StreamEvent::Stop), StreamAction::CloseAndEnd);
    assert!(s.is_ended());
}

#[test]
fn peer_close_and_channel_close_end_without_closing() {
    let mut s = admitted();
    assert_eq!(s.step(StreamEvent::PeerFrame), StreamAction::Wait);
    assert_eq!(s.step(StreamEvent::PeerClosed), StreamAction::End);
    let mut t = admitted();
    assert_eq!(t.step(StreamEvent::BroadcastClosed), StreamAction::End);
    assert!(t.is_ended());
}

#[test]
fn ceiling_caps_at_u32() {
    assert_eq!(admission_ceiling(usize::MAX >> 3), u32::MAX);
    assert_eq!(admission_ceiling(10), 10);
    assert_eq!(admission_ceiling(0), 0);
}

#[test]
fn stop_mid_transfer_closes_then_ends() {
    let mut s = admitted();
    assert_eq!(s.step(StreamEvent::Broadcast("part".to_string())), StreamAction::Send("part".to_string()));
    assert_eq!(s.step(StreamEvent::SendFailed), StreamAction::Wait);
    assert_eq!(s.step(StreamEvent::Stop), StreamAction::CloseAndEnd);
    assert!(s.is_ended());
    assert_eq!(s.step(StreamEvent::SendSucceeded), StreamAction::End);
}
