//! The decisions of one streaming connection of the embedded server: what it
//! does when it is admitted or refused, when a broadcast message arrives,
//! when a send fails, when the peer or the service stops.
use vstd::prelude::*;

verus! {

/// A connection is closed after more than this many consecutive failed sends.
pub const MAX_SEND_FAILURES: u32 = 5;

/// The admission pool's ceiling: the semaphore's own maximum number of
/// permits, capped to what a `u32` counts.
pub fn admission_ceiling(max_permits: usize) -> (r: u32)
    ensures
        r as int == if max_permits as int <= u32::MAX as int {
            max_permits as int
        } else {
            u32::MAX as int
        },
{
    if max_permits as u64 <= u32::MAX as u64 {
        max_permits as u32
    } else {
        u32::MAX
    }
}

#[derive(Clone, Copy, Debug, PartialEq, Eq, Structural)]
pub enum Session {
    /// Forwarding broadcast messages; `failures` counts the sends that
    /// failed since the last one that succeeded.
    Streaming { failures: u32 },
    /// The loop is left and the admission slot released.
    Ended,
}

/// What the connection's loop receives.
#[derive(Debug)]
pub enum StreamEvent {
    /// The service is stopping.
    Stop,
    /// The peer closed the connection.
    PeerClosed,
    /// A frame from the peer; control frames are answered by the transport.
    PeerFrame,
    /// A message from the broadcast channel.
    Broadcast(String),
    /// The subscription fell behind and this many messages were skipped.
    Lagged(u64),
    /// The broadcast channel closed.
    BroadcastClosed,
    SendSucceeded,
    SendFailed,
}

/// What the connection's loop does next.
#[derive(Debug, PartialEq, Eq)]
pub enum StreamAction {
    /// Wait for the next event.
    Wait,
    /// Send the text to the peer, then report how the send went.
    Send(String),
    /// Close the connection, then leave the loop.
    CloseAndEnd,
    /// Leave the loop without closing.
    End,
}

pub ghost enum StreamEffect {
    Wait,
    Send(Seq<char>),
    CloseAndEnd,
    End,
}

impl View for StreamAction {
    type V = StreamEffect;

    open spec fn view(&self) -> StreamEffect {
        match self {
            StreamAction::Wait => StreamEffect::Wait,
            StreamAction::Send(m) => StreamEffect::Send(m@),
            StreamAction::CloseAndEnd => StreamEffect::CloseAndEnd,
            StreamAction::End => StreamEffect::End,
        }
    }
}

/// A streaming session with `failures` consecutive failed sends.
pub open spec fn streaming(failures: u32) -> Session {
    Session::Streaming { failures }
}

impl Session {
    pub open spec fn wf(self) -> bool {
        match self {
            Session::Streaming { failures } => failures <= MAX_SEND_FAILURES,
            Session::Ended => true,
        }
    }
}

pub open spec fn session_next(s: Session, e: StreamEvent) -> Session {
    match s {
        Session::Ended => Session::Ended,
        Session::Streaming { failures } => match e {
            StreamEvent::Stop => Session::Ended,
            StreamEvent::PeerClosed => Session::Ended,
            StreamEvent::BroadcastClosed => Session::Ended,
            StreamEvent::SendSucceeded => Session::Streaming { failures: 0 },
            StreamEvent::SendFailed => if failures < MAX_SEND_FAILURES {
                Session::Streaming { failures: (failures + 1) as u32 }
            } else {
                Session::Ended
            },
            _ => s,
        },
    }
}

pub open spec fn session_effect(s: Session, e: StreamEvent) -> StreamEffect {
    match s {
        Session::Ended => StreamEffect::End,
        Session::Streaming { failures } => match e {
            StreamEvent::Stop => StreamEffect::CloseAndEnd,
            StreamEvent::PeerClosed => StreamEffect::End,
            StreamEvent::BroadcastClosed => StreamEffect::End,
            StreamEvent::Broadcast(m) => StreamEffect::Send(m@),
            StreamEvent::SendFailed => if failures < MAX_SEND_FAILURES {
                StreamEffect::Wait
            } else {
                StreamEffect::CloseAndEnd
            },
            _ => StreamEffect::Wait,
        },
    }
}

impl Session {
    /// The session of a connection that asked for an admission slot:
    /// admitted, it streams from a clean record; refused (the pool is
    /// exhausted or closing), it is closed at once.
    pub fn open(admitted: bool) -> (r: (Session, StreamAction))
        ensures
            r.0.wf(),
            admitted ==> r.0 == streaming(0) && r.1@ == StreamEffect::Wait,
            !admitted ==> r.0 == Session::Ended && r.1@ == StreamEffect::CloseAndEnd,
    {
        if admitted {
            (Session::Streaming { failures: 0 }, StreamAction::Wait)
        } else {
            (Session::Ended, StreamAction::CloseAndEnd)
        }
    }

    /// Takes one event of the connection's loop.
    pub fn step(&mut self, e: StreamEvent) -> (r: StreamAction)
        ensures
            *final(self) == session_next(*old(self), e),
            r@ == session_effect(*old(self), e),
            old(self).wf() ==> final(self).wf(),
    {
        match *self {
            Session::Ended => StreamAction::End,
            Session::Streaming { failures } => match e {
                StreamEvent::Stop => {
                    *self = Session::Ended;
                    StreamAction::CloseAndEnd
                },
                StreamEvent::PeerClosed => {
                    *self = Session::Ended;
                    StreamAction::End
                },
                StreamEvent::BroadcastClosed => {
                    *self = Session::Ended;
                    StreamAction::End
                },
                StreamEvent::Broadcast(m) => StreamAction::Send(m),
                StreamEvent::SendSucceeded => {
                    *self = Session::Streaming { failures: 0 };
                    StreamAction::Wait
                },
                StreamEvent::SendFailed => {
                    if failures < MAX_SEND_FAILURES {
                        *self = Session::Streaming { failures: failures + 1 };
                        StreamAction::Wait
                    } else {
                        *self = Session::Ended;
                        StreamAction::CloseAndEnd
                    }
                },
                StreamEvent::PeerFrame => StreamAction::Wait,
                StreamEvent::Lagged(_) => StreamAction::Wait,
            },
        }
    }

    pub fn is_ended(&self) -> (r: bool)
        ensures
            r == (*self == Session::Ended),
    {
        match self {
            Session::Ended => true,
            _ => false,
        }
    }
}

/// The session after each event of `events` in turn.
pub open spec fn session_run(s: Session, events: Seq<StreamEvent>) -> Session
    decreases events.len(),
{
    if events.len() == 0 {
        s
    } else {
        session_run(session_next(s, events[0]), events.subrange(1, events.len() as int))
    }
}

/// A subscriber that falls behind is told how many messages it missed and
/// keeps streaming: it is neither disconnected nor does its state change,
/// and the next broadcast message is sent to it as usual.
pub proof fn lemma_lag_keeps_streaming(s: Session, skipped: u64, m: String)
    requires
        (s is Streaming),
    ensures
        session_next(s, StreamEvent::Lagged(skipped)) == s,
        session_effect(s, StreamEvent::Lagged(skipped)) == StreamEffect::Wait,
        session_effect(session_next(s, StreamEvent::Lagged(skipped)), StreamEvent::Broadcast(m))
            == StreamEffect::Send(m@),
{
}

/// A connection refused by the admission pool is closed at once and takes
/// no further part: whatever events follow, it stays ended and only leaves.
pub proof fn lemma_refused_connection_closed(events: Seq<StreamEvent>)
    ensures
        session_run(Session::Ended, events) == Session::Ended,
        forall|i: int| 0 <= i < events.len() ==> session_effect(Session::Ended, #[trigger] events[i])
            == StreamEffect::End,
    decreases events.len(),
{
    if events.len() > 0 {
        lemma_refused_connection_closed(events.subrange(1, events.len() as int));
    }
}

/// `n` failed sends in a row.
pub open spec fn failed_sends(n: nat) -> Seq<StreamEvent> {
    Seq::new(n, |i: int| StreamEvent::SendFailed)
}

/// A transient send failure is retried in place: from any streaming state,
/// up to the threshold of consecutive failures the connection keeps
/// streaming, and one more closes it.
pub proof fn lemma_send_failures_tolerated(n: nat)
    requires
        n <= MAX_SEND_FAILURES,
    ensures
        session_run(streaming(0), failed_sends(n)) == streaming(n as u32),
        session_effect(session_run(streaming(0), failed_sends(n)), StreamEvent::SendFailed) == (
        if n < MAX_SEND_FAILURES {
            StreamEffect::Wait
        } else {
            StreamEffect::CloseAndEnd
        }),
    decreases n,
{
    if n > 0 {
        lemma_send_failures_tolerated((n - 1) as nat);
        lemma_run_append_failure((n - 1) as nat);
    }
}

proof fn lemma_run_append_failure(n: nat)
    requires
        n < MAX_SEND_FAILURES,
    ensures
        session_run(streaming(0), failed_sends(n + 1)) == session_next(
            session_run(streaming(0), failed_sends(n)),
            StreamEvent::SendFailed,
        ),
{
    lemma_run_snoc(streaming(0), failed_sends(n), StreamEvent::SendFailed);
    assert(failed_sends(n).push(StreamEvent::SendFailed) =~= failed_sends(n + 1));
}

proof fn lemma_run_snoc(s: Session, events: Seq<StreamEvent>, e: StreamEvent)
    ensures
        session_run(s, events.push(e)) == session_next(session_run(s, events), e),
    decreases events.len(),
{
    if events.len() == 0 {
        assert(events.push(e).subrange(1, 1) =~= Seq::<StreamEvent>::empty());
        assert(events.push(e)[0] == e);
        assert(session_run(session_next(s, e), Seq::<StreamEvent>::empty()) == session_next(s, e));
    } else {
        let rest = events.subrange(1, events.len() as int);
        lemma_run_snoc(session_next(s, events[0]), rest, e);
        assert(events.push(e).subrange(1, events.len() as int + 1) =~= rest.push(e));
        assert(events.push(e)[0] == events[0]);
    }
}

} // verus!
