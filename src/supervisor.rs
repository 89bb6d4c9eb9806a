//! The supervisor's event loop as a state machine: each event that the loop
//! receives gives the next state and the actions that the loop then performs
//! (spawn, cancel or join a task, answer a restart command, forward a report,
//! append a log line, finish).
use vstd::prelude::*;
use crate::log_record::LogEntry;
use crate::report::{describe_outcome, report_for, ServiceKind, TaskOutcome, ErrorReport};

verus! {

/// The task slot of one service.
#[derive(Clone, Copy, Debug, PartialEq, Eq, Structural)]
pub enum Slot {
    /// A task is live and serving.
    Running,
    /// The task was cancelled for a restart and is being joined.
    Retiring,
    /// No task is live: it ended and was reported, or was joined at shutdown.
    Vacant,
}

#[derive(Clone, Copy, Debug, PartialEq, Eq, Structural)]
pub enum Phase {
    Serving,
    /// Stop was requested: both tasks are cancelled and are being joined,
    /// and the log records still queued are being written.
    Draining,
    /// Every task has been joined and the log channel has closed; the loop
    /// is done.
    Stopped,
}

#[derive(Clone, Copy, Debug, PartialEq, Eq, Structural)]
pub struct Supervisor {
    pub server: Slot,
    pub ws_client: Slot,
    pub phase: Phase,
    /// The log channel may still deliver records.
    pub logs_open: bool,
}

/// What the loop receives.
#[derive(Debug)]
pub enum Event {
    StopRequested,
    CommandsClosed,
    LogsClosed,
    /// A restart command for a service; the loop keeps its acknowledgement
    /// until an `Acknowledge` action for that service.
    Restart(ServiceKind),
    Log(LogEntry),
    /// The join handle of the service's live task completed.
    TaskEnded(ServiceKind, TaskOutcome),
}

/// What the loop does, in order.
#[derive(Debug, PartialEq, Eq)]
pub enum Action {
    Spawn(ServiceKind),
    Cancel(ServiceKind),
    /// Await the task's join handle; its completion comes back as `TaskEnded`.
    Join(ServiceKind),
    /// Fulfil every restart command of the service received so far.
    Acknowledge(ServiceKind),
    /// Send the report to the service's own error channel.
    Report(ServiceKind, ErrorReport),
    /// Record the report without forwarding it: nobody is owed it.
    Discard(ErrorReport),
    /// Append the line to the log file and flush it.
    Append(String),
    /// Leave the loop.
    Finish,
}

/// The mathematical content of an `Action`.
pub ghost enum Effect {
    Spawn(ServiceKind),
    Cancel(ServiceKind),
    Join(ServiceKind),
    Acknowledge(ServiceKind),
    Report(ServiceKind, Seq<Seq<char>>),
    Discard(Seq<Seq<char>>),
    Append(Seq<char>),
    Finish,
}

impl View for Action {
    type V = Effect;

    open spec fn view(&self) -> Effect {
        match self {
            Action::Spawn(k) => Effect::Spawn(*k),
            Action::Cancel(k) => Effect::Cancel(*k),
            Action::Join(k) => Effect::Join(*k),
            Action::Acknowledge(k) => Effect::Acknowledge(*k),
            Action::Report(k, r) => Effect::Report(*k, r@),
            Action::Discard(r) => Effect::Discard(r@),
            Action::Append(l) => Effect::Append(l@),
            Action::Finish => Effect::Finish,
        }
    }
}

pub open spec fn effects_of(v: Seq<Action>) -> Seq<Effect> {
    v.map_values(|a: Action| a@)
}

pub open spec fn live(slot: Slot) -> bool {
    slot != Slot::Vacant
}

impl Event {
    /// The loop must stop: stop was requested or a command or log channel
    /// closed.
    pub open spec fn is_stop(&self) -> bool {
        match self {
            Event::StopRequested => true,
            Event::CommandsClosed => true,
            Event::LogsClosed => true,
            _ => false,
        }
    }

    /// The event is the end of the task of `k`.
    pub open spec fn ends(&self, k: ServiceKind) -> bool {
        match self {
            Event::TaskEnded(j, _) => *j == k,
            _ => false,
        }
    }
}

impl Supervisor {
    pub open spec fn slot(self, k: ServiceKind) -> Slot {
        match k {
            ServiceKind::Server => self.server,
            ServiceKind::WsClient => self.ws_client,
        }
    }

    pub open spec fn with_slot(self, k: ServiceKind, slot: Slot) -> Supervisor {
        match k {
            ServiceKind::Server => Supervisor { server: slot, ..self },
            ServiceKind::WsClient => Supervisor { ws_client: slot, ..self },
        }
    }

    pub open spec fn all_vacant(self) -> bool {
        !live(self.server) && !live(self.ws_client)
    }

    /// No task is live and no log record can still come.
    pub open spec fn done(self) -> bool {
        self.all_vacant() && !self.logs_open
    }

    /// While draining no task is serving, and a task is still being joined
    /// or the log channel is still open; once stopped neither holds.
    pub open spec fn wf(self) -> bool {
        match self.phase {
            Phase::Serving => true,
            Phase::Draining => self.server != Slot::Running && self.ws_client != Slot::Running
                && !self.done(),
            Phase::Stopped => self.done(),
        }
    }
}

pub open spec fn initial() -> Supervisor {
    Supervisor {
        server: Slot::Running,
        ws_client: Slot::Running,
        phase: Phase::Serving,
        logs_open: true,
    }
}

pub open spec fn retire(slot: Slot) -> Slot {
    if slot == Slot::Running {
        Slot::Retiring
    } else {
        slot
    }
}

pub open spec fn join_if_running(slot: Slot, k: ServiceKind) -> Seq<Effect> {
    if slot == Slot::Running {
        seq![Effect::Join(k)]
    } else {
        seq![]
    }
}

pub open spec fn drain_state(s: Supervisor) -> Supervisor {
    Supervisor {
        server: retire(s.server),
        ws_client: retire(s.ws_client),
        phase: if s.done() {
            Phase::Stopped
        } else {
            Phase::Draining
        },
        logs_open: s.logs_open,
    }
}

pub open spec fn drain_effects(s: Supervisor) -> Seq<Effect> {
    seq![Effect::Cancel(ServiceKind::Server), Effect::Cancel(ServiceKind::WsClient)]
        + join_if_running(s.server, ServiceKind::Server)
        + join_if_running(s.ws_client, ServiceKind::WsClient)
        + if s.done() {
        seq![Effect::Finish]
    } else {
        seq![]
    }
}

/// The state after the event, once the closing of the log channel, if that
/// is the event, is taken into account.
pub open spec fn note_logs(s: Supervisor, e: Event) -> Supervisor {
    if e is LogsClosed {
        Supervisor { logs_open: false, ..s }
    } else {
        s
    }
}

/// While draining: stopped once nothing is left to wait for.
pub open spec fn drained(t: Supervisor) -> Supervisor {
    if t.done() {
        Supervisor { phase: Phase::Stopped, ..t }
    } else {
        t
    }
}

pub open spec fn finish_if_done(t: Supervisor) -> Seq<Effect> {
    if t.done() {
        seq![Effect::Finish]
    } else {
        seq![]
    }
}

pub open spec fn next_state(s: Supervisor, e: Event) -> Supervisor {
    match s.phase {
        Phase::Serving => {
            if e.is_stop() {
                drain_state(note_logs(s, e))
            } else {
                match e {
                    Event::Restart(k) => match s.slot(k) {
                        Slot::Running => s.with_slot(k, Slot::Retiring),
                        Slot::Retiring => s,
                        Slot::Vacant => s.with_slot(k, Slot::Running),
                    },
                    Event::TaskEnded(k, _) => match s.slot(k) {
                        Slot::Running => s.with_slot(k, Slot::Vacant),
                        Slot::Retiring => s.with_slot(k, Slot::Running),
                        Slot::Vacant => s,
                    },
                    _ => s,
                }
            }
        },
        Phase::Draining => match e {
            Event::TaskEnded(k, _) => if live(s.slot(k)) {
                drained(s.with_slot(k, Slot::Vacant))
            } else {
                s
            },
            Event::LogsClosed => drained(note_logs(s, e)),
            _ => s,
        },
        Phase::Stopped => s,
    }
}

pub open spec fn effects(s: Supervisor, e: Event) -> Seq<Effect> {
    match s.phase {
        Phase::Serving => {
            if e.is_stop() {
                drain_effects(note_logs(s, e))
            } else {
                match e {
                    Event::Restart(k) => match s.slot(k) {
                        Slot::Running => seq![Effect::Cancel(k), Effect::Join(k)],
                        Slot::Retiring => seq![],
                        Slot::Vacant => seq![Effect::Spawn(k), Effect::Acknowledge(k)],
                    },
                    Event::Log(entry) => seq![Effect::Append(entry.spec_line())],
                    Event::TaskEnded(k, o) => match s.slot(k) {
                        Slot::Running => seq![Effect::Report(k, report_for(k, o))],
                        Slot::Retiring => seq![
                            Effect::Discard(report_for(k, o)),
                            Effect::Spawn(k),
                            Effect::Acknowledge(k),
                        ],
                        Slot::Vacant => seq![],
                    },
                    _ => seq![],
                }
            }
        },
        Phase::Draining => match e {
            Event::TaskEnded(k, o) => if live(s.slot(k)) {
                seq![Effect::Discard(report_for(k, o))] + finish_if_done(
                    s.with_slot(k, Slot::Vacant),
                )
            } else {
                seq![]
            },
            Event::Log(entry) => seq![Effect::Append(entry.spec_line())],
            Event::LogsClosed => finish_if_done(note_logs(s, e)),
            _ => seq![],
        },
        Phase::Stopped => seq![],
    }
}

impl Supervisor {
    fn slot_of(&self, k: ServiceKind) -> (r: Slot)
        ensures
            r == self.slot(k),
    {
        match k {
            ServiceKind::Server => self.server,
            ServiceKind::WsClient => self.ws_client,
        }
    }

    fn set_slot(&mut self, k: ServiceKind, slot: Slot)
        ensures
            *final(self) == old(self).with_slot(k, slot),
    {
        match k {
            ServiceKind::Server => self.server = slot,
            ServiceKind::WsClient => self.ws_client = slot,
        }
    }

    fn is_done(&self) -> (r: bool)
        ensures
            r == self.done(),
    {
        self.server == Slot::Vacant && self.ws_client == Slot::Vacant && !self.logs_open
    }

    /// A supervisor whose two tasks are to be spawned, and the actions that
    /// spawn them.
    pub fn start() -> (r: (Supervisor, Vec<Action>))
        ensures
            r.0 == initial(),
            r.0.wf(),
            effects_of(r.1@) == seq![
                Effect::Spawn(ServiceKind::Server),
                Effect::Spawn(ServiceKind::WsClient),
            ],
    {
        let mut v: Vec<Action> = Vec::new();
        v.push(Action::Spawn(ServiceKind::Server));
        v.push(Action::Spawn(ServiceKind::WsClient));
        let s = Supervisor {
            server: Slot::Running,
            ws_client: Slot::Running,
            phase: Phase::Serving,
            logs_open: true,
        };
        assert(effects_of(v@) =~= seq![
            Effect::Spawn(ServiceKind::Server),
            Effect::Spawn(ServiceKind::WsClient),
        ]);
        (s, v)
    }

    fn begin_drain(&mut self) -> (r: Vec<Action>)
        ensures
            *final(self) == drain_state(*old(self)),
            effects_of(r@) == drain_effects(*old(self)),
    {
        let ghost s0 = *self;
        let mut v: Vec<Action> = Vec::new();
        v.push(Action::Cancel(ServiceKind::Server));
        v.push(Action::Cancel(ServiceKind::WsClient));
        if self.server == Slot::Running {
            v.push(Action::Join(ServiceKind::Server));
            self.server = Slot::Retiring;
        }
        if self.ws_client == Slot::Running {
            v.push(Action::Join(ServiceKind::WsClient));
            self.ws_client = Slot::Retiring;
        }
        if self.is_done() {
            v.push(Action::Finish);
            self.phase = Phase::Stopped;
        } else {
            self.phase = Phase::Draining;
        }
        assert(effects_of(v@) =~= drain_effects(s0));
        v
    }

    /// Takes one event: the state moves to `next_state` and the returned
    /// actions are `effects`, to be performed in order.
    pub fn step(&mut self, event: Event) -> (r: Vec<Action>)
        ensures
            *final(self) == next_state(*old(self), event),
            effects_of(r@) == effects(*old(self), event),
            old(self).wf() ==> final(self).wf(),
    {
        let ghost s0 = *self;
        let ghost e0 = event;
        let mut v: Vec<Action> = Vec::new();
        match self.phase {
            Phase::Serving => match event {
                Event::StopRequested => {
                    v = self.begin_drain();
                },
                Event::CommandsClosed => {
                    v = self.begin_drain();
                },
                Event::LogsClosed => {
                    self.logs_open = false;
                    v = self.begin_drain();
                },
                Event::Restart(k) => {
                    let slot = self.slot_of(k);
                    match slot {
                        Slot::Running => {
                            v.push(Action::Cancel(k));
                            v.push(Action::Join(k));
                            self.set_slot(k, Slot::Retiring);
                        },
                        Slot::Retiring => {},
                        Slot::Vacant => {
                            v.push(Action::Spawn(k));
                            v.push(Action::Acknowledge(k));
                            self.set_slot(k, Slot::Running);
                        },
                    }
                },
                Event::Log(entry) => {
                    v.push(Action::Append(entry.to_line()));
                },
                Event::TaskEnded(k, o) => {
                    let slot = self.slot_of(k);
                    match slot {
                        Slot::Running => {
                            v.push(Action::Report(k, describe_outcome(k, o)));
                            self.set_slot(k, Slot::Vacant);
                        },
                        Slot::Retiring => {
                            v.push(Action::Discard(describe_outcome(k, o)));
                            v.push(Action::Spawn(k));
                            v.push(Action::Acknowledge(k));
                            self.set_slot(k, Slot::Running);
                        },
                        Slot::Vacant => {},
                    }
                },
            },
            Phase::Draining => match event {
                Event::TaskEnded(k, o) => {
                    let slot = self.slot_of(k);
                    if slot != Slot::Vacant {
                        v.push(Action::Discard(describe_outcome(k, o)));
                        self.set_slot(k, Slot::Vacant);
                        if self.is_done() {
                            v.push(Action::Finish);
                            self.phase = Phase::Stopped;
                        }
                    }
                },
                Event::Log(entry) => {
                    v.push(Action::Append(entry.to_line()));
                },
                Event::LogsClosed => {
                    self.logs_open = false;
                    if self.is_done() {
                        v.push(Action::Finish);
                        self.phase = Phase::Stopped;
                    }
                },
                _ => {},
            },
            Phase::Stopped => {},
        }
        assert(effects_of(v@) =~= effects(s0, e0));
        v
    }
}

/// The state after each event of `events` in turn.
pub open spec fn run(s: Supervisor, events: Seq<Event>) -> Supervisor
    decreases events.len(),
{
    if events.len() == 0 {
        s
    } else {
        run(next_state(s, events[0]), events.subrange(1, events.len() as int))
    }
}

/// The actions of each event of `events` in turn, concatenated.
pub open spec fn run_effects(s: Supervisor, events: Seq<Event>) -> Seq<Effect>
    decreases events.len(),
{
    if events.len() == 0 {
        seq![]
    } else {
        effects(s, events[0]) + run_effects(
            next_state(s, events[0]),
            events.subrange(1, events.len() as int),
        )
    }
}

/// The lines appended to the log file, in order.
pub open spec fn appended(fx: Seq<Effect>) -> Seq<Seq<char>>
    decreases fx.len(),
{
    if fx.len() == 0 {
        seq![]
    } else {
        (match fx[0] {
            Effect::Append(l) => seq![l],
            _ => seq![],
        }) + appended(fx.subrange(1, fx.len() as int))
    }
}

/// The lines of the log records among `events`, in order.
pub open spec fn logged(events: Seq<Event>) -> Seq<Seq<char>>
    decreases events.len(),
{
    if events.len() == 0 {
        seq![]
    } else {
        (match events[0] {
            Event::Log(entry) => seq![entry.spec_line()],
            _ => seq![],
        }) + logged(events.subrange(1, events.len() as int))
    }
}

pub open spec fn spawns_none(fx: Seq<Effect>) -> bool {
    forall|i: int| 0 <= i < fx.len() ==> !(fx[i] is Spawn)
}

/// The number of live tasks.
pub open spec fn live_count(s: Supervisor) -> nat {
    (if live(s.server) {
        1nat
    } else {
        0nat
    }) + (if live(s.ws_client) {
        1nat
    } else {
        0nat
    })
}

/// At most one task of a service is ever live. Whatever the state and the
/// event, a step spawns at most one task of a service, and only when none of
/// that service is live: its slot was vacant, or the event is the end of the
/// task being retired. A task becomes live only through such a spawn, a
/// live task stops being live only when its end is observed, and a slot that
/// stays occupied across the observed end of its task holds a new one.
pub proof fn lemma_one_live_task_per_service(s: Supervisor, e: Event, k: ServiceKind)
    ensures
        ({
            let fx = effects(s, e);
            let t = next_state(s, e);
            &&& forall|i: int, j: int|
                0 <= i < fx.len() && 0 <= j < fx.len() && fx[i] == Effect::Spawn(k) && fx[j]
                    == Effect::Spawn(k) ==> i == j
            &&& forall|i: int|
                0 <= i < fx.len() && fx[i] == Effect::Spawn(k) ==> (s.slot(k) == Slot::Vacant || (
                s.slot(k) == Slot::Retiring && e.ends(k))) && t.slot(k) == Slot::Running
            &&& (!live(s.slot(k)) && live(t.slot(k))) ==> exists|i: int|
                0 <= i < fx.len() && fx[i] == Effect::Spawn(k)
            &&& (live(s.slot(k)) && !live(t.slot(k))) ==> e.ends(k)
            &&& (s.wf() && live(s.slot(k)) && e.ends(k) && live(t.slot(k))) ==> exists|i: int|
                0 <= i < fx.len() && fx[i] == Effect::Spawn(k)
        }),
{
    let fx = effects(s, e);
    let t = next_state(s, e);
    if !live(s.slot(k)) && live(t.slot(k)) {
        match e {
            Event::Restart(_) => {
                assert(fx[0] == Effect::Spawn(k));
            },
            _ => {},
        }
    }
    if s.wf() && live(s.slot(k)) && e.ends(k) && live(t.slot(k)) {
        assert(fx[1] == Effect::Spawn(k));
    }
}

/// A restart retires before it spawns: a restart of a serving task only
/// cancels and joins it; further restarts while it is retiring do nothing
/// more; once its end is observed the report is kept from the caller, the
/// replacement is spawned, and only then is the command acknowledged.
pub proof fn lemma_restart_retires_first(s: Supervisor, k: ServiceKind, o: TaskOutcome)
    requires
        s.phase == Phase::Serving,
        s.slot(k) == Slot::Running,
    ensures
        effects(s, Event::Restart(k)) == seq![Effect::Cancel(k), Effect::Join(k)],
        next_state(s, Event::Restart(k)) == s.with_slot(k, Slot::Retiring),
        effects(s.with_slot(k, Slot::Retiring), Event::Restart(k)) == Seq::<Effect>::empty(),
        next_state(s.with_slot(k, Slot::Retiring), Event::Restart(k)) == s.with_slot(
            k,
            Slot::Retiring,
        ),
        effects(s.with_slot(k, Slot::Retiring), Event::TaskEnded(k, o)) == seq![
            Effect::Discard(report_for(k, o)),
            Effect::Spawn(k),
            Effect::Acknowledge(k),
        ],
        next_state(s.with_slot(k, Slot::Retiring), Event::TaskEnded(k, o)) == s,
{
}

/// A task that ends on its own, cleanly or not, is reported on its own
/// service's channel and left vacant until a restart command.
pub proof fn lemma_unasked_end_is_reported(s: Supervisor, k: ServiceKind, o: TaskOutcome)
    requires
        s.phase == Phase::Serving,
        s.slot(k) == Slot::Running,
    ensures
        effects(s, Event::TaskEnded(k, o)) == seq![Effect::Report(k, report_for(k, o))],
        next_state(s, Event::TaskEnded(k, o)) == s.with_slot(k, Slot::Vacant),
{
}

/// Stopping cancels both tasks and joins each serving one; the loop leaves
/// serving, and it finishes at once exactly when no task is live and the
/// log channel has closed.
pub proof fn lemma_stop_cancels_and_joins(s: Supervisor, e: Event)
    requires
        s.phase == Phase::Serving,
        e.is_stop(),
    ensures
        effects(s, e).contains(Effect::Cancel(ServiceKind::Server)),
        effects(s, e).contains(Effect::Cancel(ServiceKind::WsClient)),
        s.server == Slot::Running ==> effects(s, e).contains(Effect::Join(ServiceKind::Server)),
        s.ws_client == Slot::Running ==> effects(s, e).contains(
            Effect::Join(ServiceKind::WsClient),
        ),
        spawns_none(effects(s, e)),
        next_state(s, e).wf(),
        next_state(s, e).phase != Phase::Serving,
        effects(s, e).contains(Effect::Finish) <==> next_state(s, e).done(),
        next_state(s, e).phase == Phase::Stopped <==> next_state(s, e).done(),
{
    let fx = effects(s, e);
    assert(fx[0] == Effect::Cancel(ServiceKind::Server));
    assert(fx[1] == Effect::Cancel(ServiceKind::WsClient));
    if s.server == Slot::Running {
        assert(fx[2] == Effect::Join(ServiceKind::Server));
    }
    if s.ws_client == Slot::Running {
        if s.server == Slot::Running {
            assert(fx[3] == Effect::Join(ServiceKind::WsClient));
        } else {
            assert(fx[2] == Effect::Join(ServiceKind::WsClient));
        }
    }
    if next_state(s, e).done() {
        assert(fx[2] == Effect::Finish);
    }
}

/// What is left to wait for while stopping: the live tasks, and the log
/// channel while it is open.
pub open spec fn pending(s: Supervisor) -> nat {
    live_count(s) + if s.logs_open {
        1nat
    } else {
        0nat
    }
}

/// While stopping, each observed end of a live task, and the closing of the
/// log channel, leaves one thing fewer to wait for, and the last one
/// finishes the loop; a log record is appended; nothing else does anything.
pub proof fn lemma_drain_progress(s: Supervisor, e: Event)
    requires
        s.wf(),
        s.phase == Phase::Draining,
    ensures
        ((exists|k: ServiceKind| e.ends(k) && live(s.slot(k))) || (e is LogsClosed && s.logs_open))
            ==> pending(next_state(s, e)) + 1 == pending(s),
        e is Log ==> next_state(s, e) == s && effects(s, e) == seq![
            Effect::Append(e->Log_0.spec_line()),
        ],
        !((exists|k: ServiceKind| e.ends(k) && live(s.slot(k))) || (e is LogsClosed && s.logs_open)
            || e is Log) ==> next_state(s, e) == s && effects(s, e) == Seq::<Effect>::empty(),
        next_state(s, e).phase == Phase::Stopped <==> pending(next_state(s, e)) == 0,
        effects(s, e).contains(Effect::Finish) <==> next_state(s, e).phase == Phase::Stopped,
{
    let fx = effects(s, e);
    match e {
        Event::TaskEnded(k, o) => {
            assert(e.ends(k));
            if live(s.slot(k)) && s.with_slot(k, Slot::Vacant).done() {
                assert(fx[1] == Effect::Finish);
            }
        },
        Event::LogsClosed => {
            if note_logs(s, e).done() {
                assert(fx[0] == Effect::Finish);
            }
        },
        _ => {},
    }
}

/// Every step keeps the supervisor well formed.
pub proof fn lemma_wf_preserved(s: Supervisor, e: Event)
    requires
        s.wf(),
    ensures
        next_state(s, e).wf(),
{
}

proof fn lemma_step_after_stop(s: Supervisor, e: Event)
    requires
        s.wf(),
        s.phase != Phase::Serving,
    ensures
        next_state(s, e).wf(),
        next_state(s, e).phase != Phase::Serving,
        spawns_none(effects(s, e)),
{
}

/// Once stopping has begun, no sequence of events brings the loop back to
/// serving or spawns a task.
pub proof fn lemma_no_spawn_after_stop(s: Supervisor, events: Seq<Event>)
    requires
        s.wf(),
        s.phase != Phase::Serving,
    ensures
        run(s, events).wf(),
        run(s, events).phase != Phase::Serving,
        spawns_none(run_effects(s, events)),
    decreases events.len(),
{
    if events.len() > 0 {
        let t = next_state(s, events[0]);
        let rest = events.subrange(1, events.len() as int);
        lemma_step_after_stop(s, events[0]);
        lemma_no_spawn_after_stop(t, rest);
        let a = effects(s, events[0]);
        let b = run_effects(t, rest);
        assert forall|i: int| 0 <= i < (a + b).len() implies !((a + b)[i] is Spawn) by {
            if i >= a.len() {
                assert((a + b)[i] == b[i - a.len()]);
            }
        }
    }
}

proof fn lemma_appended_concat(a: Seq<Effect>, b: Seq<Effect>)
    ensures
        appended(a + b) == appended(a) + appended(b),
    decreases a.len(),
{
    if a.len() == 0 {
        assert(a + b =~= b);
        assert(appended(a) =~= seq![]);
        assert(appended(a + b) =~= appended(a) + appended(b));
    } else {
        let rest = a.subrange(1, a.len() as int);
        lemma_appended_concat(rest, b);
        assert((a + b).subrange(1, (a + b).len() as int) =~= rest + b);
        assert((a + b)[0] == a[0]);
        assert(appended(a + b) =~= appended(a) + appended(b));
    }
}

proof fn lemma_appended_none(fx: Seq<Effect>)
    requires
        forall|i: int| 0 <= i < fx.len() ==> !(fx[i] is Append),
    ensures
        appended(fx) == Seq::<Seq<char>>::empty(),
    decreases fx.len(),
{
    if fx.len() > 0 {
        let rest = fx.subrange(1, fx.len() as int);
        assert forall|i: int| 0 <= i < rest.len() implies !(rest[i] is Append) by {
            assert(rest[i] == fx[i + 1]);
        }
        lemma_appended_none(rest);
        assert(appended(fx) =~= Seq::<Seq<char>>::empty());
    }
}

/// The log channel delivers no record after it has closed.
pub open spec fn logs_in_channel_order(open: bool, events: Seq<Event>) -> bool
    decreases events.len(),
{
    if events.len() == 0 {
        true
    } else {
        (events[0] is Log ==> open) && logs_in_channel_order(
            open && !(events[0] is LogsClosed),
            events.subrange(1, events.len() as int),
        )
    }
}

proof fn lemma_appended_of_step(s: Supervisor, e: Event)
    requires
        s.wf(),
        e is Log ==> s.logs_open,
    ensures
        appended(effects(s, e)) == (match e {
            Event::Log(entry) => seq![entry.spec_line()],
            _ => Seq::<Seq<char>>::empty(),
        }),
        next_state(s, e).logs_open == (s.logs_open && !(e is LogsClosed)),
        next_state(s, e).wf(),
{
    let fx = effects(s, e);
    match e {
        Event::Log(entry) => {
            assert(fx == seq![Effect::Append(entry.spec_line())]);
            assert(fx.subrange(1, 1) =~= Seq::<Effect>::empty());
            assert(appended(fx.subrange(1, 1)) == Seq::<Seq<char>>::empty());
            assert(appended(fx) =~= seq![entry.spec_line()]);
        },
        _ => {
            assert forall|i: int| 0 <= i < fx.len() implies !(fx[i] is Append) by {}
            lemma_appended_none(fx);
        },
    }
}

/// Every record the log channel delivers is appended exactly once, in the
/// order received, and nothing else is appended: while serving, and also
/// after a stop, until the channel has closed.
pub proof fn lemma_log_lines_in_order(s: Supervisor, events: Seq<Event>)
    requires
        s.wf(),
        logs_in_channel_order(s.logs_open, events),
    ensures
        appended(run_effects(s, events)) == logged(events),
    decreases events.len(),
{
    if events.len() == 0 {
        assert(appended(run_effects(s, events)) =~= logged(events));
    } else {
        let t = next_state(s, events[0]);
        let rest = events.subrange(1, events.len() as int);
        lemma_appended_of_step(s, events[0]);
        lemma_log_lines_in_order(t, rest);
        lemma_appended_concat(effects(s, events[0]), run_effects(t, rest));
        assert(appended(run_effects(s, events)) =~= logged(events));
    }
}

/// How many tasks of `k` the actions spawn.
pub open spec fn spawn_count(fx: Seq<Effect>, k: ServiceKind) -> nat
    decreases fx.len(),
{
    if fx.len() == 0 {
        0
    } else {
        (if fx[0] == Effect::Spawn(k) {
            1nat
        } else {
            0nat
        }) + spawn_count(fx.subrange(1, fx.len() as int), k)
    }
}

/// How many ends of a live task of `k` the loop observes along `events`.
pub open spec fn ends_observed(s: Supervisor, events: Seq<Event>, k: ServiceKind) -> nat
    decreases events.len(),
{
    if events.len() == 0 {
        0
    } else {
        (if events[0].ends(k) && live(s.slot(k)) {
            1nat
        } else {
            0nat
        }) + ends_observed(next_state(s, events[0]), events.subrange(1, events.len() as int), k)
    }
}

pub open spec fn live_tasks(s: Supervisor, k: ServiceKind) -> nat {
    if live(s.slot(k)) {
        1
    } else {
        0
    }
}

proof fn lemma_spawn_count_concat(a: Seq<Effect>, b: Seq<Effect>, k: ServiceKind)
    ensures
        spawn_count(a + b, k) == spawn_count(a, k) + spawn_count(b, k),
    decreases a.len(),
{
    if a.len() == 0 {
        assert(a + b =~= b);
    } else {
        let rest = a.subrange(1, a.len() as int);
        lemma_spawn_count_concat(rest, b, k);
        assert((a + b).subrange(1, (a + b).len() as int) =~= rest + b);
        assert((a + b)[0] == a[0]);
    }
}

proof fn lemma_spawn_count_unique(fx: Seq<Effect>, k: ServiceKind)
    requires
        forall|i: int, j: int|
            0 <= i < fx.len() && 0 <= j < fx.len() && fx[i] == Effect::Spawn(k) && fx[j]
                == Effect::Spawn(k) ==> i == j,
    ensures
        spawn_count(fx, k) == if exists|i: int| 0 <= i < fx.len() && fx[i] == Effect::Spawn(k) {
            1nat
        } else {
            0nat
        },
    decreases fx.len(),
{
    if fx.len() > 0 {
        let rest = fx.subrange(1, fx.len() as int);
        assert forall|i: int, j: int|
            0 <= i < rest.len() && 0 <= j < rest.len() && rest[i] == Effect::Spawn(k) && rest[j]
                == Effect::Spawn(k) implies i == j by {
            assert(rest[i] == fx[i + 1]);
            assert(rest[j] == fx[j + 1]);
        }
        lemma_spawn_count_unique(rest, k);
        if fx[0] == Effect::Spawn(k) {
            assert forall|i: int| 0 <= i < rest.len() implies rest[i] != Effect::Spawn(k) by {
                assert(rest[i] == fx[i + 1]);
            }
        } else {
            if exists|i: int| 0 <= i < fx.len() && fx[i] == Effect::Spawn(k) {
                let i = choose|i: int| 0 <= i < fx.len() && fx[i] == Effect::Spawn(k);
                assert(rest[i - 1] == fx[i]);
            }
            if exists|i: int| 0 <= i < rest.len() && rest[i] == Effect::Spawn(k) {
                let i = choose|i: int| 0 <= i < rest.len() && rest[i] == Effect::Spawn(k);
                assert(fx[i + 1] == rest[i]);
            }
        }
    }
}

proof fn lemma_spawn_count_step(s: Supervisor, e: Event, k: ServiceKind)
    requires
        s.wf(),
    ensures
        live_tasks(s, k) + spawn_count(effects(s, e), k) == live_tasks(next_state(s, e), k) + (
        if e.ends(k) && live(s.slot(k)) {
            1nat
        } else {
            0nat
        }),
{
    lemma_one_live_task_per_service(s, e, k);
    lemma_spawn_count_unique(effects(s, e), k);
}

/// Over any history, the tasks of a service spawned so far, counting one
/// live at the start, less the ends of live ones observed, are exactly the
/// tasks live now: one while its slot is occupied, none while it is vacant.
/// So the tasks spawned never outnumber the observed ends by more than one:
/// at most one task of each service is ever live.
pub proof fn lemma_live_tasks_balance(s: Supervisor, events: Seq<Event>, k: ServiceKind)
    requires
        s.wf(),
    ensures
        live_tasks(s, k) + spawn_count(run_effects(s, events), k) == live_tasks(run(s, events), k)
            + ends_observed(s, events, k),
        live_tasks(s, k) + spawn_count(run_effects(s, events), k) <= 1 + ends_observed(
            s,
            events,
            k,
        ),
    decreases events.len(),
{
    if events.len() > 0 {
        let t = next_state(s, events[0]);
        let rest = events.subrange(1, events.len() as int);
        lemma_spawn_count_step(s, events[0], k);
        lemma_wf_preserved(s, events[0]);
        lemma_live_tasks_balance(t, rest, k);
        lemma_spawn_count_concat(effects(s, events[0]), run_effects(t, rest), k);
    }
}

} // verus!
