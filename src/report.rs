//! Failure reports carried back to the caller, and how a finished task is
//! described.
use vstd::prelude::*;

verus! {

/// The two services that the supervisor keeps alive.
#[derive(Clone, Copy, Debug, PartialEq, Eq, Structural)]
pub enum ServiceKind {
    Server,
    WsClient,
}

impl ServiceKind {
    /// The name that reports use for the service.
    pub open spec fn spec_name(self) -> Seq<char> {
        match self {
            ServiceKind::Server => "server"@,
            ServiceKind::WsClient => "ws_client"@,
        }
    }

    pub fn name(&self) -> (r: &'static str)
        ensures
            r@ == self.spec_name(),
    {
        match self {
            ServiceKind::Server => "server",
            ServiceKind::WsClient => "ws_client",
        }
    }
}

/// A failure: the outermost description first, then each cause in turn.
#[derive(Debug, Clone, PartialEq, Eq)]
pub struct ErrorReport {
    pub causes: Vec<String>,
}

impl View for ErrorReport {
    type V = Seq<Seq<char>>;

    open spec fn view(&self) -> Seq<Seq<char>> {
        self.causes@.map_values(|c: String| c@)
    }
}

impl ErrorReport {
    /// A report with a single description.
    pub fn new(message: String) -> (r: Self)
        ensures
            r@ == seq![message@],
    {
        let mut causes: Vec<String> = Vec::new();
        causes.push(message);
        let r = ErrorReport { causes };
        assert(r@ =~= seq![message@]);
        r
    }

    /// Puts a new outermost description in front of the report.
    pub fn context(self, message: String) -> (r: Self)
        ensures
            r@ == seq![message@] + self@,
    {
        let ghost before = self@;
        let mut causes = self.causes;
        causes.insert(0, message);
        let r = ErrorReport { causes };
        assert(r@ =~= seq![message@] + before);
        r
    }

    /// The outermost description.
    pub fn headline(&self) -> (r: Option<&String>)
        ensures
            self@.len() == 0 ==> r is None,
            self@.len() > 0 ==> r is Some && r->Some_0@ == self@[0],
    {
        if self.causes.len() == 0 {
            None
        } else {
            Some(&self.causes[0])
        }
    }
}

/// How a task's join handle completed.
#[derive(Debug, Clone, PartialEq, Eq)]
pub enum TaskOutcome {
    /// The task returned normally.
    Exited,
    /// The task returned an error.
    Failed(ErrorReport),
    /// The task could not be joined: it panicked or was aborted.
    JoinFailed(ErrorReport),
}

pub open spec fn exited_message(kind: ServiceKind) -> Seq<char> {
    kind.spec_name() + " exited"@
}

pub open spec fn failed_message(kind: ServiceKind) -> Seq<char> {
    kind.spec_name() + " task exited with an error"@
}

pub open spec fn join_failed_message(kind: ServiceKind) -> Seq<char> {
    "failed to join "@ + kind.spec_name() + " task"@
}

/// The report for a task of `kind` that completed with `outcome`. A task
/// that returns normally is reported too: no service is meant to end on
/// its own.
pub open spec fn report_for(kind: ServiceKind, outcome: TaskOutcome) -> Seq<Seq<char>> {
    match outcome {
        TaskOutcome::Exited => seq![exited_message(kind)],
        TaskOutcome::Failed(e) => seq![failed_message(kind)] + e@,
        TaskOutcome::JoinFailed(e) => seq![join_failed_message(kind)] + e@,
    }
}

/// Describes how a task of `kind` ended.
pub fn describe_outcome(kind: ServiceKind, outcome: TaskOutcome) -> (r: ErrorReport)
    ensures
        r@ == report_for(kind, outcome),
{
    let name = kind.name();
    match outcome {
        TaskOutcome::Exited => {
            let msg = String::from_str(name).concat(" exited");
            ErrorReport::new(msg)
        },
        TaskOutcome::Failed(e) => {
            let msg = String::from_str(name).concat(" task exited with an error");
            e.context(msg)
        },
        TaskOutcome::JoinFailed(e) => {
            let msg = String::from_str("failed to join ").concat(name).concat(" task");
            e.context(msg)
        },
    }
}

/// The reports the caller shows, one per service: a new one is taken from a
/// service's channel only once the shown one was cleared.
#[derive(Debug)]
pub struct PendingReports {
    pub server: Option<ErrorReport>,
    pub ws_client: Option<ErrorReport>,
}

impl PendingReports {
    pub open spec fn slot(&self, kind: ServiceKind) -> Option<ErrorReport> {
        match kind {
            ServiceKind::Server => self.server,
            ServiceKind::WsClient => self.ws_client,
        }
    }

    pub fn new() -> (r: Self)
        ensures
            r.server is None,
            r.ws_client is None,
    {
        PendingReports { server: None, ws_client: None }
    }

    /// Whether a report of `kind` may be taken from its channel now.
    pub fn wants(&self, kind: ServiceKind) -> (r: bool)
        ensures
            r == (self.slot(kind) is None),
    {
        match kind {
            ServiceKind::Server => self.server.is_none(),
            ServiceKind::WsClient => self.ws_client.is_none(),
        }
    }

    /// Takes a report pulled from the channel of `kind`, if any; it becomes
    /// the shown one only where none is shown.
    pub fn offer(&mut self, kind: ServiceKind, pulled: Option<ErrorReport>)
        ensures
            final(self).slot(kind) == (if old(self).slot(kind) is Some {
                old(self).slot(kind)
            } else {
                pulled
            }),
            kind == ServiceKind::Server ==> final(self).ws_client == old(self).ws_client,
            kind == ServiceKind::WsClient ==> final(self).server == old(self).server,
    {
        match kind {
            ServiceKind::Server => {
                if self.server.is_none() {
                    self.server = pulled;
                }
            },
            ServiceKind::WsClient => {
                if self.ws_client.is_none() {
                    self.ws_client = pulled;
                }
            },
        }
    }

    /// Forgets the shown report of `kind`, after its service was restarted.
    pub fn clear(&mut self, kind: ServiceKind)
        ensures
            final(self).slot(kind) is None,
            kind == ServiceKind::Server ==> final(self).ws_client == old(self).ws_client,
            kind == ServiceKind::WsClient ==> final(self).server == old(self).server,
    {
        match kind {
            ServiceKind::Server => self.server = None,
            ServiceKind::WsClient => self.ws_client = None,
        }
    }
}

} // verus!
