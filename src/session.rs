use crate::error::AdapterError;
use crate::paths::{get_unity_adapter_pipe, pipe_path_spec};
use vstd::prelude::*;

verus! {

/// How many times the endpoint is looked for after the server was started.
pub const MAX_POLLS: u64 = 40;

/// How long to wait before each look, in milliseconds.
pub const POLL_INTERVAL_MS: u64 = 25;

/// Where the find-or-start protocol stands.
#[derive(PartialEq, Eq, Structural, Debug, Clone, Copy)]
pub enum SessionPhase {
    /// The endpoint has not been looked for yet.
    Checking,
    /// The endpoint was absent: the server is to be started.
    Launching,
    /// The server was started; `attempts` looks have found nothing so far.
    Polling { attempts: u64 },
    /// The endpoint exists.
    Ready,
    /// The protocol gave up.
    Failed(AdapterError),
}

/// What the caller is to do next.
#[derive(PartialEq, Eq, Structural, Debug, Clone, Copy)]
pub enum SessionAction {
    /// Tell whether the endpoint exists.
    CheckEndpoint,
    /// Make the endpoint's directory and start the server; tell whether that
    /// succeeded.
    Launch,
    /// Wait `POLL_INTERVAL_MS`, then tell whether the endpoint exists.
    WaitThenCheck,
    /// Nothing: the outcome is known.
    Finish,
}

/// What the caller observed while doing the last action.
#[derive(PartialEq, Eq, Structural, Debug, Clone, Copy)]
pub enum SessionEvent {
    EndpointExists(bool),
    Launched(bool),
}

pub open spec fn is_final(phase: SessionPhase) -> bool {
    phase is Ready || phase is Failed
}

/// The action that a phase asks for.
pub open spec fn action_of(phase: SessionPhase) -> SessionAction {
    match phase {
        SessionPhase::Checking => SessionAction::CheckEndpoint,
        SessionPhase::Launching => SessionAction::Launch,
        SessionPhase::Polling { .. } => SessionAction::WaitThenCheck,
        _ => SessionAction::Finish,
    }
}

/// The phase that follows `phase` once `event` is observed. An event that
/// does not answer the phase's action leaves the phase as it is.
pub open spec fn next_phase(phase: SessionPhase, event: SessionEvent) -> SessionPhase {
    match (phase, event) {
        (SessionPhase::Checking, SessionEvent::EndpointExists(true)) => SessionPhase::Ready,
        (SessionPhase::Checking, SessionEvent::EndpointExists(false)) => SessionPhase::Launching,
        (SessionPhase::Launching, SessionEvent::Launched(true)) => SessionPhase::Polling {
            attempts: 0,
        },
        (SessionPhase::Launching, SessionEvent::Launched(false)) => SessionPhase::Failed(
            AdapterError::LaunchFailed,
        ),
        (SessionPhase::Polling { attempts }, SessionEvent::EndpointExists(true)) => {
            SessionPhase::Ready
        },
        (SessionPhase::Polling { attempts }, SessionEvent::EndpointExists(false)) => {
            if attempts + 1 >= MAX_POLLS {
                SessionPhase::Failed(AdapterError::ServerTimeout)
            } else {
                SessionPhase::Polling { attempts: (attempts + 1) as u64 }
            }
        },
        _ => phase,
    }
}

/// Whether `event` answers the action that `phase` asks for.
pub open spec fn answers(phase: SessionPhase, event: SessionEvent) -> bool {
    match phase {
        SessionPhase::Checking => event is EndpointExists,
        SessionPhase::Launching => event is Launched,
        SessionPhase::Polling { .. } => event is EndpointExists,
        _ => false,
    }
}

/// How many more answered events a phase can take at most before it is final.
pub open spec fn steps_left(phase: SessionPhase) -> nat {
    match phase {
        SessionPhase::Checking => MAX_POLLS as nat + 2,
        SessionPhase::Launching => MAX_POLLS as nat + 1,
        SessionPhase::Polling { attempts } => if attempts < MAX_POLLS {
            (MAX_POLLS - attempts) as nat
        } else {
            1
        },
        _ => 0,
    }
}

/// The phase reached from `phase` through `events`, in order.
pub open spec fn run(phase: SessionPhase, events: Seq<SessionEvent>) -> SessionPhase
    decreases events.len(),
{
    if events.len() == 0 {
        phase
    } else {
        next_phase(run(phase, events.drop_last()), events.last())
    }
}

/// How many times the server is started on the way through `events`.
pub open spec fn launches(phase: SessionPhase, events: Seq<SessionEvent>) -> nat
    decreases events.len(),
{
    if events.len() == 0 {
        0
    } else {
        let before = run(phase, events.drop_last());
        launches(phase, events.drop_last()) + if action_of(before) is Launch && next_phase(
            before,
            events.last(),
        ) != before {
            1nat
        } else {
            0nat
        }
    }
}

/// One find-or-start of the editor server of a project.
pub struct Session {
    pub endpoint: String,
    pub phase: SessionPhase,
}

impl Session {
    /// The protocol for the project at `root`, or `RootNotFound` where no root
    /// was found.
    pub fn start(root: Option<String>) -> (r: Result<Session, AdapterError>)
        ensures
            root is None ==> r == Err::<Session, AdapterError>(AdapterError::RootNotFound),
            root matches Some(d) ==> (r matches Ok(s) && s.endpoint@ == pipe_path_spec(d@)
                && s.phase == SessionPhase::Checking),
    {
        match root {
            None => Err(AdapterError::RootNotFound),
            Some(d) => Ok(
                Session { endpoint: get_unity_adapter_pipe(d.as_str()), phase: SessionPhase::Checking },
            ),
        }
    }

    /// The action that the current phase asks for.
    pub fn action(&self) -> (r: SessionAction)
        ensures
            r == action_of(self.phase),
    {
        match self.phase {
            SessionPhase::Checking => SessionAction::CheckEndpoint,
            SessionPhase::Launching => SessionAction::Launch,
            SessionPhase::Polling { .. } => SessionAction::WaitThenCheck,
            _ => SessionAction::Finish,
        }
    }

    /// Takes in what was observed, and returns the next action.
    pub fn step(&mut self, event: SessionEvent) -> (r: SessionAction)
        ensures
            final(self).endpoint == old(self).endpoint,
            final(self).phase == next_phase(old(self).phase, event),
            r == action_of(final(self).phase),
    {
        let next = match (self.phase, event) {
            (SessionPhase::Checking, SessionEvent::EndpointExists(true)) => SessionPhase::Ready,
            (SessionPhase::Checking, SessionEvent::EndpointExists(false)) => SessionPhase::Launching,
            (SessionPhase::Launching, SessionEvent::Launched(true)) => SessionPhase::Polling {
                attempts: 0,
            },
            (SessionPhase::Launching, SessionEvent::Launched(false)) => SessionPhase::Failed(
                AdapterError::LaunchFailed,
            ),
            (SessionPhase::Polling { .. }, SessionEvent::EndpointExists(true)) => SessionPhase::Ready,
            (SessionPhase::Polling { attempts }, SessionEvent::EndpointExists(false)) => {
                if attempts >= MAX_POLLS - 1 {
                    SessionPhase::Failed(AdapterError::ServerTimeout)
                } else {
                    SessionPhase::Polling { attempts: attempts + 1 }
                }
            },
            _ => self.phase,
        };
        self.phase = next;
        self.action()
    }

    /// The endpoint once it exists, the failure once the protocol gave up,
    /// `None` while it goes on.
    pub fn outcome(&self) -> (r: Option<Result<String, AdapterError>>)
        ensures
            self.phase is Ready ==> (r matches Some(Ok(e)) && e@ == self.endpoint@),
            self.phase matches SessionPhase::Failed(err) ==> r == Some(
                Err::<String, AdapterError>(err),
            ),
            !is_final(self.phase) ==> r is None,
    {
        match self.phase {
            SessionPhase::Ready => Some(Ok(self.endpoint.clone())),
            SessionPhase::Failed(e) => Some(Err(e)),
            _ => None,
        }
    }
}

/// What the protocol for the project at `root` has returned after `events`:
/// `None` while it goes on.
pub open spec fn outcome_of(root: Seq<char>, events: Seq<SessionEvent>) -> Option<
    Result<Seq<char>, AdapterError>,
> {
    match run(SessionPhase::Checking, events) {
        SessionPhase::Ready => Some(Ok(pipe_path_spec(root))),
        SessionPhase::Failed(e) => Some(Err(e)),
        _ => None,
    }
}

/// Once a run has returned the endpoint of a project, the endpoint exists; a
/// second run against the same root then finds it at once, returns the same
/// endpoint, and starts no server.
pub proof fn lemma_reuse_is_idempotent(root: Seq<char>, first: Seq<SessionEvent>)
    requires
        outcome_of(root, first) matches Some(Ok(_)),
    ensures
        outcome_of(root, seq![SessionEvent::EndpointExists(true)]) == outcome_of(root, first),
        launches(SessionPhase::Checking, seq![SessionEvent::EndpointExists(true)]) == 0,
{
    let events = seq![SessionEvent::EndpointExists(true)];
    assert(events.drop_last() =~= Seq::<SessionEvent>::empty());
    assert(events.last() == SessionEvent::EndpointExists(true));
    assert(run(SessionPhase::Checking, events.drop_last()) == SessionPhase::Checking);
    assert(launches(SessionPhase::Checking, events.drop_last()) == 0);
}

/// Every event that answers the current action brings the protocol closer to
/// its end, so it ends after at most `MAX_POLLS + 2` of them.
pub proof fn lemma_answer_makes_progress(phase: SessionPhase, event: SessionEvent)
    requires
        answers(phase, event),
    ensures
        steps_left(next_phase(phase, event)) < steps_left(phase),
{
}

/// After the server was started, `MAX_POLLS` looks that find no endpoint end
/// the protocol with `ServerTimeout`.
pub proof fn lemma_bounded_wait(n: nat)
    requires
        n <= MAX_POLLS,
    ensures
        run(SessionPhase::Polling { attempts: 0 }, Seq::new(n, |i: int| SessionEvent::EndpointExists(false)))
            == if n < MAX_POLLS {
            SessionPhase::Polling { attempts: n as u64 }
        } else {
            SessionPhase::Failed(AdapterError::ServerTimeout)
        },
    decreases n,
{
    let events = Seq::new(n, |i: int| SessionEvent::EndpointExists(false));
    if n > 0 {
        lemma_bounded_wait((n - 1) as nat);
        assert(events.drop_last() =~= Seq::new((n - 1) as nat, |i: int| SessionEvent::EndpointExists(false)));
    }
}

} // verus!
