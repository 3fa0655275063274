use vstd::prelude::*;

verus! {

/// The phase of the process-wide engine.
#[derive(Clone, Copy, Debug, PartialEq, Eq, Structural)]
pub enum EngineState {
    /// Before setup.
    Uninitialized,
    /// Between setup and teardown.
    Ready,
    /// A perform panicked while it held the engine.
    Poisoned,
    /// After teardown.
    TornDown,
}

/// What the host asks of the engine, or what happened to it.
#[derive(Clone, Copy, Debug, PartialEq, Eq, Structural)]
pub enum LifecycleEvent {
    Setup,
    Perform,
    SendMetrics,
    Teardown,
    /// A perform that was running panicked.
    PerformPanicked,
}

/// Why an export is refused.
#[derive(Clone, Copy, Debug, PartialEq, Eq, Structural)]
pub enum LifecycleError {
    AlreadySetup,
    NotReady,
    Poisoned,
    NotSetupOrTornDown,
}

/// What the caller of the engine does next.
#[derive(Clone, Copy, Debug, PartialEq, Eq, Structural)]
pub enum LifecycleAction {
    Initialize,
    RunPerform,
    RunSendMetrics,
    Release,
    /// Release, and print the developer dump buffer to the host's diagnostic stream.
    DumpDeveloperBuffer,
    Nothing,
    Reject(LifecycleError),
}

/// The engine's next phase and action for an event.
pub open spec fn step(s: EngineState, e: LifecycleEvent) -> (EngineState, LifecycleAction) {
    match e {
        LifecycleEvent::Setup => match s {
            EngineState::Uninitialized => (EngineState::Ready, LifecycleAction::Initialize),
            _ => (s, LifecycleAction::Reject(LifecycleError::AlreadySetup)),
        },
        LifecycleEvent::Perform => match s {
            EngineState::Ready => (s, LifecycleAction::RunPerform),
            EngineState::Poisoned => (s, LifecycleAction::Reject(LifecycleError::Poisoned)),
            _ => (s, LifecycleAction::Reject(LifecycleError::NotReady)),
        },
        LifecycleEvent::SendMetrics => match s {
            EngineState::Ready => (s, LifecycleAction::RunSendMetrics),
            EngineState::Poisoned => (s, LifecycleAction::Reject(LifecycleError::Poisoned)),
            _ => (s, LifecycleAction::Reject(LifecycleError::NotReady)),
        },
        LifecycleEvent::Teardown => match s {
            EngineState::Ready => (EngineState::TornDown, LifecycleAction::Release),
            EngineState::Poisoned => (EngineState::TornDown, LifecycleAction::DumpDeveloperBuffer),
            _ => (s, LifecycleAction::Reject(LifecycleError::NotSetupOrTornDown)),
        },
        LifecycleEvent::PerformPanicked => match s {
            EngineState::Ready => (EngineState::Poisoned, LifecycleAction::Nothing),
            _ => (s, LifecycleAction::Nothing),
        },
    }
}

/// Decides what an event does to the engine.
pub fn transition(s: EngineState, e: LifecycleEvent) -> (r: (EngineState, LifecycleAction))
    ensures
        r == step(s, e),
{
    match e {
        LifecycleEvent::Setup => match s {
            EngineState::Uninitialized => (EngineState::Ready, LifecycleAction::Initialize),
            _ => (s, LifecycleAction::Reject(LifecycleError::AlreadySetup)),
        },
        LifecycleEvent::Perform => match s {
            EngineState::Ready => (s, LifecycleAction::RunPerform),
            EngineState::Poisoned => (s, LifecycleAction::Reject(LifecycleError::Poisoned)),
            _ => (s, LifecycleAction::Reject(LifecycleError::NotReady)),
        },
        LifecycleEvent::SendMetrics => match s {
            EngineState::Ready => (s, LifecycleAction::RunSendMetrics),
            EngineState::Poisoned => (s, LifecycleAction::Reject(LifecycleError::Poisoned)),
            _ => (s, LifecycleAction::Reject(LifecycleError::NotReady)),
        },
        LifecycleEvent::Teardown => match s {
            EngineState::Ready => (EngineState::TornDown, LifecycleAction::Release),
            EngineState::Poisoned => (EngineState::TornDown, LifecycleAction::DumpDeveloperBuffer),
            _ => (s, LifecycleAction::Reject(LifecycleError::NotSetupOrTornDown)),
        },
        LifecycleEvent::PerformPanicked => match s {
            EngineState::Ready => (EngineState::Poisoned, LifecycleAction::Nothing),
            _ => (s, LifecycleAction::Nothing),
        },
    }
}

impl LifecycleError {
    /// The message of the error.
    pub fn message(&self) -> (r: String)
        ensures
            r@ == match self {
                LifecycleError::AlreadySetup => "Already setup"@,
                LifecycleError::NotReady => "Global state missing: has oneclient_core_setup been called?"@,
                LifecycleError::Poisoned => "Global state lock poisoned: a perform panicked"@,
                LifecycleError::NotSetupOrTornDown => "Not setup or already torn down"@,
            },
    {
        match self {
            LifecycleError::AlreadySetup => String::from_str("Already setup"),
            LifecycleError::NotReady => String::from_str(
                "Global state missing: has oneclient_core_setup been called?",
            ),
            LifecycleError::Poisoned => String::from_str(
                "Global state lock poisoned: a perform panicked",
            ),
            LifecycleError::NotSetupOrTornDown => String::from_str(
                "Not setup or already torn down",
            ),
        }
    }
}

/// The phase after a run of events from `s`, and whether any was refused.
pub open spec fn run(s: EngineState, events: Seq<LifecycleEvent>) -> (EngineState, bool)
    decreases events.len(),
{
    if events.len() == 0 {
        (s, false)
    } else {
        let (p, refused) = run(s, events.drop_last());
        let (n, a) = step(p, events.last());
        (n, refused || a is Reject)
    }
}

/// Whether a run of exports is a start of setup, performs and metrics
/// sends, teardown.
pub open spec fn admissible(calls: Seq<LifecycleEvent>) -> bool {
    calls.len() == 0 || (calls[0] == LifecycleEvent::Setup && forall|i: int|
        0 < i < calls.len() ==> #[trigger] calls[i] != LifecycleEvent::Setup && (calls[i]
            == LifecycleEvent::Teardown ==> i == calls.len() - 1))
}

/// Whether every event is an export call.
pub open spec fn exports_only(calls: Seq<LifecycleEvent>) -> bool {
    forall|i: int| 0 <= i < calls.len() ==> #[trigger] calls[i] != LifecycleEvent::PerformPanicked
}

/// Starting before setup, a run of exports is refused nowhere exactly when it
/// is a start of setup, any number of performs and metrics sends, and
/// teardown; the outcome depends on the calls alone.
pub proof fn lemma_admissible_sequence(calls: Seq<LifecycleEvent>)
    requires
        exports_only(calls),
    ensures
        !run(EngineState::Uninitialized, calls).1 <==> admissible(calls),
        admissible(calls) ==> run(EngineState::Uninitialized, calls).0 == if calls.len() == 0 {
            EngineState::Uninitialized
        } else if calls.last() == LifecycleEvent::Teardown {
            EngineState::TornDown
        } else {
            EngineState::Ready
        },
    decreases calls.len(),
{
    if calls.len() > 0 {
        let p = calls.drop_last();
        assert(exports_only(p)) by {
            assert forall|i: int| 0 <= i < p.len() implies #[trigger] p[i]
                != LifecycleEvent::PerformPanicked by {
                assert(p[i] == calls[i]);
            }
        }
        lemma_admissible_sequence(p);
        if admissible(calls) {
            assert(admissible(p)) by {
                if p.len() > 0 {
                    assert forall|i: int| 0 < i < p.len() implies #[trigger] p[i]
                        != LifecycleEvent::Setup && (p[i] == LifecycleEvent::Teardown ==> i == p.len()
                        - 1) by {
                        assert(p[i] == calls[i]);
                    }
                }
            }
            if p.len() > 0 {
                assert(p.last() == calls[p.len() - 1]);
            }
        } else if admissible(p) {
            let c = calls.last();
            assert(c == calls[calls.len() - 1]);
            assert(c != LifecycleEvent::PerformPanicked);
            if p.len() > 0 {
                assert(p.last() == calls[p.len() - 1]);
                assert(calls[0] == p[0]);
                if p.last() != LifecycleEvent::Teardown {
                    assert(c == LifecycleEvent::Setup) by {
                        if c != LifecycleEvent::Setup {
                            assert forall|i: int| 0 < i < calls.len() implies #[trigger] calls[i]
                                != LifecycleEvent::Setup && (calls[i] == LifecycleEvent::Teardown
                                ==> i == calls.len() - 1) by {
                                if i < calls.len() - 1 {
                                    assert(calls[i] == p[i]);
                                }
                            }
                        }
                    }
                }
            }
        }
    }
}

} // verus!
