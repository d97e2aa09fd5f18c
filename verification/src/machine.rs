//! The retry state machine of one authentication session.
//!
//! The waiting itself — racing the prompt process against cancellation,
//! blocking on the credential backend, collecting the responder helper's
//! exit — happens outside the library. What is decided in between is pure:
//! given where a session stands and what the outside world reported, the
//! next phase and the next action follow. [`step`] computes that
//! transition; the lemmas at the end pin down the retry discipline: prompt
//! crashes never consume an authentication attempt, and denial comes after
//! exactly the attempt limit of rejected credentials.

use vstd::prelude::*;

use crate::codec::{parse_prompt_response, spec_parse_response};
use crate::identity::Identity;
use crate::session::{spec_select, ResponderInput, Session};

verus! {

/// How many credential rejections a session tolerates before it ends in
/// denial.
pub const ATTEMPT_LIMIT: u32 = 3;

/// How many prompt-process crashes a session tolerates before it gives up.
/// Crashes consume no authentication attempt, so this outer cap is what
/// keeps a broken prompt from being respawned forever.
pub const CRASH_LIMIT: u32 = 10;

/// How one authentication session ended.
#[derive(Clone, Copy, Debug, PartialEq, Eq, Structural)]
pub enum SessionOutcome {
    /// The responder helper delivered the verdict.
    Granted,
    /// Rejected credentials exhausted the attempt limit.
    AccessDenied,
    /// Cancellation won the race against the prompt.
    Cancelled,
    /// The prompt process crashed more often than the cap tolerates.
    PromptFailure,
    /// The prompt answered with a malformed record: a collaborator
    /// contract violation, fatal and not retried.
    MalformedResponse,
    /// The prompt chose an id that was never offered: likewise fatal.
    UnknownIdentitySelected,
    /// The responder helper failed; a privileged action is not retried.
    ResponderFailure,
}

/// Where one session stands.
#[derive(Debug)]
pub enum SessionPhase {
    /// A prompt process is running; its exit is raced against cancellation.
    Prompting { attempts_left: u32, crashes_left: u32 },
    /// A credential is being verified for the chosen identity.
    Verifying { attempts_left: u32, crashes_left: u32, chosen: Identity },
    /// The responder helper is delivering the verdict.
    Responding { chosen: Identity },
    /// The session is over; its table entry is to be removed.
    Terminated { outcome: SessionOutcome },
}

/// What the outside world reported into one session.
#[derive(Debug)]
pub enum SessionEvent {
    /// The session's cancellation signal fired before the prompt exited.
    CancelSignalled,
    /// The prompt process exited unsuccessfully.
    PromptCrashed,
    /// The prompt process exited successfully with this output.
    PromptCompleted { output: String },
    /// The credential backend accepted the supplied credential.
    CredentialAccepted,
    /// The credential backend rejected the supplied credential.
    CredentialRejected,
    /// The responder helper exited successfully.
    ResponderSucceeded,
    /// The responder helper exited unsuccessfully.
    ResponderFailed,
}

/// What the caller must do after a step.
#[derive(Debug)]
pub enum SessionAction {
    /// Spawn the prompt with a truthful count of attempts remaining, write
    /// it the prompt input, and race its exit against cancellation.
    RunPrompt { attempts_left: u32 },
    /// Hand the account name and the supplied credential to the credential
    /// verification backend.
    CheckCredential { name: String, password: String },
    /// Spawn the responder helper and write it this record.
    RunResponder { input: ResponderInput },
    /// Remove the session's table entry and report the outcome.
    Finish { outcome: SessionOutcome },
    /// The event does not belong to this phase; nothing to do.
    Ignore,
}

/// The phase a session starts in, with full attempt and crash budgets.
pub open spec fn spec_initial_phase() -> SessionPhase {
    SessionPhase::Prompting { attempts_left: ATTEMPT_LIMIT, crashes_left: CRASH_LIMIT }
}

pub fn initial_phase() -> (r: SessionPhase)
    ensures
        r == spec_initial_phase(),
{
    SessionPhase::Prompting { attempts_left: ATTEMPT_LIMIT, crashes_left: CRASH_LIMIT }
}

/// The phase after one event, given the session's candidate identities.
pub open spec fn spec_step_phase(
    ids: Seq<Identity>,
    phase: SessionPhase,
    event: SessionEvent,
) -> SessionPhase {
    match (phase, event) {
        (SessionPhase::Prompting { .. }, SessionEvent::CancelSignalled) => SessionPhase::Terminated {
            outcome: SessionOutcome::Cancelled,
        },
        (
            SessionPhase::Prompting { attempts_left, crashes_left },
            SessionEvent::PromptCrashed,
        ) => if crashes_left == 0 {
            SessionPhase::Terminated { outcome: SessionOutcome::PromptFailure }
        } else {
            SessionPhase::Prompting { attempts_left, crashes_left: (crashes_left - 1) as u32 }
        },
        (
            SessionPhase::Prompting { attempts_left, crashes_left },
            SessionEvent::PromptCompleted { output },
        ) => match spec_parse_response(output@) {
            None => SessionPhase::Terminated { outcome: SessionOutcome::MalformedResponse },
            Some(t) => match spec_select(ids, t.0) {
                None => SessionPhase::Terminated {
                    outcome: SessionOutcome::UnknownIdentitySelected,
                },
                Some(chosen) => SessionPhase::Verifying { attempts_left, crashes_left, chosen },
            },
        },
        (SessionPhase::Verifying { chosen, .. }, SessionEvent::CredentialAccepted) => {
            SessionPhase::Responding { chosen }
        },
        (
            SessionPhase::Verifying { attempts_left, crashes_left, .. },
            SessionEvent::CredentialRejected,
        ) => if attempts_left <= 1 {
            SessionPhase::Terminated { outcome: SessionOutcome::AccessDenied }
        } else {
            SessionPhase::Prompting { attempts_left: (attempts_left - 1) as u32, crashes_left }
        },
        (SessionPhase::Responding { .. }, SessionEvent::ResponderSucceeded) => {
            SessionPhase::Terminated { outcome: SessionOutcome::Granted }
        },
        (SessionPhase::Responding { .. }, SessionEvent::ResponderFailed) => {
            SessionPhase::Terminated { outcome: SessionOutcome::ResponderFailure }
        },
        (p, _) => p,
    }
}

/// The phase/event pairs that mean something; any other pair is ignored.
pub open spec fn handled(phase: SessionPhase, event: SessionEvent) -> bool {
    ||| (phase is Prompting && (event is CancelSignalled || event is PromptCrashed
        || event is PromptCompleted))
    ||| (phase is Verifying && (event is CredentialAccepted || event is CredentialRejected))
    ||| (phase is Responding && (event is ResponderSucceeded || event is ResponderFailed))
}

/// Advances one session by one reported event.
///
/// The new phase is exactly [`spec_step_phase`]; the action tells the
/// caller what the protocol asks next: respawn the prompt with a truthful
/// attempt count, verify a credential, launch the responder with the
/// session's cookie and the chosen identity, or finish and drop the
/// session's table entry.
pub fn step(session: &Session, agent_uid: u32, phase: SessionPhase, event: SessionEvent) -> (r: (
    SessionPhase,
    SessionAction,
))
    ensures
        r.0 == spec_step_phase(session.identities@, phase, event),
        phase is Prompting && event is CancelSignalled ==> r.1 == (SessionAction::Finish {
            outcome: SessionOutcome::Cancelled,
        }),
        phase matches SessionPhase::Prompting { attempts_left, crashes_left } ==> (event
            is PromptCrashed ==> r.1 == (if crashes_left == 0 {
            SessionAction::Finish { outcome: SessionOutcome::PromptFailure }
        } else {
            SessionAction::RunPrompt { attempts_left }
        })),
        event matches SessionEvent::PromptCompleted { output } ==> (phase is Prompting
            ==> match spec_parse_response(output@) {
            None => r.1 == (SessionAction::Finish { outcome: SessionOutcome::MalformedResponse }),
            Some(t) => match spec_select(session.identities@, t.0) {
                None => r.1 == (SessionAction::Finish {
                    outcome: SessionOutcome::UnknownIdentitySelected,
                }),
                Some(chosen) => (r.1 matches SessionAction::CheckCredential { name, password }
                    && name@ == chosen.spec_name() && password@ == t.1),
            },
        }),
        phase matches SessionPhase::Verifying { chosen, .. } ==> (event is CredentialAccepted ==> (
        r.1 matches SessionAction::RunResponder { input } && input.agent_uid == agent_uid
            && input.cookie@ == session.cookie@ && input.identity == chosen)),
        phase matches SessionPhase::Verifying { attempts_left, .. } ==> (event
            is CredentialRejected ==> r.1 == (if attempts_left <= 1 {
            SessionAction::Finish { outcome: SessionOutcome::AccessDenied }
        } else {
            SessionAction::RunPrompt { attempts_left: (attempts_left - 1) as u32 }
        })),
        phase is Responding && event is ResponderSucceeded ==> r.1 == (SessionAction::Finish {
            outcome: SessionOutcome::Granted,
        }),
        phase is Responding && event is ResponderFailed ==> r.1 == (SessionAction::Finish {
            outcome: SessionOutcome::ResponderFailure,
        }),
        !handled(phase, event) ==> r.1 is Ignore,
{
    match (phase, event) {
        (SessionPhase::Prompting { .. }, SessionEvent::CancelSignalled) => (
            SessionPhase::Terminated { outcome: SessionOutcome::Cancelled },
            SessionAction::Finish { outcome: SessionOutcome::Cancelled },
        ),
        (SessionPhase::Prompting { attempts_left, crashes_left }, SessionEvent::PromptCrashed) => {
            if crashes_left == 0 {
                (
                    SessionPhase::Terminated { outcome: SessionOutcome::PromptFailure },
                    SessionAction::Finish { outcome: SessionOutcome::PromptFailure },
                )
            } else {
                (
                    SessionPhase::Prompting { attempts_left, crashes_left: crashes_left - 1 },
                    SessionAction::RunPrompt { attempts_left },
                )
            }
        },
        (
            SessionPhase::Prompting { attempts_left, crashes_left },
            SessionEvent::PromptCompleted { output },
        ) => {
            match parse_prompt_response(output.as_str()) {
                None => (
                    SessionPhase::Terminated { outcome: SessionOutcome::MalformedResponse },
                    SessionAction::Finish { outcome: SessionOutcome::MalformedResponse },
                ),
                Some(resp) => {
                    match session.select_identity(resp.id) {
                        None => (
                            SessionPhase::Terminated {
                                outcome: SessionOutcome::UnknownIdentitySelected,
                            },
                            SessionAction::Finish {
                                outcome: SessionOutcome::UnknownIdentitySelected,
                            },
                        ),
                        Some(chosen) => {
                            let name = chosen.name().clone();
                            (
                                SessionPhase::Verifying { attempts_left, crashes_left, chosen },
                                SessionAction::CheckCredential { name, password: resp.password },
                            )
                        },
                    }
                },
            }
        },
        (SessionPhase::Verifying { chosen, .. }, SessionEvent::CredentialAccepted) => {
            let input = ResponderInput {
                agent_uid,
                cookie: session.cookie.clone(),
                identity: chosen.clone(),
            };
            (SessionPhase::Responding { chosen }, SessionAction::RunResponder { input })
        },
        (
            SessionPhase::Verifying { attempts_left, crashes_left, .. },
            SessionEvent::CredentialRejected,
        ) => {
            if attempts_left <= 1 {
                (
                    SessionPhase::Terminated { outcome: SessionOutcome::AccessDenied },
                    SessionAction::Finish { outcome: SessionOutcome::AccessDenied },
                )
            } else {
                (
                    SessionPhase::Prompting { attempts_left: attempts_left - 1, crashes_left },
                    SessionAction::RunPrompt { attempts_left: attempts_left - 1 },
                )
            }
        },
        (SessionPhase::Responding { .. }, SessionEvent::ResponderSucceeded) => (
            SessionPhase::Terminated { outcome: SessionOutcome::Granted },
            SessionAction::Finish { outcome: SessionOutcome::Granted },
        ),
        (SessionPhase::Responding { .. }, SessionEvent::ResponderFailed) => (
            SessionPhase::Terminated { outcome: SessionOutcome::ResponderFailure },
            SessionAction::Finish { outcome: SessionOutcome::ResponderFailure },
        ),
        (p, _) => (p, SessionAction::Ignore),
    }
}

/// The phase a whole run of events leads to.
pub open spec fn run_phases(
    ids: Seq<Identity>,
    init: SessionPhase,
    events: Seq<SessionEvent>,
) -> SessionPhase
    decreases events.len(),
{
    if events.len() == 0 {
        init
    } else {
        run_phases(ids, spec_step_phase(ids, init, events[0]), events.skip(1))
    }
}

/// How many credential rejections a run actually delivers into a verifying
/// phase; a rejection reported in any other phase is ignored and counts for
/// nothing.
pub open spec fn run_rejections(
    ids: Seq<Identity>,
    init: SessionPhase,
    events: Seq<SessionEvent>,
) -> nat
    decreases events.len(),
{
    if events.len() == 0 {
        0
    } else {
        (if init is Verifying && events[0] is CredentialRejected {
            1nat
        } else {
            0nat
        }) + run_rejections(ids, spec_step_phase(ids, init, events[0]), events.skip(1))
    }
}

/// The attempts remaining in a live phase; a session past prompting and
/// verifying has none left to consume.
pub open spec fn live_attempts(p: SessionPhase) -> Option<u32> {
    match p {
        SessionPhase::Prompting { attempts_left, .. } => Some(attempts_left),
        SessionPhase::Verifying { attempts_left, .. } => Some(attempts_left),
        _ => None,
    }
}

/// A terminated session stays terminated, whatever is still reported in.
pub proof fn lemma_terminated_stays(
    ids: Seq<Identity>,
    outcome: SessionOutcome,
    events: Seq<SessionEvent>,
)
    ensures
        run_phases(ids, SessionPhase::Terminated { outcome }, events) == (SessionPhase::Terminated {
            outcome,
        }),
    decreases events.len(),
{
    if events.len() > 0 {
        lemma_terminated_stays(ids, outcome, events.skip(1));
    }
}

/// Prompt crashes consume no authentication attempt: a run of nothing but
/// crashes leaves the attempt budget untouched while the crash budget
/// drains, and one crash past the budget ends the session — it never loops
/// silently forever.
pub proof fn lemma_crashes_consume_no_attempts(
    ids: Seq<Identity>,
    attempts_left: u32,
    crashes_left: u32,
    events: Seq<SessionEvent>,
)
    requires
        forall|i: int| 0 <= i < events.len() ==> events[i] is PromptCrashed,
    ensures
        events.len() <= crashes_left ==> run_phases(
            ids,
            SessionPhase::Prompting { attempts_left, crashes_left },
            events,
        ) == (SessionPhase::Prompting {
            attempts_left,
            crashes_left: (crashes_left - events.len()) as u32,
        }),
        events.len() > crashes_left ==> run_phases(
            ids,
            SessionPhase::Prompting { attempts_left, crashes_left },
            events,
        ) == (SessionPhase::Terminated { outcome: SessionOutcome::PromptFailure }),
    decreases events.len(),
{
    if events.len() > 0 {
        assert(events[0] is PromptCrashed);
        if crashes_left == 0 {
            lemma_terminated_stays(ids, SessionOutcome::PromptFailure, events.skip(1));
        } else {
            lemma_crashes_consume_no_attempts(
                ids,
                attempts_left,
                (crashes_left - 1) as u32,
                events.skip(1),
            );
        }
    }
}

/// A live session never holds a drained attempt budget: the step to zero
/// attempts is the step that terminates it.
pub open spec fn wf_phase(p: SessionPhase) -> bool {
    live_attempts(p) matches Some(a) ==> a >= 1
}

/// No run ever delivers more credential rejections than the session has
/// attempts: the budget is a hard bound.
pub proof fn lemma_rejections_bounded(
    ids: Seq<Identity>,
    phase: SessionPhase,
    events: Seq<SessionEvent>,
)
    requires
        wf_phase(phase),
    ensures
        live_attempts(phase) matches Some(a) ==> run_rejections(ids, phase, events) <= a,
        live_attempts(phase) is None ==> run_rejections(ids, phase, events) == 0,
    decreases events.len(),
{
    if events.len() > 0 {
        let next = spec_step_phase(ids, phase, events[0]);
        assert(wf_phase(next));
        lemma_rejections_bounded(ids, next, events.skip(1));
    }
}

/// A session that ends in denial was rejected at least as often as it had
/// attempts; and a session past its live phases never reaches denial.
pub proof fn lemma_denial_consumes_attempts(
    ids: Seq<Identity>,
    phase: SessionPhase,
    events: Seq<SessionEvent>,
)
    requires
        wf_phase(phase),
    ensures
        live_attempts(phase) matches Some(a) ==> (run_phases(ids, phase, events)
            == (SessionPhase::Terminated { outcome: SessionOutcome::AccessDenied })
            ==> run_rejections(ids, phase, events) >= a),
        live_attempts(phase) is None && phase != (SessionPhase::Terminated {
            outcome: SessionOutcome::AccessDenied,
        }) ==> run_phases(ids, phase, events) != (SessionPhase::Terminated {
            outcome: SessionOutcome::AccessDenied,
        }),
    decreases events.len(),
{
    if events.len() > 0 {
        let next = spec_step_phase(ids, phase, events[0]);
        assert(wf_phase(next));
        lemma_denial_consumes_attempts(ids, next, events.skip(1));
        if next == (SessionPhase::Terminated { outcome: SessionOutcome::AccessDenied }) {
            lemma_terminated_stays(ids, SessionOutcome::AccessDenied, events.skip(1));
        }
    }
}

/// From the start of a session, denial comes after exactly the attempt
/// limit of delivered credential rejections — never fewer, and no run can
/// deliver more.
pub proof fn lemma_denied_after_exact_limit(ids: Seq<Identity>, events: Seq<SessionEvent>)
    ensures
        run_phases(ids, spec_initial_phase(), events) == (SessionPhase::Terminated {
            outcome: SessionOutcome::AccessDenied,
        }) ==> run_rejections(ids, spec_initial_phase(), events) == ATTEMPT_LIMIT,
        run_rejections(ids, spec_initial_phase(), events) <= ATTEMPT_LIMIT,
{
    lemma_rejections_bounded(ids, spec_initial_phase(), events);
    lemma_denial_consumes_attempts(ids, spec_initial_phase(), events);
}

} // verus!
