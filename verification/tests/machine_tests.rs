use pkatt::machine::{
    initial_phase, step, SessionAction, SessionEvent, SessionOutcome, SessionPhase, ATTEMPT_LIMIT,
    CRASH_LIMIT,
};
use pkatt::{Identity, Session};

const AGENT_UID: u32 = 1000;

fn fixture() -> Session {
    Session::new(
        "Install package".to_string(),
        "pkg-icon".to_string(),
        "cookie-1".to_string(),
        vec![Identity::User { uid: 1000, name: "alice".to_string() }],
    )
}

fn completed(output: &str) -> SessionEvent {
    SessionEvent::PromptCompleted { output: output.to_string() }
}

#[test]
fn three_rejections_deny_access() {
    let session = fixture();
    let mut phase = initial_phase();
    let mut responder_runs = 0;
    for round in 0..ATTEMPT_LIMIT {
        let (next, action) = step(&session, AGENT_UID, phase, completed("1000:wrong"));
        match &action {
            SessionAction::CheckCredential { name, password } => {
                assert_eq!(name, "alice");
                assert_eq!(password, "wrong");
            }
            other => panic!("expected a credential check, got {:?}", other),
        }
        let (next, action) = step(&session, AGENT_UID, next, SessionEvent::CredentialRejected);
        phase = next;
        match &action {
            SessionAction::RunPrompt { attempts_left } => {
                assert_eq!(*attempts_left, ATTEMPT_LIMIT - round - 1);
            }
            SessionAction::Finish { outcome } => {
                assert_eq!(round, ATTEMPT_LIMIT - 1);
                assert_eq!(*outcome, SessionOutcome::AccessDenied);
            }
            SessionAction::RunResponder { .. } => responder_runs += 1,
            other => panic!("unexpected action {:?}", other),
        }
    }
    assert_eq!(responder_runs, 0);
    assert!(matches!(
        phase,
        SessionPhase::Terminated { outcome: SessionOutcome::AccessDenied }
    ));
}

#[test]
fn first_try_success_runs_the_responder_once() {
    let session = fixture();
    let phase = initial_phase();
    let (phase, action) = step(&session, AGENT_UID, phase, completed("1000:correct"));
    assert!(matches!(action, SessionAction::CheckCredential { .. }));
    let (phase, action) = step(&session, AGENT_UID, phase, SessionEvent::CredentialAccepted);
    match &action {
        SessionAction::RunResponder { input } => {
            assert_eq!(input.agent_uid, AGENT_UID);
            assert_eq!(input.cookie, "cookie-1");
            match &input.identity {
                Identity::User { uid, name } => {
                    assert_eq!(*uid, 1000);
                    assert_eq!(name, "alice");
                }
                other => panic!("expected the offered user, got {:?}", other),
            }
        }
        other => panic!("expected a responder launch, got {:?}", other),
    }
    let (phase, action) = step(&session, AGENT_UID, phase, SessionEvent::ResponderSucceeded);
    assert!(matches!(
        action,
        SessionAction::Finish { outcome: SessionOutcome::Granted }
    ));
    assert!(matches!(
        phase,
        SessionPhase::Terminated { outcome: SessionOutcome::Granted }
    ));
}

#[test]
fn cancellation_ends_the_session_without_verification() {
    let session = fixture();
    let phase = initial_phase();
    let (phase, action) = step(&session, AGENT_UID, phase, SessionEvent::CancelSignalled);
    assert!(matches!(
        action,
        SessionAction::Finish { outcome: SessionOutcome::Cancelled }
    ));
    assert!(matches!(
        phase,
        SessionPhase::Terminated { outcome: SessionOutcome::Cancelled }
    ));
}

#[test]
fn crashes_consume_no_attempts_and_hit_the_cap() {
    let session = fixture();
    let mut phase = initial_phase();
    for _ in 0..CRASH_LIMIT {
        let (next, action) = step(&session, AGENT_UID, phase, SessionEvent::PromptCrashed);
        phase = next;
        match &action {
            SessionAction::RunPrompt { attempts_left } => {
                // a crash retry never consumes an authentication attempt
                assert_eq!(*attempts_left, ATTEMPT_LIMIT);
            }
            other => panic!("expected a prompt respawn, got {:?}", other),
        }
    }
    let (phase, action) = step(&session, AGENT_UID, phase, SessionEvent::PromptCrashed);
    assert!(matches!(
        action,
        SessionAction::Finish { outcome: SessionOutcome::PromptFailure }
    ));
    assert!(matches!(
        phase,
        SessionPhase::Terminated { outcome: SessionOutcome::PromptFailure }
    ));
}

#[test]
fn malformed_prompt_output_is_fatal() {
    let session = fixture();
    let (phase, action) = step(&session, AGENT_UID, initial_phase(), completed("garbage"));
    assert!(matches!(
        action,
        SessionAction::Finish { outcome: SessionOutcome::MalformedResponse }
    ));
    assert!(matches!(
        phase,
        SessionPhase::Terminated { outcome: SessionOutcome::MalformedResponse }
    ));
}

#[test]
fn unoffered_identity_is_fatal() {
    let session = fixture();
    let (phase, action) = step(&session, AGENT_UID, initial_phase(), completed("999:pw"));
    assert!(matches!(
        action,
        SessionAction::Finish { outcome: SessionOutcome::UnknownIdentitySelected }
    ));
    assert!(matches!(
        phase,
        SessionPhase::Terminated { outcome: SessionOutcome::UnknownIdentitySelected }
    ));
}

#[test]
fn responder_failure_is_terminal() {
    let session = fixture();
    let (phase, _) = step(&session, AGENT_UID, initial_phase(), completed("1000:pw"));
    let (phase, _) = step(&session, AGENT_UID, phase, SessionEvent::CredentialAccepted);
    let (phase, action) = step(&session, AGENT_UID, phase, SessionEvent::ResponderFailed);
    assert!(matches!(
        action,
        SessionAction::Finish { outcome: SessionOutcome::ResponderFailure }
    ));
    assert!(matches!(
        phase,
        SessionPhase::Terminated { outcome: SessionOutcome::ResponderFailure }
    ));
}

#[test]
fn mismatched_events_are_ignored() {
    let session = fixture();
    let (phase, action) = step(
        &session,
        AGENT_UID,
        initial_phase(),
        SessionEvent::CredentialRejected,
    );
    assert!(matches!(action, SessionAction::Ignore));
    assert!(matches!(phase, SessionPhase::Prompting { .. }));
}
