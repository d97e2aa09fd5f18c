use pkatt::agent::Agent;
use pkatt::{IndentityConvertError, WireIdentity, WireValue};

fn root_wire() -> WireIdentity {
    WireIdentity {
        kind: "unix-user".to_string(),
        details: vec![("uid".to_string(), WireValue::U32(0))],
    }
}

#[test]
fn begin_registers_and_finish_removes_the_cookie() {
    let mut agent = Agent::new("/usr/lib/pkatt/prompt".to_string());
    assert!(!agent.has_session("cookie-a"));

    let (tx, _rx) = smol::channel::unbounded::<()>();
    let session = agent
        .begin_authentication(
            "Install package".to_string(),
            "pkg-icon".to_string(),
            "cookie-a".to_string(),
            &vec![root_wire()],
            tx,
        )
        .expect("a resolvable identity must begin a session");
    assert_eq!(session.cookie, "cookie-a");
    assert_eq!(session.message, "Install package");
    assert_eq!(session.identities.len(), 1);
    assert!(agent.has_session("cookie-a"));

    agent.finish_session("cookie-a");
    assert!(!agent.has_session("cookie-a"));
}

#[test]
fn failed_resolution_never_registers_a_session() {
    let mut agent = Agent::new("prompt".to_string());
    let bad = WireIdentity { kind: "unix-machine".to_string(), details: vec![] };
    let (tx, _rx) = smol::channel::unbounded::<()>();
    let r = agent.begin_authentication(
        "msg".to_string(),
        "icon".to_string(),
        "cookie-b".to_string(),
        &vec![root_wire(), bad],
        tx,
    );
    assert!(matches!(r, Err(IndentityConvertError::UnknownKind)));
    assert!(!agent.has_session("cookie-b"));
}

#[test]
fn empty_identity_list_still_begins_a_session() {
    let mut agent = Agent::new("prompt".to_string());
    let (tx, _rx) = smol::channel::unbounded::<()>();
    let session = agent
        .begin_authentication(
            "m".to_string(),
            "i".to_string(),
            "cookie-empty".to_string(),
            &vec![],
            tx,
        )
        .expect("nothing to resolve, nothing to fail");
    assert!(session.identities.is_empty());
    assert!(agent.has_session("cookie-empty"));
    agent.finish_session("cookie-empty");
}

#[test]
fn cancel_for_unknown_cookie_is_a_quiet_no_op() {
    let agent = Agent::new("prompt".to_string());
    assert!(!agent.cancel_authentication("never-began"));
}

#[test]
fn cancel_signals_exactly_the_live_session() {
    let mut agent = Agent::new("prompt".to_string());
    let (tx_a, rx_a) = smol::channel::unbounded::<()>();
    let (tx_b, rx_b) = smol::channel::unbounded::<()>();
    agent
        .begin_authentication(
            "m".to_string(),
            "i".to_string(),
            "cookie-a".to_string(),
            &vec![root_wire()],
            tx_a,
        )
        .expect("begin a");
    agent
        .begin_authentication(
            "m".to_string(),
            "i".to_string(),
            "cookie-b".to_string(),
            &vec![root_wire()],
            tx_b,
        )
        .expect("begin b");

    assert!(agent.cancel_authentication("cookie-a"));
    assert!(rx_a.try_recv().is_ok(), "session a must see its signal");
    assert!(rx_b.try_recv().is_err(), "session b must not be misdirected");

    // a cancellation after the loop removed its entry is a no-op
    agent.finish_session("cookie-a");
    assert!(!agent.cancel_authentication("cookie-a"));
    assert!(agent.has_session("cookie-b"));
    agent.finish_session("cookie-b");
}

#[test]
fn finishing_an_absent_cookie_changes_nothing() {
    let mut agent = Agent::new("prompt".to_string());
    let (tx, _rx) = smol::channel::unbounded::<()>();
    agent
        .begin_authentication(
            "m".to_string(),
            "i".to_string(),
            "cookie-a".to_string(),
            &vec![root_wire()],
            tx,
        )
        .expect("begin");
    agent.finish_session("cookie-z");
    assert!(agent.has_session("cookie-a"));
}
