use pkatt::codec::{
    decode_responder_input, encode_prompt_input, encode_responder_input, parse_prompt_response,
    parse_u32, parse_u32_canonical, u32_to_decimal, IdKind,
};
use pkatt::{Identity, PromptInput, ResponderInput, Session};

#[test]
fn decimal_printing_is_exact() {
    assert_eq!(u32_to_decimal(0), "0");
    assert_eq!(u32_to_decimal(7), "7");
    assert_eq!(u32_to_decimal(1234), "1234");
    assert_eq!(u32_to_decimal(4_294_967_295), "4294967295");
}

#[test]
fn lenient_decimal_parsing() {
    assert_eq!(parse_u32("0"), Some(0));
    assert_eq!(parse_u32("42"), Some(42));
    assert_eq!(parse_u32("007"), Some(7));
    assert_eq!(parse_u32("4294967295"), Some(4_294_967_295));
    assert_eq!(parse_u32("4294967296"), None);
    assert_eq!(parse_u32(""), None);
    assert_eq!(parse_u32("1x"), None);
    assert_eq!(parse_u32("-1"), None);
    assert_eq!(parse_u32("12345678901"), None);
}

#[test]
fn canonical_decimal_parsing_rejects_leading_zero() {
    assert_eq!(parse_u32_canonical("0"), Some(0));
    assert_eq!(parse_u32_canonical("10"), Some(10));
    assert_eq!(parse_u32_canonical("010"), None);
    assert_eq!(parse_u32_canonical("00"), None);
}

#[test]
fn prompt_response_parsing() {
    let r = parse_prompt_response("1000:secret").expect("well-formed");
    assert_eq!(r.id, 1000);
    assert_eq!(r.password, "secret");

    let r = parse_prompt_response("7:").expect("empty credential is allowed");
    assert_eq!(r.id, 7);
    assert_eq!(r.password, "");

    let r = parse_prompt_response("10:pw:extra").expect("colons may recur");
    assert_eq!(r.id, 10);
    assert_eq!(r.password, "pw:extra");

    assert!(parse_prompt_response("no colon here").is_none());
    assert!(parse_prompt_response("abc:pw").is_none());
    assert!(parse_prompt_response(":pw").is_none());
    assert!(parse_prompt_response("4294967296:pw").is_none());
}

#[test]
fn responder_record_encoding_is_exact() {
    let input = ResponderInput {
        agent_uid: 1000,
        cookie: "c00kie".to_string(),
        identity: Identity::User { uid: 500, name: "alice".to_string() },
    };
    let s = encode_responder_input(&input);
    assert_eq!(s, "1000\nc00kie\nunix-user\nuid\n500\n");

    let input = ResponderInput {
        agent_uid: 0,
        cookie: String::new(),
        identity: Identity::Group { gid: 27, name: "sudo".to_string() },
    };
    let s = encode_responder_input(&input);
    assert_eq!(s, "0\n\nunix-group\ngid\n27\n");
}

#[test]
fn responder_record_round_trips() {
    let input = ResponderInput {
        agent_uid: 1000,
        cookie: "session-cookie-17".to_string(),
        identity: Identity::Group { gid: 4, name: "adm".to_string() },
    };
    let s = encode_responder_input(&input);
    let rec = decode_responder_input(&s).expect("own encoding must decode");
    assert_eq!(rec.agent_uid, 1000);
    assert_eq!(rec.cookie, "session-cookie-17");
    assert_eq!(rec.kind, IdKind::Group);
    assert_eq!(rec.id, 4);
}

#[test]
fn responder_decoding_accepts_only_exact_records() {
    assert!(decode_responder_input("1000\nc\nunix-user\nuid\n500\n").is_some());
    // key must match the kind
    assert!(decode_responder_input("1000\nc\nunix-user\ngid\n500\n").is_none());
    assert!(decode_responder_input("1000\nc\nunix-group\nuid\n500\n").is_none());
    // unknown kind
    assert!(decode_responder_input("1000\nc\nunix-session\nuid\n500\n").is_none());
    // non-canonical numbers
    assert!(decode_responder_input("01000\nc\nunix-user\nuid\n500\n").is_none());
    assert!(decode_responder_input("1000\nc\nunix-user\nuid\n0500\n").is_none());
    // missing or trailing material
    assert!(decode_responder_input("1000\nc\nunix-user\nuid\n500").is_none());
    assert!(decode_responder_input("1000\nc\nunix-user\nuid\n500\nx").is_none());
    assert!(decode_responder_input("1000\nc\nunix-user\nuid\n").is_none());
    assert!(decode_responder_input("").is_none());
}

#[test]
fn largest_ids_round_trip() {
    let input = ResponderInput {
        agent_uid: u32::MAX,
        cookie: "c".to_string(),
        identity: Identity::User { uid: u32::MAX, name: "edge".to_string() },
    };
    let s = encode_responder_input(&input);
    assert_eq!(s, "4294967295\nc\nunix-user\nuid\n4294967295\n");
    let rec = decode_responder_input(&s).expect("own encoding must decode");
    assert_eq!(rec.agent_uid, u32::MAX);
    assert_eq!(rec.id, u32::MAX);
}

#[test]
fn empty_prompt_input_encodes_the_message_alone() {
    let input = PromptInput { message: String::new(), users: vec![] };
    assert_eq!(encode_prompt_input(&input), "0\n");
}

#[test]
fn prompt_input_encoding_is_exact() {
    let input = PromptInput {
        message: "Install package".to_string(),
        users: vec![
            Identity::User { uid: 1000, name: "alice".to_string() },
            Identity::Group { gid: 27, name: "sudo".to_string() },
        ],
    };
    let s = encode_prompt_input(&input);
    assert_eq!(s, "2\nunix-user\n1000\nalice\nunix-group\n27\nsudo\nInstall package");
}

#[test]
fn session_serialization_uses_the_record_formats() {
    let session = Session::new(
        "Install package".to_string(),
        "pkg-icon".to_string(),
        "cookie-1".to_string(),
        vec![Identity::User { uid: 1000, name: "alice".to_string() }],
    );
    let prompt = session.serialize_users_to_prompt();
    assert_eq!(prompt, "1\nunix-user\n1000\nalice\nInstall package");

    let responder = session.serialize_to_responder(1000).expect("1000 is offered");
    let rec = decode_responder_input(&responder).expect("own encoding must decode");
    assert_eq!(rec.cookie, "cookie-1");
    assert_eq!(rec.kind, IdKind::User);
    assert_eq!(rec.id, 1000);

    assert!(session.serialize_to_responder(999).is_none());
}
