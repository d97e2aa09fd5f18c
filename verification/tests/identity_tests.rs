use pkatt::identity::{resolve, resolve_all};
use pkatt::{Identity, IndentityConvertError, WireIdentity, WireValue};

fn wire(kind: &str, details: Vec<(&str, WireValue)>) -> WireIdentity {
    WireIdentity {
        kind: kind.to_string(),
        details: details.into_iter().map(|(k, v)| (k.to_string(), v)).collect(),
    }
}

#[test]
fn unknown_kind_is_rejected() {
    let w = wire("unix-session", vec![("uid", WireValue::U32(0))]);
    let r = resolve(&w);
    assert!(matches!(r, Err(IndentityConvertError::UnknownKind)));
}

#[test]
fn empty_kind_is_rejected() {
    let w = wire("", vec![]);
    assert!(matches!(resolve(&w), Err(IndentityConvertError::UnknownKind)));
}

#[test]
fn missing_uid_detail_is_incorrect_details() {
    let w = wire("unix-user", vec![("gid", WireValue::U32(0))]);
    assert!(matches!(resolve(&w), Err(IndentityConvertError::IncorrectDetails)));
}

#[test]
fn missing_gid_detail_is_incorrect_details() {
    let w = wire("unix-group", vec![]);
    assert!(matches!(resolve(&w), Err(IndentityConvertError::IncorrectDetails)));
}

#[test]
fn non_numeric_id_is_value_parse_error() {
    let w = wire("unix-user", vec![("uid", WireValue::Other)]);
    assert!(matches!(resolve(&w), Err(IndentityConvertError::ValueParseError)));
}

#[test]
fn root_user_resolves_with_database_name() {
    let w = wire("unix-user", vec![("uid", WireValue::U32(0))]);
    let expected = uzers::get_user_by_uid(0)
        .expect("uid 0 must exist")
        .name()
        .to_str()
        .expect("root name is text")
        .to_string();
    match resolve(&w) {
        Ok(Identity::User { uid, name }) => {
            assert_eq!(uid, 0);
            assert_eq!(name, expected);
        }
        other => panic!("expected a user identity, got {:?}", other),
    }
}

#[test]
fn root_group_resolves_with_database_name() {
    let w = wire("unix-group", vec![("gid", WireValue::U32(0))]);
    let expected = uzers::get_group_by_gid(0)
        .expect("gid 0 must exist")
        .name()
        .to_str()
        .expect("root group name is text")
        .to_string();
    match resolve(&w) {
        Ok(Identity::Group { gid, name }) => {
            assert_eq!(gid, 0);
            assert_eq!(name, expected);
        }
        other => panic!("expected a group identity, got {:?}", other),
    }
}

#[test]
fn unknown_uid_is_unknown_user_or_group() {
    // An id nothing plausible assigns: one below the 32-bit "nobody" ids.
    let w = wire("unix-user", vec![("uid", WireValue::U32(4_294_901_234))]);
    assert!(matches!(resolve(&w), Err(IndentityConvertError::UnknownUserOrGroup)));
}

#[test]
fn first_matching_detail_wins() {
    let w = wire(
        "unix-user",
        vec![("uid", WireValue::U32(0)), ("uid", WireValue::Other)],
    );
    assert!(matches!(resolve(&w), Ok(Identity::User { uid: 0, .. })));
}

#[test]
fn one_bad_record_fails_the_whole_request() {
    let good = wire("unix-user", vec![("uid", WireValue::U32(0))]);
    let bad = wire("unix-machine", vec![]);
    let r = resolve_all(&vec![good, bad]);
    assert!(matches!(r, Err(IndentityConvertError::UnknownKind)));
}

#[test]
fn all_good_records_resolve_in_order() {
    let u = wire("unix-user", vec![("uid", WireValue::U32(0))]);
    let g = wire("unix-group", vec![("gid", WireValue::U32(0))]);
    let ids = resolve_all(&vec![u, g]).expect("both must resolve");
    assert_eq!(ids.len(), 2);
    assert!(matches!(ids[0], Identity::User { uid: 0, .. }));
    assert!(matches!(ids[1], Identity::Group { gid: 0, .. }));
}
