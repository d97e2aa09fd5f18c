//! Local identities and the untrusted wire records they are resolved from.
//!
//! The authorization service hands the agent a loosely typed record per
//! candidate identity: a kind string and an attribute map. Resolution turns
//! such a record into a strongly typed [`Identity`] whose name was looked up
//! in the live system account database; a record whose id has no account is
//! rejected, never constructed with a synthetic name.

use vstd::prelude::*;

verus! {

/// Designates an entity which can be used to authenticate: a local unix user
/// or group, with the id the wire record carried and the name the system
/// account database gave for that id.
#[derive(Debug)]
pub enum Identity {
    User { uid: u32, name: String },
    Group { gid: u32, name: String },
}

impl Clone for Identity {
    /// A cloned identity equals the original.
    fn clone(&self) -> (r: Self)
        ensures
            r == *self,
    {
        match self {
            Identity::User { uid, name } => Identity::User { uid: *uid, name: name.clone() },
            Identity::Group { gid, name } => Identity::Group { gid: *gid, name: name.clone() },
        }
    }
}

impl Identity {
    /// The numeric id by which identities are compared and selected.
    pub open spec fn spec_id(&self) -> u32 {
        match self {
            Identity::User { uid, .. } => *uid,
            Identity::Group { gid, .. } => *gid,
        }
    }

    /// The resolved account name.
    pub open spec fn spec_name(&self) -> Seq<char> {
        match self {
            Identity::User { name, .. } => name@,
            Identity::Group { name, .. } => name@,
        }
    }

    pub fn id(&self) -> (r: u32)
        ensures
            r == self.spec_id(),
    {
        match self {
            Identity::User { uid, .. } => *uid,
            Identity::Group { gid, .. } => *gid,
        }
    }

    pub fn name(&self) -> (r: &String)
        ensures
            r@ == self.spec_name(),
    {
        match self {
            Identity::User { name, .. } => name,
            Identity::Group { name, .. } => name,
        }
    }
}

/// Why a wire identity record could not be resolved to an [`Identity`].
#[derive(Clone, Copy, Debug, PartialEq, Eq, Structural)]
pub enum IndentityConvertError {
    /// The record's kind is neither a unix user nor a unix group.
    UnknownKind,
    /// The attribute the kind calls for (`uid` or `gid`) is missing.
    IncorrectDetails,
    /// The attribute is present but does not carry an unsigned 32-bit id,
    /// or the account's name is not valid text.
    ValueParseError,
    /// The id has no entry in the system account database.
    UnknownUserOrGroup,
}

/// One attribute value of a wire identity record, reduced to what resolution
/// reads of it: either an unsigned 32-bit integer or something else.
#[derive(Clone, Copy, Debug, PartialEq, Eq, Structural)]
pub enum WireValue {
    U32(u32),
    Other,
}

/// The untrusted representation of one candidate identity, as the
/// authorization service sends it: a kind string and an attribute map,
/// here an ordered list of key/value pairs.
#[derive(Debug)]
pub struct WireIdentity {
    pub kind: String,
    pub details: Vec<(String, WireValue)>,
}

/// The first value listed under `key` in a wire record's attribute list,
/// if any: the counterpart of one lookup in the service's attribute map.
pub open spec fn lookup_detail(details: Seq<(String, WireValue)>, key: Seq<char>) -> Option<WireValue>
    decreases details.len(),
{
    if details.len() == 0 {
        None
    } else if details[0].0@ == key {
        Some(details[0].1)
    } else {
        lookup_detail(details.skip(1), key)
    }
}

/// What resolution asks of the record alone, before the account database is
/// consulted: is it a user or a group, and under which id. Each error is
/// returned exactly on the inputs the resolver rejects without a lookup.
pub open spec fn wire_target(w: &WireIdentity) -> Result<(bool, u32), IndentityConvertError> {
    if w.kind@ == "unix-user"@ {
        wire_target_for(true, w.details@)
    } else if w.kind@ == "unix-group"@ {
        wire_target_for(false, w.details@)
    } else {
        Err(IndentityConvertError::UnknownKind)
    }
}

/// The id a record of the given kind designates: the `uid` attribute for a
/// user, the `gid` attribute for a group.
pub open spec fn wire_target_for(is_user: bool, details: Seq<(String, WireValue)>) -> Result<
    (bool, u32),
    IndentityConvertError,
> {
    match lookup_detail(details, if is_user { "uid"@ } else { "gid"@ }) {
        None => Err(IndentityConvertError::IncorrectDetails),
        Some(WireValue::U32(id)) => Ok((is_user, id)),
        Some(WireValue::Other) => Err(IndentityConvertError::ValueParseError),
    }
}

/// What the system account database answered for one id.
pub enum NameLookup {
    /// The id has an account under this name.
    Found(String),
    /// The id has no account.
    NoAccount,
    /// The account exists but its name is not valid text.
    NotText,
}

/// Relies on uzers::get_user_by_uid (`getpwuid_r`): whether the uid has an
/// entry in the system account database and, when it does, that entry's
/// name. The answer depends on the machine's account database, so nothing
/// is promised of it.
#[verifier::external_body]
fn lookup_user_name(uid: u32) -> (r: NameLookup) {
    match uzers::get_user_by_uid(uid) {
        None => NameLookup::NoAccount,
        Some(user) => match user.name().to_str() {
            None => NameLookup::NotText,
            Some(name) => NameLookup::Found(name.to_string()),
        },
    }
}

/// Relies on uzers::get_group_by_gid (`getgrgid_r`): the group database
/// counterpart of [`lookup_user_name`].
#[verifier::external_body]
fn lookup_group_name(gid: u32) -> (r: NameLookup) {
    match uzers::get_group_by_gid(gid) {
        None => NameLookup::NoAccount,
        Some(group) => match group.name().to_str() {
            None => NameLookup::NotText,
            Some(name) => NameLookup::Found(name.to_string()),
        },
    }
}

/// Builds the identity for an id from the database's answer for that id:
/// exactly the found name is taken over, a missing account or an unreadable
/// name is rejected, and nothing is ever invented.
pub fn identity_from_lookup(is_user: bool, id: u32, found: NameLookup) -> (r: Result<
    Identity,
    IndentityConvertError,
>)
    ensures
        match found {
            NameLookup::Found(name) => r == Ok::<Identity, IndentityConvertError>(
                if is_user {
                    Identity::User { uid: id, name }
                } else {
                    Identity::Group { gid: id, name }
                },
            ),
            NameLookup::NoAccount => r == Err::<Identity, IndentityConvertError>(
                IndentityConvertError::UnknownUserOrGroup,
            ),
            NameLookup::NotText => r == Err::<Identity, IndentityConvertError>(
                IndentityConvertError::ValueParseError,
            ),
        },
{
    match found {
        NameLookup::Found(name) => Ok(
            if is_user {
                Identity::User { uid: id, name }
            } else {
                Identity::Group { gid: id, name }
            },
        ),
        NameLookup::NoAccount => Err(IndentityConvertError::UnknownUserOrGroup),
        NameLookup::NotText => Err(IndentityConvertError::ValueParseError),
    }
}

impl WireIdentity {
    /// The first value this record lists under `key`, if any.
    fn find_detail(&self, key: &str) -> (r: Option<WireValue>)
        ensures
            r == lookup_detail(self.details@, key@),
    {
        let n = self.details.len();
        let mut i: usize = 0;
        proof {
            assert(self.details@.skip(0) =~= self.details@);
        }
        while i < n
            invariant
                i <= n,
                n == self.details@.len(),
                lookup_detail(self.details@, key@) == lookup_detail(
                    self.details@.skip(i as int),
                    key@,
                ),
            decreases n - i,
        {
            proof {
                assert(self.details@.skip(i as int)[0] == self.details@[i as int]);
            }
            if str_eq(self.details[i].0.as_str(), key) {
                return Some(self.details[i].1);
            }
            proof {
                assert(self.details@.skip(i as int).skip(1) =~= self.details@.skip(i + 1));
            }
            i += 1;
        }
        None
    }
}

/// Resolution succeeded on this record and produced this identity: the
/// record designates exactly the identity's kind and id.
pub open spec fn resolves_target(w: WireIdentity, ident: Identity) -> bool {
    wire_target(&w) == Ok::<(bool, u32), IndentityConvertError>(
        (ident is User, ident.spec_id()),
    )
}

/// Resolution of this record may fail with this error: either the record
/// itself is rejected with it, or the record is well-formed and the account
/// database can still answer with a missing account or an unreadable name.
pub open spec fn may_fail_with(w: WireIdentity, e: IndentityConvertError) -> bool {
    ||| wire_target(&w) == Err::<(bool, u32), IndentityConvertError>(e)
    ||| (wire_target(&w) is Ok && (e == IndentityConvertError::UnknownUserOrGroup
        || e == IndentityConvertError::ValueParseError))
}

/// Resolves one wire record against the system account database.
///
/// The record alone decides kind and id (see [`wire_target`]); the database
/// decides whether the id has an account and under which name. A record of
/// unknown kind, with the needed attribute missing, or with an attribute
/// that is not an unsigned 32-bit id is rejected without a lookup.
pub fn resolve(wire: &WireIdentity) -> (r: Result<Identity, IndentityConvertError>)
    ensures
        wire_target(wire) matches Err(e) ==> r == Err::<Identity, IndentityConvertError>(e),
        wire_target(wire) matches Ok(t) ==> match r {
            Ok(ident) => ident.spec_id() == t.1 && ((ident is User) <==> t.0),
            Err(e) => e == IndentityConvertError::UnknownUserOrGroup
                || e == IndentityConvertError::ValueParseError,
        },
        wire.kind@ != "unix-user"@ && wire.kind@ != "unix-group"@ ==> r
            == Err::<Identity, IndentityConvertError>(IndentityConvertError::UnknownKind),
{
    let is_user = if str_eq(wire.kind.as_str(), "unix-user") {
        true
    } else if str_eq(wire.kind.as_str(), "unix-group") {
        false
    } else {
        return Err(IndentityConvertError::UnknownKind);
    };
    let key = if is_user { "uid" } else { "gid" };
    let id = match wire.find_detail(key) {
        None => {
            return Err(IndentityConvertError::IncorrectDetails);
        },
        Some(WireValue::U32(id)) => id,
        Some(WireValue::Other) => {
            return Err(IndentityConvertError::ValueParseError);
        },
    };
    let found = if is_user {
        lookup_user_name(id)
    } else {
        lookup_group_name(id)
    };
    identity_from_lookup(is_user, id, found)
}

/// Resolves every record of one request, in order, and fails the whole
/// request on the first record that does not resolve: an ambiguous identity
/// must not be offered for authentication.
pub fn resolve_all(wires: &Vec<WireIdentity>) -> (r: Result<Vec<Identity>, IndentityConvertError>)
    ensures
        r matches Ok(ids) ==> ids@.len() == wires@.len() && forall|i: int|
            0 <= i < wires@.len() ==> resolves_target(wires@[i], #[trigger] ids@[i]),
        r matches Err(e) ==> exists|i: int|
            0 <= i < wires@.len() && may_fail_with(#[trigger] wires@[i], e),
        (exists|i: int| 0 <= i < wires@.len() && wire_target(&wires@[i]) is Err) ==> r is Err,
{
    let n = wires.len();
    let mut out: Vec<Identity> = Vec::new();
    let mut i: usize = 0;
    while i < n
        invariant
            i <= n,
            n == wires@.len(),
            out@.len() == i,
            forall|j: int| 0 <= j < i ==> resolves_target(wires@[j], #[trigger] out@[j]),
            forall|j: int| 0 <= j < i ==> wire_target(&wires@[j]) is Ok,
        decreases n - i,
    {
        match resolve(&wires[i]) {
            Ok(ident) => {
                out.push(ident);
            },
            Err(e) => {
                proof {
                    assert(may_fail_with(wires@[i as int], e));
                }
                return Err(e);
            },
        }
        i += 1;
    }
    Ok(out)
}

/// Compares two string slices character by character.
pub fn str_eq(a: &str, b: &str) -> (r: bool)
    ensures
        r == (a@ == b@),
{
    let alen = a.unicode_len();
    let blen = b.unicode_len();
    if alen != blen {
        return false;
    }
    let mut i: usize = 0;
    while i < alen
        invariant
            i <= alen,
            alen == a@.len(),
            alen == b@.len(),
            forall|j: int| 0 <= j < i ==> a@[j] == b@[j],
        decreases alen - i,
    {
        if a.get_char(i) != b.get_char(i) {
            return false;
        }
        i += 1;
    }
    proof {
        assert(a@ =~= b@);
    }
    true
}

} // verus!
