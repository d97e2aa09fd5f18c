//! The per-request session value and the records derived from it.
//!
//! A session is created once per authorization request and is read-only for
//! its whole lifetime: the human-readable message, the icon, the correlation
//! cookie the authorization service issued, and the candidate identities
//! that may satisfy the request. From it the agent derives the input record
//! for the interactive prompt and, once an identity has been verified, the
//! input record for the privilege-elevated responder helper.

use vstd::prelude::*;

use crate::codec::{
    encode_prompt_input, encode_responder_input, identity_kind, spec_encode_prompt,
    spec_encode_responder,
};
use crate::identity::Identity;

verus! {

/// Data of an authentication session.
#[derive(Debug)]
pub struct Session {
    /// Nature of the authentication, shown to the human.
    pub message: String,
    /// Icon of the requesting application.
    pub icon_name: String,
    /// Cookie identifying the session towards the authorization service.
    pub cookie: String,
    /// Identities that can be used to authenticate.
    pub identities: Vec<Identity>,
}

/// Data passed to the prompt program.
#[derive(Debug)]
pub struct PromptInput {
    /// Message to display in the prompt.
    pub message: String,
    /// Identities which can authenticate for this session.
    pub users: Vec<Identity>,
}

/// Information returned by a prompt.
#[derive(Debug)]
pub struct PromptResponse {
    /// uid or gid of the identity which authenticated.
    pub id: u32,
    /// The credential to check, in plain text. Never persisted beyond the
    /// one verification call, and never logged.
    pub password: String,
}

/// Data passed to the responder program: the minimal payload crossing the
/// privilege boundary. It carries no credential material, only the already
/// verified identity and the correlation cookie.
#[derive(Debug)]
pub struct ResponderInput {
    pub agent_uid: u32,
    pub cookie: String,
    pub identity: Identity,
}

/// The first candidate identity carrying this id, if any: users are matched
/// by uid, groups by gid.
pub open spec fn spec_select(ids: Seq<Identity>, id: u32) -> Option<Identity>
    decreases ids.len(),
{
    if ids.len() == 0 {
        None
    } else if ids[0].spec_id() == id {
        Some(ids[0])
    } else {
        spec_select(ids.skip(1), id)
    }
}

impl Session {
    pub fn new(message: String, icon_name: String, cookie: String, identities: Vec<Identity>) -> (r:
        Session)
        ensures
            r.message == message,
            r.icon_name == icon_name,
            r.cookie == cookie,
            r.identities == identities,
    {
        Session { message, icon_name, cookie, identities }
    }

    /// The first candidate identity carrying this id, cloned out of the
    /// session.
    pub fn select_identity(&self, id: u32) -> (r: Option<Identity>)
        ensures
            r == spec_select(self.identities@, id),
    {
        let n = self.identities.len();
        let mut i: usize = 0;
        proof {
            assert(self.identities@.skip(0) =~= self.identities@);
        }
        while i < n
            invariant
                i <= n,
                n == self.identities@.len(),
                spec_select(self.identities@, id) == spec_select(
                    self.identities@.skip(i as int),
                    id,
                ),
            decreases n - i,
        {
            proof {
                assert(self.identities@.skip(i as int)[0] == self.identities@[i as int]);
            }
            if self.identities[i].id() == id {
                return Some(self.identities[i].clone());
            }
            proof {
                assert(self.identities@.skip(i as int).skip(1) =~= self.identities@.skip(i + 1));
            }
            i += 1;
        }
        None
    }

    /// The record handed to the prompt program: the message and the
    /// candidate identities, copied out of the session.
    pub fn create_prompt_input(&self) -> (r: PromptInput)
        ensures
            r.message@ == self.message@,
            r.users@ =~= self.identities@,
    {
        let users = self.identities.clone();
        proof {
            assert(users@ =~= self.identities@);
        }
        PromptInput { message: self.message.clone(), users }
    }

    /// The record handed to the responder helper for the chosen id: the
    /// agent's own uid, the session cookie, and the matching candidate
    /// identity. None when no candidate carries the id.
    pub fn create_responder_input(&self, id: u32) -> (r: Option<ResponderInput>)
        ensures
            match r {
                Some(input) => spec_select(self.identities@, id) == Some(input.identity)
                    && input.cookie@ == self.cookie@,
                None => spec_select(self.identities@, id) is None,
            },
    {
        match self.select_identity(id) {
            Some(identity) => Some(
                ResponderInput { agent_uid: current_uid(), cookie: self.cookie.clone(), identity },
            ),
            None => None,
        }
    }

    /// Generates the input to give to the responder through its input
    /// channel: the encoded responder record for the chosen id, or none
    /// when no candidate identity carries the id.
    pub fn serialize_to_responder(&self, id: u32) -> (r: Option<String>)
        ensures
            match r {
                Some(s) => (spec_select(self.identities@, id) matches Some(ident) && exists|
                    uid: u32,
                |
                    s@ == spec_encode_responder(
                        uid,
                        self.cookie@,
                        identity_kind(ident),
                        ident.spec_id(),
                    )),
                None => spec_select(self.identities@, id) is None,
            },
    {
        match self.create_responder_input(id) {
            Some(input) => {
                let s = encode_responder_input(&input);
                proof {
                    assert(s@ == spec_encode_responder(
                        input.agent_uid,
                        self.cookie@,
                        identity_kind(input.identity),
                        input.identity.spec_id(),
                    ));
                }
                Some(s)
            },
            None => None,
        }
    }

    /// The encoded prompt input record for this session's candidates and
    /// message, as written to the prompt program's input channel.
    pub fn serialize_users_to_prompt(&self) -> (r: String)
        ensures
            r@ == spec_encode_prompt(self.message@, self.identities@),
    {
        let input = self.create_prompt_input();
        encode_prompt_input(&input)
    }
}

/// Relies on nix::unistd::getuid: the real uid of the calling process. The
/// answer is the process's, so nothing is promised of it.
#[verifier::external_body]
fn current_uid() -> (r: u32) {
    nix::unistd::getuid().as_raw()
}

} // verus!
