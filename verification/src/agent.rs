//! The long-lived agent object: the table of in-flight sessions.
//!
//! The authorization service may begin and cancel authentications
//! concurrently for different cookies. The one piece of state shared across
//! sessions is this table, mapping each in-flight cookie to the sending
//! half of that session's cancellation channel. An entry lives exactly as
//! long as one authentication loop: registered when the session begins,
//! removed when the loop terminates by any path, and never duplicated.

use vstd::prelude::*;

use crate::identity::{
    may_fail_with, resolve_all, resolves_target, str_eq, wire_target, IndentityConvertError,
    WireIdentity,
};
use crate::session::Session;

verus! {

/// Relies on smol::channel::Sender (async-channel): the sending half of a
/// session's cancellation channel. Opaque to the library; the caller
/// creates the channel and keeps the receiving half in the session's loop.
#[verifier::external_type_specification]
#[verifier::external_body]
#[verifier::reject_recursive_types(T)]
pub struct ExSender<T>(smol::channel::Sender<T>);

/// Relies on smol::channel::Sender::try_send: delivers one cancellation
/// signal without blocking; it fails only on a closed or full channel, and
/// the cancellation channels are unbounded. Nothing is promised of the
/// answer: a signal may always find its receiver already gone.
#[verifier::external_body]
fn send_signal(sender: &smol::channel::Sender<()>) -> (r: bool) {
    sender.try_send(()).is_ok()
}

/// One in-flight session: its cookie and the sending half of its
/// cancellation channel.
pub struct SessionEntry {
    pub cookie: String,
    pub cancel: smol::channel::Sender<()>,
}

/// Global state for the agent: the table of in-flight sessions and the
/// path of the prompt program.
pub struct Agent {
    pub sessions: Vec<SessionEntry>,
    pub prompt_path: String,
}

impl Agent {
    /// A session with this cookie is in flight.
    pub open spec fn spec_has(&self, cookie: Seq<char>) -> bool {
        exists|i: int|
            0 <= i < self.sessions@.len() && self.sessions@[i].cookie@ == cookie
    }

    /// At most one live entry per cookie.
    pub open spec fn wf(&self) -> bool {
        forall|i: int, j: int|
            0 <= i < j < self.sessions@.len() ==> self.sessions@[i].cookie@
                != self.sessions@[j].cookie@
    }

    pub fn new(prompt_path: String) -> (r: Agent)
        ensures
            r.wf(),
            r.sessions@.len() == 0,
            r.prompt_path == prompt_path,
    {
        Agent { sessions: Vec::new(), prompt_path }
    }

    /// The index of the entry with this cookie, if any.
    fn find(&self, cookie: &str) -> (r: Option<usize>)
        ensures
            match r {
                Some(i) => i < self.sessions@.len() && self.sessions@[i as int].cookie@ == cookie@,
                None => !self.spec_has(cookie@),
            },
    {
        let n = self.sessions.len();
        let mut i: usize = 0;
        while i < n
            invariant
                i <= n,
                n == self.sessions@.len(),
                forall|j: int| 0 <= j < i ==> self.sessions@[j].cookie@ != cookie@,
            decreases n - i,
        {
            if str_eq(self.sessions[i].cookie.as_str(), cookie) {
                return Some(i);
            }
            i += 1;
        }
        None
    }

    /// Whether a session with this cookie is in flight.
    pub fn has_session(&self, cookie: &str) -> (r: bool)
        ensures
            r == self.spec_has(cookie@),
    {
        match self.find(cookie) {
            Some(i) => {
                proof {
                    assert(self.sessions@[i as int].cookie@ == cookie@);
                }
                true
            },
            None => false,
        }
    }

    /// Begins an authentication session.
    ///
    /// Resolves every wire identity record (4-tuple errors as in
    /// [`resolve_all`]); on any resolution failure the call returns the
    /// error and the table is untouched — a session is never registered
    /// half-built. On success the cookie is registered with its
    /// cancellation sender and the immutable session value is handed back;
    /// the caller drives the prompt loop from [`crate::machine::step`] and
    /// reports termination through [`Agent::finish_session`]. The
    /// authorization service keeps cookies of concurrently open sessions
    /// unique, so a begin for an in-flight cookie is ruled out here.
    pub fn begin_authentication(
        &mut self,
        message: String,
        icon_name: String,
        cookie: String,
        identities: &Vec<WireIdentity>,
        cancel: smol::channel::Sender<()>,
    ) -> (r: Result<Session, IndentityConvertError>)
        requires
            old(self).wf(),
            !old(self).spec_has(cookie@),
        ensures
            final(self).wf(),
            final(self).prompt_path == old(self).prompt_path,
            match r {
                Ok(sess) => final(self).sessions@ == old(self).sessions@.push(
                    (SessionEntry { cookie, cancel }),
                ) && final(self).spec_has(cookie@) && sess.message == message && sess.icon_name
                    == icon_name && sess.cookie@ == cookie@ && sess.identities@.len()
                    == identities@.len() && forall|i: int|
                    0 <= i < identities@.len() ==> resolves_target(
                        identities@[i],
                        #[trigger] sess.identities@[i],
                    ),
                Err(e) => *final(self) == *old(self) && exists|i: int|
                    0 <= i < identities@.len() && may_fail_with(#[trigger] identities@[i], e),
            },
            (exists|i: int| 0 <= i < identities@.len() && wire_target(&identities@[i]) is Err)
                ==> r is Err,
    {
        let resolved = match resolve_all(identities) {
            Ok(ids) => ids,
            Err(e) => {
                return Err(e);
            },
        };
        let session = Session::new(message, icon_name, cookie.clone(), resolved);
        self.sessions.push(SessionEntry { cookie, cancel });
        proof {
            let entries = self.sessions@;
            assert forall|i: int, j: int|
                0 <= i < j < entries.len() implies entries[i].cookie@ != entries[j].cookie@ by {
                if j == entries.len() - 1 {
                    assert(!old(self).spec_has(entries[j].cookie@));
                }
            }
            assert(self.spec_has(entries.last().cookie@));
        }
        Ok(session)
    }

    /// Ends a session by any path: removes the cookie's table entry.
    ///
    /// Removing an absent cookie is a no-op, and no other session's entry
    /// is ever touched: errors local to one session never disturb the
    /// table's consistency for other cookies.
    pub fn finish_session(&mut self, cookie: &str)
        requires
            old(self).wf(),
        ensures
            final(self).wf(),
            final(self).prompt_path == old(self).prompt_path,
            !final(self).spec_has(cookie@),
            forall|c: Seq<char>|
                c != cookie@ ==> (final(self).spec_has(c) <==> old(self).spec_has(c)),
            old(self).spec_has(cookie@) ==> final(self).sessions@.len() == old(
                self,
            ).sessions@.len() - 1,
            !old(self).spec_has(cookie@) ==> *final(self) == *old(self),
    {
        match self.find(cookie) {
            Some(i) => {
                let ghost before = self.sessions@;
                self.sessions.remove(i);
                proof {
                    let after = self.sessions@;
                    assert forall|k: int| 0 <= k < after.len() implies after[k]
                        == (if k < i as int {
                        before[k]
                    } else {
                        before[k + 1]
                    }) by {}
                    assert forall|k: int| 0 <= k < after.len() implies after[k].cookie@
                        != cookie@ by {
                        if k < i as int {
                            assert(before[k].cookie@ != before[i as int].cookie@);
                        } else {
                            assert(before[k + 1].cookie@ != before[i as int].cookie@);
                        }
                    }
                    assert forall|c: Seq<char>|
                        c != cookie@ && old(self).spec_has(c) implies self.spec_has(c) by {
                        let w = choose|w: int|
                            0 <= w < before.len() && before[w].cookie@ == c;
                        if w < i as int {
                            assert(after[w].cookie@ == c);
                        } else {
                            assert(after[w - 1].cookie@ == c);
                        }
                    }
                }
            },
            None => {},
        }
    }

    /// Signals cancellation for this cookie.
    ///
    /// For an in-flight cookie the session's cancellation channel is
    /// signalled exactly once and the result is true; for a cookie with no
    /// live session — already terminated, or never begun — this is a
    /// no-op that still succeeds, reporting false. The table itself is
    /// never changed, and a cancellation can never be misdirected to
    /// another cookie's session.
    pub fn cancel_authentication(&self, cookie: &str) -> (r: bool)
        ensures
            r == self.spec_has(cookie@),
    {
        match self.find(cookie) {
            Some(i) => {
                proof {
                    assert(self.sessions@[i as int].cookie@ == cookie@);
                }
                let _ = send_signal(&self.sessions[i].cancel);
                true
            },
            None => false,
        }
    }
}

} // verus!
