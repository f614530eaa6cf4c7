//! Administrative sessions: randomly minted session ids, per-session
//! activity timestamps with a timeout, and the authentication state a
//! request carries. Wall-clock time reaches this module only as an
//! argument, in milliseconds.

use vstd::prelude::*;

verus! {

/// How long a session survives without activity, in milliseconds.
pub const SESSION_TIMEOUT_MS: u64 = 60 * 60 * 1000;

/// An unguessable session identifier.
#[derive(Clone, Copy, Debug, Hash, PartialEq, Eq, Structural)]
pub struct SessionId(pub u128);

/// What one session remembers: whose it is and when it was last used.
#[derive(Clone, Copy, Debug)]
pub struct SessionData {
    pub user_id: i64,
    pub last_activity: u64,
}

/// A stored administrative account. The password field holds the salted
/// hash, never the password itself.
#[derive(Clone, Debug)]
pub struct User {
    pub id: i64,
    pub username: String,
    pub password: String,
}

/// Whether a request is backed by a live session, and by whose.
#[derive(Clone, Debug)]
pub struct AuthState(pub Option<User>);

/// The credentials a login form submits.
#[derive(Clone, Debug)]
pub struct LoginData {
    pub username: String,
    pub password: String,
}

/// Why a login failed. Invalid names and invalid credentials are reported
/// to the user identically, so a caller cannot probe which names exist.
#[derive(Clone, Copy, Debug, PartialEq, Eq, Structural)]
pub enum LoginError {
    InvalidCredentials,
    InvalidUsername,
    InternalError,
}

impl LoginError {
    /// The message shown to the user.
    pub fn message(&self) -> (r: &'static str)
        ensures
            (*self == LoginError::InternalError) ==> r@ =~= "Internal error"@,
            (*self != LoginError::InternalError) ==> r@ =~= "Invalid credentials"@,
    {
        match self {
            LoginError::InvalidCredentials => "Invalid credentials",
            LoginError::InvalidUsername => "Invalid credentials",
            LoginError::InternalError => "Internal error",
        }
    }
}

/// Relies on `rand::random`: an unpredictable value; nothing is promised
/// of which value comes out.
#[verifier::external_body]
fn random_u128() -> u128 {
    rand::random()
}

impl SessionId {
    /// Mint an unguessable session id.
    pub fn new() -> (r: SessionId)
    {
        SessionId(random_u128())
    }

    /// The raw value of the id.
    pub fn as_u128(&self) -> (r: u128)
        ensures
            r == self.0,
    {
        self.0
    }
}

impl SessionData {
    /// A fresh session for `user_id`, last used now.
    pub fn new(user_id: i64, now_ms: u64) -> (r: SessionData)
        ensures
            r.user_id == user_id,
            r.last_activity == now_ms,
    {
        SessionData { user_id, last_activity: now_ms }
    }

    /// Whether the session is still live at `now_ms`: it has been used
    /// within the timeout. A clock that moved backwards counts as live.
    pub fn is_live(&self, now_ms: u64) -> (r: bool)
        ensures
            r == (now_ms <= self.last_activity || now_ms - self.last_activity
                <= SESSION_TIMEOUT_MS),
    {
        now_ms <= self.last_activity || now_ms - self.last_activity <= SESSION_TIMEOUT_MS
    }
}

impl AuthState {
    /// Whether a user is behind this request.
    pub fn is_authenticated(&self) -> (r: bool)
        ensures
            r == (self.0 is Some),
    {
        self.0.is_some()
    }

    /// The user behind this request, if any.
    pub fn user(&self) -> (r: Option<&User>)
        ensures
            match r {
                Some(u) => self.0 matches Some(v) && u == v,
                None => self.0 is None,
            },
    {
        self.0.as_ref()
    }
}

/// The live sessions, each at most once per id.
pub struct SessionStore {
    pub sessions: Vec<(SessionId, SessionData)>,
}

/// The first stored index carrying `id`, if any.
pub open spec fn spec_find_session(
    sessions: Seq<(SessionId, SessionData)>,
    id: SessionId,
) -> Option<int>
    decreases sessions.len(),
{
    if sessions.len() == 0 {
        Option::None
    } else if sessions[0].0 == id {
        Option::Some(0)
    } else {
        match spec_find_session(sessions.skip(1), id) {
            Option::Some(i) => Option::Some(i + 1),
            Option::None => Option::None,
        }
    }
}

/// A found index is in range and carries `id`.
pub proof fn lemma_find_session(sessions: Seq<(SessionId, SessionData)>, id: SessionId)
    ensures
        match spec_find_session(sessions, id) {
            Option::Some(i) => 0 <= i < sessions.len() && sessions[i].0 == id,
            Option::None => forall|i: int|
                0 <= i < sessions.len() ==> (#[trigger] sessions[i]).0 != id,
        },
    decreases sessions.len(),
{
    if sessions.len() > 0 && sessions[0].0 != id {
        lemma_find_session(sessions.skip(1), id);
        let d = spec_find_session(sessions.skip(1), id);
        if d is Some {
            assert(sessions.skip(1)[d->0] == sessions[d->0 + 1]);
        } else {
            assert forall|i: int|
                0 <= i < sessions.len() implies (#[trigger] sessions[i]).0 != id by {
                if i > 0 {
                    assert(sessions.skip(1)[i - 1] == sessions[i]);
                }
            }
        }
    }
}

impl SessionStore {
    /// No sessions yet.
    pub fn new() -> (r: SessionStore)
        ensures
            r.sessions@.len() == 0,
    {
        SessionStore { sessions: Vec::new() }
    }

    /// Store a session under its id.
    pub fn insert(&mut self, id: SessionId, data: SessionData)
        ensures
            final(self).sessions@ == old(self).sessions@.push((id, data)),
    {
        self.sessions.push((id, data));
    }

    /// Check a presented session id at `now_ms`: a live session renews its
    /// activity and names its user; a missing or expired session names
    /// nobody (an expired one stays stored, as dead weight, never live
    /// again until overwritten).
    pub fn check(&mut self, id: SessionId, now_ms: u64) -> (r: Option<i64>)
        ensures
            match spec_find_session(old(self).sessions@, id) {
                Option::Some(i) => {
                    let entry = old(self).sessions@[i];
                    if now_ms <= entry.1.last_activity || now_ms - entry.1.last_activity
                        <= SESSION_TIMEOUT_MS {
                        &&& r == Some(entry.1.user_id)
                        &&& final(self).sessions@ == old(self).sessions@.update(
                            i,
                            (
                                entry.0,
                                SessionData { last_activity: now_ms, user_id: entry.1.user_id },
                            ),
                        )
                    } else {
                        &&& r is None
                        &&& final(self).sessions@ == old(self).sessions@
                    }
                },
                Option::None => r is None && final(self).sessions@ == old(self).sessions@,
            },
    {
        proof {
            lemma_find_session(self.sessions@, id);
        }
        let n = self.sessions.len();
        let mut i: usize = 0;
        let mut found: Option<usize> = None;
        assert(self.sessions@.skip(0) =~= self.sessions@);
        while found.is_none() && i < n
            invariant
                i <= n,
                n == self.sessions@.len(),
                match found {
                    Some(f) => spec_find_session(self.sessions@, id) == Option::Some(f as int) && f
                        < n,
                    None => match spec_find_session(self.sessions@.skip(i as int), id) {
                        Option::Some(j) => spec_find_session(self.sessions@, id) == Option::Some(
                            j + i,
                        ),
                        Option::None => spec_find_session(self.sessions@, id) is None,
                    },
                },
            decreases n - i + (if found is Some { 0int } else { 1int }),
        {
            let ghost q = self.sessions@;
            assert(q.skip(i as int)[0] == q[i as int]);
            assert(q.skip(i as int).skip(1) =~= q.skip(i + 1));
            if self.sessions[i].0.0 == id.0 {
                assert(self.sessions@[i as int].0 == id);
                found = Some(i);
            } else {
                assert(self.sessions@[i as int].0 != id);
                i = i + 1;
            }
        }
        proof {
            if found is None {
                assert(self.sessions@.skip(i as int) =~= Seq::<(SessionId, SessionData)>::empty());
            }
        }
        match found {
            None => None,
            Some(f) => {
                let entry = self.sessions[f];
                if entry.1.is_live(now_ms) {
                    self.sessions[f] = (
                        entry.0,
                        SessionData { last_activity: now_ms, user_id: entry.1.user_id },
                    );
                    Some(entry.1.user_id)
                } else {
                    None
                }
            },
        }
    }
}

} // verus!
