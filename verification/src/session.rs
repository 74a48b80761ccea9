//! The sessions and message listeners kept for one user, oldest first, with
//! a limit on how many live at once.
use std::collections::VecDeque;
use std::sync::Arc;
use vstd::prelude::*;

use crate::domain::RepositoryError;

verus! {

/// The sessions of one user, oldest first.
pub struct UserSessions {
    pub sessions: VecDeque<u128>,
}

impl UserSessions {
    /// No session.
    pub fn new() -> (s: Self)
        ensures
            s.sessions@ == Seq::<u128>::empty(),
    {
        UserSessions { sessions: VecDeque::new() }
    }

    /// Adds a new session. When the user already has `max` sessions or
    /// more, the oldest is evicted first and returned, for the caller to
    /// remove from the store.
    pub fn create_session(&mut self, session_id: u128, max: usize) -> (evicted: Option<u128>)
        ensures
            old(self).sessions@.len() >= max && old(self).sessions@.len() > 0 ==> evicted == Some(
                old(self).sessions@[0],
            ) && final(self).sessions@ == old(self).sessions@.drop_first().push(session_id),
            !(old(self).sessions@.len() >= max && old(self).sessions@.len() > 0) ==> evicted is None
                && final(self).sessions@ == old(self).sessions@.push(session_id),
    {
        let mut evicted: Option<u128> = None;
        if self.sessions.len() >= max {
            evicted = self.sessions.pop_front();
        }
        self.sessions.push_back(session_id);
        evicted
    }

    /// Forgets a session: every entry with its id goes.
    pub fn delete_session(&mut self, session_id: u128)
        ensures
            final(self).sessions@ == old(self).sessions@.filter(|x: u128| x != session_id),
    {
        let mut kept: VecDeque<u128> = VecDeque::new();
        let ghost old_s = self.sessions@;
        let mut i: usize = 0;
        while i < self.sessions.len()
            invariant
                self.sessions@ == old_s,
                i <= old_s.len(),
                kept@ == old_s.take(i as int).filter(|x: u128| x != session_id),
            decreases old_s.len() - i,
        {
            let x = self.sessions[i];
            proof {
                reveal(Seq::filter);
                assert(old_s.take(i + 1).drop_last() =~= old_s.take(i as int));
                assert(old_s.take(i + 1).last() == x);
            }
            if x != session_id {
                kept.push_back(x);
            }
            i += 1;
        }
        proof {
            assert(old_s.take(i as int) =~= old_s);
        }
        self.sessions = kept;
    }
}

/// A user never holds more than `max` sessions (for `max` at least one),
/// however many are created.
pub proof fn law_sessions_stay_within_limit(before: Seq<u128>, after: Seq<u128>, id: u128, max: nat)
    requires
        max >= 1,
        before.len() <= max,
        before.len() >= max && before.len() > 0 ==> after == before.drop_first().push(id),
        !(before.len() >= max && before.len() > 0) ==> after == before.push(id),
    ensures
        after.len() <= max,
        after.last() == id,
{
}

/// The message listeners of one user, newest first.
pub struct UserListeners<L> {
    pub listeners: VecDeque<L>,
}

impl<L> UserListeners<L> {
    /// No listener.
    pub fn new() -> (s: Self)
        ensures
            s.listeners@ == Seq::<L>::empty(),
    {
        UserListeners { listeners: VecDeque::new() }
    }

    /// Adds a listener in front (newest first); when the user has exactly
    /// `max` listeners, the oldest one, at the back, goes first.
    pub fn add_listener(&mut self, listener: L, max: usize)
        ensures
            old(self).listeners@.len() == max && max > 0 ==> final(self).listeners@ == seq![listener]
                + old(self).listeners@.drop_last(),
            !(old(self).listeners@.len() == max && max > 0) ==> final(self).listeners@ == seq![listener]
                + old(self).listeners@,
    {
        if self.listeners.len() == max {
            let _ = self.listeners.pop_back();
        }
        self.listeners.push_front(listener);
    }

    /// Keeps the listeners whose session check succeeded (`alive[k]` for the
    /// `k`-th listener), in order; returns whether none is left.
    pub fn keep_alive(&mut self, alive: &Vec<bool>) -> (empty: bool)
        requires
            alive@.len() == old(self).listeners@.len(),
        ensures
            final(self).listeners@ == kept_listeners(old(self).listeners@, alive@),
            empty == (final(self).listeners@.len() == 0),
    {
        let mut kept: VecDeque<L> = VecDeque::new();
        let ghost old_l = self.listeners@;
        let mut i: usize = 0;
        while i < alive.len()
            invariant
                i <= alive@.len(),
                alive@.len() == old_l.len(),
                self.listeners@ == old_l.skip(i as int),
                kept@ == kept_listeners(old_l.take(i as int), alive@.take(i as int)),
            decreases alive@.len() - i,
        {
            let popped = self.listeners.pop_front();
            if let Some(l) = popped {
                proof {
                    assert(old_l.take(i + 1).drop_last() =~= old_l.take(i as int));
                    assert(alive@.take(i + 1).drop_last() =~= alive@.take(i as int));
                    assert(old_l.take(i + 1).last() == l);
                    assert(alive@.take(i + 1).last() == alive@[i as int]);
                    assert(self.listeners@ =~= old_l.skip(i + 1));
                }
                if alive[i] {
                    kept.push_back(l);
                }
            }
            i += 1;
        }
        proof {
            assert(old_l.take(i as int) =~= old_l);
            assert(alive@.take(i as int) =~= alive@);
        }
        self.listeners = kept;
        self.listeners.len() == 0
    }
}

/// The listeners whose check succeeded, in order.
pub open spec fn kept_listeners<L>(l: Seq<L>, alive: Seq<bool>) -> Seq<L>
    decreases l.len(),
{
    if l.len() == 0 || alive.len() != l.len() {
        Seq::empty()
    } else if alive.last() {
        kept_listeners(l.drop_last(), alive.drop_last()).push(l.last())
    } else {
        kept_listeners(l.drop_last(), alive.drop_last())
    }
}

/// The message service; the listener service, the repository and the order
/// service are reached by the caller.
pub struct MessageServiceImpl<MLS, NR, OS> {
    pub listener_service: Arc<MLS>,
    pub notify_repository: Arc<NR>,
    pub order_service: Arc<OS>,
}

impl<MLS, NR, OS> MessageServiceImpl<MLS, NR, OS> {
    /// A service over the listener service, the notification repository and
    /// the order service.
    pub fn new(listener_service: Arc<MLS>, notify_repository: Arc<NR>, order_service: Arc<OS>) -> (s: Self)
        ensures
            s.listener_service == listener_service,
            s.notify_repository == notify_repository,
            s.order_service == order_service,
    {
        Self { listener_service, notify_repository, order_service }
    }
}

/// A login session of a user, valid until `expires_at` (seconds).
#[derive(Debug, Clone, Copy, PartialEq, Eq)]
pub struct Session {
    pub session_id: u128,
    pub user_id: u64,
    pub created_at: i64,
    pub expires_at: i64,
}

/// A session is expired once the time is past its expiry.
pub open spec fn is_expired(s: Session, now: i64) -> bool {
    now > s.expires_at
}

/// The session manager: the per-user session lists are kept by
/// `UserSessions`; the store is reached by the caller.
pub struct SessionManagerServiceImpl<R> {
    pub session_repository: Arc<R>,
    pub max_concurrent_sessions_per_user: usize,
    pub default_ttl: i64,
}

impl<R> SessionManagerServiceImpl<R> {
    /// A manager over the session store with its limits.
    pub fn new(session_repository: Arc<R>, max_concurrent_sessions_per_user: usize, default_ttl: i64) -> (s: Self)
        ensures
            s.session_repository == session_repository,
            s.max_concurrent_sessions_per_user == max_concurrent_sessions_per_user,
            s.default_ttl == default_ttl,
    {
        Self { session_repository, max_concurrent_sessions_per_user, default_ttl }
    }

    /// A new session of the user, created at `now` and valid for the
    /// default time to live.
    pub fn new_session(&self, session_id: u128, user_id: u64, now: i64) -> (s: Session)
        requires
            i64::MIN <= now + self.default_ttl <= i64::MAX,
        ensures
            s == (Session { session_id, user_id, created_at: now, expires_at: (now + self.default_ttl) as i64 }),
    {
        Session { session_id, user_id, created_at: now, expires_at: now + self.default_ttl }
    }

    /// The session found under an id, as seen at time `now`: none when it
    /// does not exist or has expired.
    pub fn get_session(&self, found: Result<Option<Session>, RepositoryError>, now: i64) -> (r: Result<
        Option<Session>,
        RepositoryError,
    >)
        ensures
            match found {
                Err(e) => r == Err::<Option<Session>, _>(e),
                Ok(None) => r == Ok::<Option<Session>, RepositoryError>(None),
                Ok(Some(s)) => r == Ok::<Option<Session>, RepositoryError>(
                    if is_expired(s, now) {
                        None
                    } else {
                        Some(s)
                    },
                ),
            },
    {
        match found {
            Err(e) => Err(e),
            Ok(None) => Ok(None),
            Ok(Some(s)) => {
                if now > s.expires_at {
                    Ok(None)
                } else {
                    Ok(Some(s))
                }
            },
        }
    }

    /// The user of the session found under an id; the expiry is not
    /// checked here.
    pub fn get_user_id_by_session(&self, found: Result<Option<Session>, RepositoryError>) -> (r: Result<
        Option<u64>,
        RepositoryError,
    >)
        ensures
            match found {
                Err(e) => r == Err::<Option<u64>, _>(e),
                Ok(None) => r == Ok::<Option<u64>, RepositoryError>(None),
                Ok(Some(s)) => r == Ok::<Option<u64>, RepositoryError>(Some(s.user_id)),
            },
    {
        match found {
            Err(e) => Err(e),
            Ok(None) => Ok(None),
            Ok(Some(s)) => Ok(Some(s.user_id)),
        }
    }
}

/// What `uuid::Uuid::parse_str` reads from a text: the UUID, or `None` when
/// the text is not one.
pub uninterp spec fn uuid_parsed(text: Seq<char>) -> Option<u128>;

/// Reads a UUID with `uuid::Uuid::parse_str` (then `as_u128`); claimed: the
/// named reading of the text.
#[verifier::external_body]
fn parse_uuid(text: &String) -> (r: Option<u128>)
    ensures
        r == uuid_parsed(text@),
{
    match uuid::Uuid::parse_str(text) {
        Ok(u) => Some(u.as_u128()),
        Err(_) => None,
    }
}

/// Why a session id given by a client was refused.
#[derive(Debug, Clone, Copy, PartialEq, Eq)]
pub enum SessionIdError {
    InvalidSessionId,
}

/// The session id that a client sent as text: session ids are UUIDs, and a
/// text that is not one is refused.
pub fn session_id_of(text: &String) -> (r: Result<u128, SessionIdError>)
    ensures
        match uuid_parsed(text@) {
            None => r == Err::<u128, _>(SessionIdError::InvalidSessionId),
            Some(id) => r == Ok::<u128, SessionIdError>(id),
        },
{
    match parse_uuid(text) {
        None => Err(SessionIdError::InvalidSessionId),
        Some(id) => Ok(id),
    }
}

} // verus!
