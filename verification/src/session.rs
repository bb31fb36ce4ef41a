//! The session store: an expiring token-to-principal mapping, modelled as
//! explicit state with the clock passed in by the caller.
//!
//! A session lives for `SESSION_TTL_SECONDS` from its creation and resolving
//! it does not extend its life. Tokens are random; if a fresh token ever
//! collided with a stored one the old entry would be overwritten, exactly as
//! a key-value `SET` would do.

use vstd::prelude::*;

verus! {

/// Seconds a session stays resolvable after it is created: 24 hours.
pub const SESSION_TTL_SECONDS: u64 = 86400;

/// One stored session: an opaque token mapped to a principal until expiry.
#[derive(Debug)]
pub struct Session {
    pub token: String,
    pub principal_id: i64,
    pub expires_at: u64,
}

/// No two stored sessions carry the same token.
pub open spec fn tokens_unique(s: Seq<Session>) -> bool {
    forall|i: int, j: int| 0 <= i < j < s.len() ==> s[i].token@ != s[j].token@
}

/// What resolving `tok` at time `now` yields: the principal of the entry
/// holding the token, provided that entry has not expired.
pub open spec fn resolve_spec(s: Seq<Session>, tok: Seq<char>, now: u64) -> Option<i64> {
    if exists|i: int| 0 <= i < s.len() && s[i].token@ == tok {
        let i = choose|i: int| 0 <= i < s.len() && s[i].token@ == tok;
        if now < s[i].expires_at {
            Some(s[i].principal_id)
        } else {
            None
        }
    } else {
        None
    }
}

/// The session store. Its state stands for the contents of the expiring
/// key-value cache that backs sessions.
#[derive(Debug)]
pub struct RedisState {
    sessions: Vec<Session>,
}

impl View for RedisState {
    type V = Seq<Session>;

    closed spec fn view(&self) -> Seq<Session> {
        self.sessions@
    }
}

/// Relies on uuid's `Uuid::new_v4` and its `Display` form: a random
/// version-4 UUID rendered as 36 hyphenated lowercase hex characters.
/// The value is random, so nothing beyond its length is promised.
#[verifier::external_body]
fn fresh_token() -> (t: String)
    ensures
        t@.len() == 36,
{
    uuid::Uuid::new_v4().to_string()
}

impl RedisState {
    /// An empty store: no token resolves.
    pub fn init() -> (r: Self)
        ensures
            r@ =~= Seq::<Session>::empty(),
            tokens_unique(r@),
    {
        RedisState { sessions: Vec::new() }
    }

    /// Generates a fresh random token and maps it to `principal_id` until
    /// `now + SESSION_TTL_SECONDS`. Every session under a different token is
    /// kept unchanged; an entry under the same token (a collision) would be
    /// replaced.
    pub fn create_session(&mut self, principal_id: i64, now: u64) -> (token: String)
        requires
            tokens_unique(old(self)@),
            now <= u64::MAX - SESSION_TTL_SECONDS,
        ensures
            tokens_unique(final(self)@),
            token@.len() == 36,
            final(self)@.contains(
                Session {
                    token: token,
                    principal_id: principal_id,
                    expires_at: (now + SESSION_TTL_SECONDS) as u64,
                },
            ),
            forall|i: int|
                0 <= i < final(self)@.len() && final(self)@[i].token@ != token@
                    ==> old(self)@.contains(final(self)@[i]),
            forall|i: int|
                0 <= i < old(self)@.len() && old(self)@[i].token@ != token@
                    ==> final(self)@.contains(old(self)@[i]),
    {
        let token = fresh_token();
        self.delete_session(&token);
        let entry = Session {
            token: token.clone(),
            principal_id: principal_id,
            expires_at: now + SESSION_TTL_SECONDS,
        };
        let ghost cleaned = self@;
        self.sessions.push(entry);
        proof {
            assert(self@ == cleaned.push(entry));
            assert(self@[self@.len() - 1] == entry);
            assert forall|i: int|
                0 <= i < self@.len() && self@[i].token@ != token@
                    implies old(self)@.contains(self@[i]) by {
                assert(self@[i] == cleaned[i]);
            }
            assert forall|i: int|
                0 <= i < old(self)@.len() && old(self)@[i].token@ != token@
                    implies self@.contains(old(self)@[i]) by {
                assert(cleaned.contains(old(self)@[i]));
                let j = choose|j: int| 0 <= j < cleaned.len() && cleaned[j] == old(self)@[i];
                assert(self@[j] == old(self)@[i]);
            }
        }
        token
    }

    /// Resolves a token: the mapped principal id if the entry exists and has
    /// not expired, absence otherwise. No side effect.
    pub fn get_session(&self, token: &String, now: u64) -> (r: Option<i64>)
        requires
            tokens_unique(self@),
        ensures
            r == resolve_spec(self@, token@, now),
    {
        let n = self.sessions.len();
        let mut k: usize = 0;
        while k < n
            invariant
                n == self.sessions.len(),
                k <= n,
                tokens_unique(self@),
                forall|i: int| 0 <= i < k ==> self@[i].token@ != token@,
            decreases n - k,
        {
            if self.sessions[k].token == *token {
                proof {
                    let ki = k as int;
                    let i = choose|i: int| 0 <= i < self@.len() && self@[i].token@ == token@;
                    assert(self@[ki].token@ == token@);
                    if i < ki {
                        assert(self@[i].token@ != self@[ki].token@);
                    } else if ki < i {
                        assert(self@[ki].token@ != self@[i].token@);
                    }
                }
                if now < self.sessions[k].expires_at {
                    return Some(self.sessions[k].principal_id);
                } else {
                    return None;
                }
            }
            k = k + 1;
        }
        None
    }

    /// Unconditionally removes the mapping for `token`; removing an absent
    /// token changes nothing. Idempotent.
    pub fn delete_session(&mut self, token: &String)
        requires
            tokens_unique(old(self)@),
        ensures
            tokens_unique(final(self)@),
            forall|i: int| 0 <= i < final(self)@.len() ==> final(self)@[i].token@ != token@,
            forall|i: int|
                0 <= i < final(self)@.len() ==> old(self)@.contains(final(self)@[i]),
            forall|i: int|
                0 <= i < old(self)@.len() && old(self)@[i].token@ != token@
                    ==> final(self)@.contains(old(self)@[i]),
    {
        let n = self.sessions.len();
        let mut k: usize = 0;
        while k < n
            invariant
                self@ == old(self)@,
                n == self.sessions.len(),
                k <= n,
                tokens_unique(self@),
                forall|i: int| 0 <= i < k ==> self@[i].token@ != token@,
            decreases n - k,
        {
            if self.sessions[k].token == *token {
                let ghost prev = self@;
                self.sessions.remove(k);
                proof {
                    assert forall|i: int|
                        0 <= i < self@.len() implies self@[i].token@ != token@ by {
                        if i < k {
                            assert(self@[i] == prev[i]);
                        } else {
                            assert(self@[i] == prev[i + 1]);
                        }
                    }
                    assert forall|i: int|
                        0 <= i < self@.len() implies prev.contains(self@[i]) by {
                        if i < k {
                            assert(self@[i] == prev[i]);
                        } else {
                            assert(self@[i] == prev[i + 1]);
                        }
                    }
                    assert forall|i: int|
                        0 <= i < prev.len() && prev[i].token@ != token@
                            implies self@.contains(prev[i]) by {
                        if i < k {
                            assert(self@[i] == prev[i]);
                        } else if i > k {
                            assert(self@[i - 1] == prev[i]);
                        }
                    }
                }
                return;
            }
            k = k + 1;
        }
    }
}

/// A live session resolves to its principal: for any store without token
/// collisions, an entry that has not expired yet is returned as created.
pub proof fn lemma_resolve_live(s: Seq<Session>, e: Session, now: u64)
    requires
        tokens_unique(s),
        s.contains(e),
        now < e.expires_at,
    ensures
        resolve_spec(s, e.token@, now) == Some(e.principal_id),
{
    let j = choose|j: int| 0 <= j < s.len() && s[j] == e;
    let i = choose|i: int| 0 <= i < s.len() && s[i].token@ == e.token@;
    assert(s[j].token@ == e.token@);
    assert(i == j);
}

/// A session resolved at or past its expiry reports absence, whatever
/// principal it was created for.
pub proof fn lemma_resolve_expired(s: Seq<Session>, e: Session, now: u64)
    requires
        tokens_unique(s),
        s.contains(e),
        now >= e.expires_at,
    ensures
        resolve_spec(s, e.token@, now) is None,
{
    let j = choose|j: int| 0 <= j < s.len() && s[j] == e;
    let i = choose|i: int| 0 <= i < s.len() && s[i].token@ == e.token@;
    assert(s[j].token@ == e.token@);
    assert(i == j);
}

/// A token no entry carries resolves to absence; in particular any token
/// just revoked, since revocation leaves no entry with that token behind.
pub proof fn lemma_resolve_absent(s: Seq<Session>, tok: Seq<char>, now: u64)
    requires
        forall|i: int| 0 <= i < s.len() ==> s[i].token@ != tok,
    ensures
        resolve_spec(s, tok, now) is None,
{
}

} // verus!
