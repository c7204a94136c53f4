//! Brute-force protection for the two login endpoints: after
//! `MAX_LOGIN_ATTEMPTS` failed attempts for one key within `RATE_WINDOW_MS`,
//! further attempts for that key are refused until the window ends.
//!
//! Time is a monotonic clock in milliseconds that the caller reads once per
//! operation and hands in.
use vstd::prelude::*;
use crate::error::ApiError;
use crate::text::{dec, dec_u64, extend_chars, string_of, to_lowercase, trim, trim_str, unicode_lower};

verus! {

/// Failed attempts after which a key is locked.
pub const MAX_LOGIN_ATTEMPTS: u32 = 5;

/// Length of the lock window, in milliseconds.
pub const RATE_WINDOW_MS: u64 = 60000;

/// One key's failures: how many, and until when the window runs.
pub struct LoginRecord {
    pub key: String,
    pub count: u32,
    pub until: u64,
}

/// The failure table, keyed by `"admin:<user>"` or `"client:<user>"`.
pub struct LoginGuard {
    records: Vec<LoginRecord>,
}

/// What a check answers.
pub enum RateCheck {
    Allowed,
    /// Locked: the number of whole seconds until the window ends.
    Locked(u64),
}

/// The table as a map from key to (failures, end of window).
pub type GuardMap = Map<Seq<char>, (u32, u64)>;

/// Answer of a check of `key` at `now`.
pub open spec fn check_outcome(m: GuardMap, key: Seq<char>, now: u64) -> RateCheck {
    if m.contains_key(key) && m[key].0 >= MAX_LOGIN_ATTEMPTS && m[key].1 > now {
        RateCheck::Locked(((m[key].1 - now) / 1000) as u64)
    } else {
        RateCheck::Allowed
    }
}

/// Table after a check of `key` at `now`: an entry whose window has ended is dropped.
pub open spec fn check_next(m: GuardMap, key: Seq<char>, now: u64) -> GuardMap {
    if m.contains_key(key) && !(m[key].0 >= MAX_LOGIN_ATTEMPTS && m[key].1 > now) && m[key].1 <= now {
        m.remove(key)
    } else {
        m
    }
}

/// Table after a failure of `key` at `now`: one more failure; a window that
/// has ended (or a new key) starts a fresh window of `RATE_WINDOW_MS`.
pub open spec fn record_next(m: GuardMap, key: Seq<char>, now: u64) -> GuardMap {
    let (count, until) = if m.contains_key(key) {
        m[key]
    } else {
        (0u32, (now + RATE_WINDOW_MS) as u64)
    };
    let until2 = if until <= now {
        (now + RATE_WINDOW_MS) as u64
    } else {
        until
    };
    m.insert(key, (((count + 1) % 0x1_0000_0000) as u32, until2))
}

/// Table after a successful login of `key`.
pub open spec fn clear_next(m: GuardMap, key: Seq<char>) -> GuardMap {
    m.remove(key)
}

/// The rate-limit key of an admin login.
pub open spec fn admin_key(username: Seq<char>) -> Seq<char> {
    "admin:"@ + unicode_lower(trim(username))
}

/// The rate-limit key of a client login.
pub open spec fn client_key(username: Seq<char>) -> Seq<char> {
    "client:"@ + unicode_lower(trim(username))
}

/// The message of a refused attempt.
pub open spec fn locked_message(wait: nat) -> Seq<char> {
    "Too many failed login attempts. Try again in "@ + dec(wait) + "s."@
}

/// Key for the admin login endpoint.
pub fn login_key_admin(username: &str) -> (k: String)
    ensures
        k@ == admin_key(username@),
{
    let t = string_of(&trim_str(username));
    let low = to_lowercase(t.as_str());
    let mut k = String::new();
    k.append("admin:");
    k.append(low.as_str());
    k
}

/// Key for the client login endpoint.
pub fn login_key_client(username: &str) -> (k: String)
    ensures
        k@ == client_key(username@),
{
    let t = string_of(&trim_str(username));
    let low = to_lowercase(t.as_str());
    let mut k = String::new();
    k.append("client:");
    k.append(low.as_str());
    k
}

impl LoginGuard {
    /// No two records share a key.
    pub closed spec fn wf(&self) -> bool {
        forall|i: int, j: int|
            0 <= i < j < self.records@.len() ==> (#[trigger] self.records@[i]).key@
                != (#[trigger] self.records@[j]).key@
    }

    pub closed spec fn index_of(&self, key: Seq<char>) -> int {
        choose|i: int| 0 <= i < self.records@.len() && (#[trigger] self.records@[i]).key@ == key
    }

    /// The table as a map.
    pub closed spec fn view(&self) -> GuardMap {
        Map::new(
            |k: Seq<char>| exists|i: int| 0 <= i < self.records@.len() && (#[trigger] self.records@[i]).key@ == k,
            |k: Seq<char>| (self.records@[self.index_of(k)].count, self.records@[self.index_of(k)].until),
        )
    }

    proof fn lemma_lookup(&self, i: int)
        requires
            self.wf(),
            0 <= i < self.records@.len(),
        ensures
            self.view().contains_key(self.records@[i].key@),
            self.index_of(self.records@[i].key@) == i,
            self.view()[self.records@[i].key@] == (self.records@[i].count, self.records@[i].until),
    {
        let k = self.records@[i].key@;
        assert(exists|j: int| 0 <= j < self.records@.len() && (#[trigger] self.records@[j]).key@ == k);
        let j = self.index_of(k);
        if j != i {
            if j < i {
                assert(self.records@[j].key@ != self.records@[i].key@);
            } else {
                assert(self.records@[i].key@ != self.records@[j].key@);
            }
        }
    }

    pub fn new() -> (g: LoginGuard)
        ensures
            g.wf(),
            g.view() == Map::<Seq<char>, (u32, u64)>::empty(),
    {
        let g = LoginGuard { records: Vec::new() };
        assert(g.view() =~= Map::<Seq<char>, (u32, u64)>::empty());
        g
    }

    fn find(&self, key: &str) -> (r: Option<usize>)
        requires
            self.wf(),
        ensures
            match r {
                Some(i) => i < self.records@.len() && self.records@[i as int].key@ == key@
                    && self.view().contains_key(key@) && self.view()[key@] == (
                    self.records@[i as int].count,
                    self.records@[i as int].until,
                ),
                None => !self.view().contains_key(key@),
            },
    {
        let owned = key.to_string();
        let mut i: usize = 0;
        while i < self.records.len()
            invariant
                self.wf(),
                i <= self.records@.len(),
                owned@ == key@,
                forall|j: int| 0 <= j < i ==> (#[trigger] self.records@[j]).key@ != key@,
            decreases self.records@.len() - i,
        {
            if self.records[i].key == owned {
                proof {
                    self.lemma_lookup(i as int);
                }
                return Some(i);
            }
            i += 1;
        }
        None
    }

    proof fn lemma_remove(&self, old_self: &LoginGuard, i: int)
        requires
            old_self.wf(),
            0 <= i < old_self.records@.len(),
            self.records@ == old_self.records@.remove(i),
        ensures
            self.wf(),
            self.view() == old_self.view().remove(old_self.records@[i].key@),
    {
        let k = old_self.records@[i].key@;
        assert forall|a: int, b: int| 0 <= a < b < self.records@.len() implies (#[trigger] self.records@[a]).key@
            != (#[trigger] self.records@[b]).key@ by {
            let a2 = if a < i { a } else { a + 1 };
            let b2 = if b < i { b } else { b + 1 };
            assert(self.records@[a] == old_self.records@[a2]);
            assert(self.records@[b] == old_self.records@[b2]);
            assert(old_self.records@[a2].key@ != old_self.records@[b2].key@);
        }
        assert forall|q: Seq<char>| #[trigger] self.view().contains_key(q) == old_self.view().remove(k).contains_key(q) by {
            if self.view().contains_key(q) {
                let j = choose|j: int| 0 <= j < self.records@.len() && (#[trigger] self.records@[j]).key@ == q;
                let j2 = if j < i { j } else { j + 1 };
                assert(old_self.records@[j2].key@ == q);
                assert(q != k) by {
                    if j2 < i {
                        assert(old_self.records@[j2].key@ != old_self.records@[i].key@);
                    } else {
                        assert(old_self.records@[i].key@ != old_self.records@[j2].key@);
                    }
                }
            }
            if old_self.view().remove(k).contains_key(q) {
                let j = choose|j: int| 0 <= j < old_self.records@.len() && (#[trigger] old_self.records@[j]).key@ == q;
                assert(j != i);
                let j2 = if j < i { j } else { j - 1 };
                assert(self.records@[j2].key@ == q);
            }
        }
        assert forall|q: Seq<char>| #[trigger] self.view().contains_key(q) implies self.view()[q] == old_self.view()[q] by {
            let j = choose|j: int| 0 <= j < self.records@.len() && (#[trigger] self.records@[j]).key@ == q;
            self.lemma_lookup(j);
            let j2 = if j < i { j } else { j + 1 };
            assert(self.records@[j] == old_self.records@[j2]);
            old_self.lemma_lookup(j2);
        }
        assert(self.view() =~= old_self.view().remove(k));
    }

    /// Refuses the attempt when `key` has `MAX_LOGIN_ATTEMPTS` failures in a
    /// window that has not ended; forgets the key when its window has ended.
    pub fn check(&mut self, key: &str, now: u64) -> (r: Result<(), ApiError>)
        requires
            old(self).wf(),
        ensures
            final(self).wf(),
            final(self).view() == check_next(old(self).view(), key@, now),
            match check_outcome(old(self).view(), key@, now) {
                RateCheck::Allowed => r is Ok,
                RateCheck::Locked(wait) => r matches Err(e) && e.status == 429 && e.message@
                    == locked_message(wait as nat),
            },
    {
        match self.find(key) {
            Some(i) => {
                let count = self.records[i].count;
                let until = self.records[i].until;
                if count >= MAX_LOGIN_ATTEMPTS && until > now {
                    let wait = (until - now) / 1000;
                    let mut msg: Vec<char> = Vec::new();
                    crate::text::extend_str(&mut msg, "Too many failed login attempts. Try again in ");
                    let w = dec_u64(wait);
                    extend_chars(&mut msg, &w);
                    crate::text::extend_str(&mut msg, "s.");
                    return Err(ApiError::from_chars(429, &msg));
                }
                if until <= now {
                    let ghost old_self = *self;
                    self.records.remove(i);
                    proof {
                        self.lemma_remove(&old_self, i as int);
                    }
                }
                Ok(())
            },
            None => Ok(()),
        }
    }

    /// Counts one failed attempt of `key` at `now`.
    pub fn record_failure(&mut self, key: &str, now: u64)
        requires
            old(self).wf(),
            now <= u64::MAX - RATE_WINDOW_MS,
        ensures
            final(self).wf(),
            final(self).view() == record_next(old(self).view(), key@, now),
    {
        let ghost old_view = self.view();
        match self.find(key) {
            Some(i) => {
                let count = self.records[i].count;
                let until = self.records[i].until;
                let until2 = if until <= now {
                    now + RATE_WINDOW_MS
                } else {
                    until
                };
                let ghost old_self = *self;
                let rec = LoginRecord { key: key.to_string(), count: count.wrapping_add(1), until: until2 };
                self.records.set(i, rec);
                proof {
                    assert forall|a: int, b: int| 0 <= a < b < self.records@.len() implies (#[trigger] self.records@[a]).key@
                        != (#[trigger] self.records@[b]).key@ by {
                        assert(old_self.records@[a].key@ != old_self.records@[b].key@);
                    }
                    assert forall|q: Seq<char>| #[trigger] self.view().contains_key(q) == record_next(old_view, key@, now).contains_key(q) by {
                        if self.view().contains_key(q) {
                            let j = choose|j: int| 0 <= j < self.records@.len() && (#[trigger] self.records@[j]).key@ == q;
                            if j != i {
                                assert(old_self.records@[j].key@ == q);
                            }
                        }
                        if old_view.contains_key(q) {
                            let j = choose|j: int| 0 <= j < old_self.records@.len() && (#[trigger] old_self.records@[j]).key@ == q;
                            if j != i {
                                assert(self.records@[j].key@ == q);
                            }
                        }
                    }
                    assert forall|q: Seq<char>| #[trigger] self.view().contains_key(q) implies self.view()[q] == record_next(old_view, key@, now)[q] by {
                        let j = choose|j: int| 0 <= j < self.records@.len() && (#[trigger] self.records@[j]).key@ == q;
                        self.lemma_lookup(j);
                        if j != i {
                            old_self.lemma_lookup(j);
                        }
                    }
                    assert(self.view() =~= record_next(old_view, key@, now));
                }
            },
            None => {
                let ghost old_self = *self;
                let rec = LoginRecord { key: key.to_string(), count: 1, until: now + RATE_WINDOW_MS };
                self.records.push(rec);
                proof {
                    let n = old_self.records@.len();
                    assert forall|a: int, b: int| 0 <= a < b < self.records@.len() implies (#[trigger] self.records@[a]).key@
                        != (#[trigger] self.records@[b]).key@ by {
                        if b == n {
                            assert(old_self.records@[a] == self.records@[a]);
                            if old_self.records@[a].key@ == key@ {
                                old_self.lemma_lookup(a);
                            }
                        } else {
                            assert(old_self.records@[a].key@ != old_self.records@[b].key@);
                        }
                    }
                    assert forall|q: Seq<char>| #[trigger] self.view().contains_key(q) == record_next(old_view, key@, now).contains_key(q) by {
                        if self.view().contains_key(q) {
                            let j = choose|j: int| 0 <= j < self.records@.len() && (#[trigger] self.records@[j]).key@ == q;
                            if j != n {
                                assert(old_self.records@[j].key@ == q);
                            }
                        }
                        if old_view.contains_key(q) {
                            let j = choose|j: int| 0 <= j < old_self.records@.len() && (#[trigger] old_self.records@[j]).key@ == q;
                            assert(self.records@[j].key@ == q);
                        }
                        if q == key@ {
                            assert(self.records@[n as int].key@ == q);
                        }
                    }
                    assert forall|q: Seq<char>| #[trigger] self.view().contains_key(q) implies self.view()[q] == record_next(old_view, key@, now)[q] by {
                        let j = choose|j: int| 0 <= j < self.records@.len() && (#[trigger] self.records@[j]).key@ == q;
                        self.lemma_lookup(j);
                        if j != n {
                            old_self.lemma_lookup(j);
                        }
                    }
                    assert(self.view() =~= record_next(old_view, key@, now));
                }
            },
        }
    }

    /// Forgets the failures of `key`.
    pub fn clear(&mut self, key: &str)
        requires
            old(self).wf(),
        ensures
            final(self).wf(),
            final(self).view() == clear_next(old(self).view(), key@),
    {
        match self.find(key) {
            Some(i) => {
                let ghost old_self = *self;
                self.records.remove(i);
                proof {
                    self.lemma_remove(&old_self, i as int);
                }
            },
            None => {
                assert(self.view() =~= self.view().remove(key@));
            },
        }
    }
}

// ================================================================ laws

/// A key that has failed five times, all within one window that began with
/// its first failure, is refused at any time before that window ends.
pub proof fn law_five_failures_lock(m: GuardMap, key: Seq<char>, t1: u64, t2: u64, t3: u64, t4: u64, t5: u64, now: u64)
    requires
        !m.contains_key(key),
        t1 <= t2 <= t3 <= t4 <= t5 <= now,
        now < t1 + RATE_WINDOW_MS,
        t1 <= u64::MAX - RATE_WINDOW_MS,
    ensures
        check_outcome(
            record_next(record_next(record_next(record_next(record_next(m, key, t1), key, t2), key, t3), key, t4), key, t5),
            key,
            now,
        ) is Locked,
{
}

/// Fewer than five failures never lock a key.
pub proof fn law_under_limit_allowed(m: GuardMap, key: Seq<char>, t1: u64, t2: u64, t3: u64, t4: u64, now: u64)
    requires
        !m.contains_key(key),
        t1 <= u64::MAX - RATE_WINDOW_MS,
        t2 <= u64::MAX - RATE_WINDOW_MS,
        t3 <= u64::MAX - RATE_WINDOW_MS,
        t4 <= u64::MAX - RATE_WINDOW_MS,
    ensures
        check_outcome(record_next(m, key, t1), key, now) is Allowed,
        check_outcome(record_next(record_next(m, key, t1), key, t2), key, now) is Allowed,
        check_outcome(record_next(record_next(record_next(m, key, t1), key, t2), key, t3), key, now) is Allowed,
        check_outcome(record_next(record_next(record_next(record_next(m, key, t1), key, t2), key, t3), key, t4), key, now) is Allowed,
{
}

/// A successful login clears the lock: the next check of the key is allowed.
pub proof fn law_clear_unlocks(m: GuardMap, key: Seq<char>, now: u64)
    ensures
        check_outcome(clear_next(m, key), key, now) is Allowed,
{
}

/// Once the window has ended the key is allowed again and its failures are forgotten.
pub proof fn law_window_expires(m: GuardMap, key: Seq<char>, now: u64)
    requires
        m.contains_key(key),
        m[key].1 <= now,
    ensures
        check_outcome(m, key, now) is Allowed,
        !check_next(m, key, now).contains_key(key),
{
}

/// Operations on one key leave every other key's entry as it was.
pub proof fn law_keys_independent(m: GuardMap, key: Seq<char>, other: Seq<char>, now: u64)
    requires
        key != other,
    ensures
        check_next(m, key, now).contains_key(other) == m.contains_key(other),
        record_next(m, key, now).contains_key(other) == m.contains_key(other),
        clear_next(m, key).contains_key(other) == m.contains_key(other),
        m.contains_key(other) ==> check_next(m, key, now)[other] == m[other] && record_next(m, key, now)[other]
            == m[other] && clear_next(m, key)[other] == m[other],
{
}

/// Whether a key is refused, and for how long, depends on that key's entry
/// alone: tables that agree on the key give the same answer.
pub proof fn law_answer_depends_on_key_alone(m1: GuardMap, m2: GuardMap, key: Seq<char>, now: u64)
    requires
        m1.contains_key(key) == m2.contains_key(key),
        m1.contains_key(key) ==> m1[key] == m2[key],
    ensures
        check_outcome(m1, key, now) == check_outcome(m2, key, now),
{
}

/// A refusal answers with the whole seconds left in the window, never more than the window.
pub proof fn law_wait_bounded(m: GuardMap, key: Seq<char>, now: u64)
    requires
        m.contains_key(key),
        m[key].1 <= now + RATE_WINDOW_MS,
    ensures
        check_outcome(m, key, now) matches RateCheck::Locked(w) ==> w <= RATE_WINDOW_MS / 1000,
{
}

} // verus!
