//! The session registry: a TTL-keyed store of serialized credentials with
//! sliding expiration. A namespace key (one per identity) maps to a set of
//! sessions behind one deadline; reading a live session pushes the deadline
//! out to the full sliding window, and a missing or lapsed entry is the
//! ordinary "no active session" answer, never an error.

use vstd::prelude::*;
use crate::bytesutil::str_eq;

verus! {

/// One live session under a namespace: an opaque session discriminator and
/// the serialized credential it maps to.
#[derive(Debug)]
pub struct SessionRecord {
    pub session_id: String,
    pub token: String,
}

/// Every session of one namespace key, behind one sliding deadline.
#[derive(Debug)]
pub struct NamespaceEntry {
    pub key: String,
    pub deadline: i64,
    pub sessions: Vec<SessionRecord>,
}

/// What a lookup yields: the stored credential, the ordinary
/// "no active session" answer, or — from a transport to a shared backing
/// store only — the store being unreachable, with the detail for the log.
/// The in-process registry itself never answers `Unavailable`.
#[derive(Debug)]
pub enum RegistryOutcome {
    Hit(String),
    Miss,
    Unavailable(String),
}

/// The first entry of `entries` whose key reads `key`.
pub open spec fn spec_find(entries: Seq<NamespaceEntry>, key: Seq<char>) -> Option<NamespaceEntry>
    decreases entries.len(),
{
    if entries.len() == 0 {
        None
    } else if entries[0].key@ == key {
        Some(entries[0])
    } else {
        spec_find(entries.drop_first(), key)
    }
}

/// The token of the first session of `sessions` whose id reads `sid`.
pub open spec fn spec_find_session(sessions: Seq<SessionRecord>, sid: Seq<char>) -> Option<
    Seq<char>,
>
    decreases sessions.len(),
{
    if sessions.len() == 0 {
        None
    } else if sessions[0].session_id@ == sid {
        Some(sessions[0].token@)
    } else {
        spec_find_session(sessions.drop_first(), sid)
    }
}

/// No entry carries the key exactly when the search misses.
pub proof fn lemma_find_none(entries: Seq<NamespaceEntry>, key: Seq<char>)
    ensures
        (spec_find(entries, key) is None) <==> (forall|j: int|
            0 <= j < entries.len() ==> #[trigger] entries[j].key@ != key),
    decreases entries.len(),
{
    if entries.len() > 0 {
        lemma_find_none(entries.drop_first(), key);
        let tail = entries.drop_first();
        if forall|j: int| 0 <= j < entries.len() ==> #[trigger] entries[j].key@ != key {
            assert(entries[0].key@ != key);
            assert forall|j: int| 0 <= j < tail.len() implies #[trigger] tail[j].key@ != key by {
                assert(tail[j] == entries[j + 1]);
                assert(entries[j + 1].key@ != key);
            }
            assert(spec_find(entries, key) is None);
        }
        if spec_find(entries, key) is None {
            assert forall|j: int| 0 <= j < entries.len() implies #[trigger] entries[j].key@
                != key by {
                if j > 0 {
                    assert(tail[j - 1] == entries[j]);
                    assert(tail[j - 1].key@ != key);
                }
            }
        }
    }
}

/// The search returns the first match.
pub proof fn lemma_find_at(entries: Seq<NamespaceEntry>, key: Seq<char>, i: int)
    requires
        0 <= i < entries.len(),
        entries[i].key@ == key,
        forall|j: int| 0 <= j < i ==> #[trigger] entries[j].key@ != key,
    ensures
        spec_find(entries, key) == Some(entries[i]),
    decreases i,
{
    if i > 0 {
        assert forall|j: int| 0 <= j < i - 1 implies #[trigger] entries.drop_first()[j].key@
            != key by {
            assert(entries.drop_first()[j] == entries[j + 1]);
        }
        lemma_find_at(entries.drop_first(), key, i - 1);
    }
}

/// Replacing the entry at a key's first match with one of the same key
/// changes what the search finds there, and nothing anywhere else.
pub proof fn lemma_find_update(entries: Seq<NamespaceEntry>, i: int, e2: NamespaceEntry, k2: Seq<char>)
    requires
        0 <= i < entries.len(),
        e2.key@ == entries[i].key@,
        forall|j: int| 0 <= j < i ==> #[trigger] entries[j].key@ != entries[i].key@,
    ensures
        k2 == entries[i].key@ ==> spec_find(entries.update(i, e2), k2) == Some(e2),
        k2 != entries[i].key@ ==> spec_find(entries.update(i, e2), k2) == spec_find(entries, k2),
    decreases entries.len(),
{
    let upd = entries.update(i, e2);
    if i == 0 {
        if k2 != entries[0].key@ {
            assert(upd.drop_first() =~= entries.drop_first());
        }
    } else {
        assert(upd.drop_first() =~= entries.drop_first().update(i - 1, e2));
        assert(forall|j: int|
            0 <= j < entries.drop_first().len() ==> #[trigger] entries.drop_first()[j] == entries[j + 1]);
        lemma_find_update(entries.drop_first(), i - 1, e2, k2);
    }
}

/// Appending an entry for a key the store misses makes that key find it,
/// and changes no other key's answer.
pub proof fn lemma_find_push(entries: Seq<NamespaceEntry>, e: NamespaceEntry, k2: Seq<char>)
    requires
        spec_find(entries, e.key@) is None,
    ensures
        k2 == e.key@ ==> spec_find(entries.push(e), k2) == Some(e),
        k2 != e.key@ ==> spec_find(entries.push(e), k2) == spec_find(entries, k2),
    decreases entries.len(),
{
    if entries.len() == 0 {
        assert(entries.push(e)[0] == e);
        assert(entries.push(e).drop_first() =~= Seq::<NamespaceEntry>::empty());
    } else {
        assert(entries.push(e).drop_first() =~= entries.drop_first().push(e));
        lemma_find_push(entries.drop_first(), e, k2);
    }
}

/// The session search returns the first match.
pub proof fn lemma_find_session_at(sessions: Seq<SessionRecord>, sid: Seq<char>, i: int)
    requires
        0 <= i < sessions.len(),
        sessions[i].session_id@ == sid,
        forall|j: int| 0 <= j < i ==> #[trigger] sessions[j].session_id@ != sid,
    ensures
        spec_find_session(sessions, sid) == Some(sessions[i].token@),
    decreases i,
{
    if i > 0 {
        assert forall|j: int| 0 <= j < i - 1 implies #[trigger] sessions.drop_first()[
            j
        ].session_id@ != sid by {
            assert(sessions.drop_first()[j] == sessions[j + 1]);
        }
        lemma_find_session_at(sessions.drop_first(), sid, i - 1);
    }
}

/// Replacing the session at a sid's first match with one of the same sid
/// changes that sid's token, and no other sid's.
pub proof fn lemma_find_session_update(
    sessions: Seq<SessionRecord>,
    i: int,
    s2: SessionRecord,
    q: Seq<char>,
)
    requires
        0 <= i < sessions.len(),
        s2.session_id@ == sessions[i].session_id@,
        forall|j: int| 0 <= j < i ==> #[trigger] sessions[j].session_id@ != sessions[
            i
        ].session_id@,
    ensures
        q == sessions[i].session_id@ ==> spec_find_session(sessions.update(i, s2), q) == Some(
            s2.token@,
        ),
        q != sessions[i].session_id@ ==> spec_find_session(sessions.update(i, s2), q)
            == spec_find_session(sessions, q),
    decreases sessions.len(),
{
    let upd = sessions.update(i, s2);
    if i == 0 {
        if q != sessions[0].session_id@ {
            assert(upd.drop_first() =~= sessions.drop_first());
        }
    } else {
        assert(upd.drop_first() =~= sessions.drop_first().update(i - 1, s2));
        assert(forall|j: int|
            0 <= j < sessions.drop_first().len() ==> #[trigger] sessions.drop_first()[j]
                == sessions[j + 1]);
        lemma_find_session_update(sessions.drop_first(), i - 1, s2, q);
    }
}

/// No session carries the sid exactly when the session search misses.
pub proof fn lemma_find_session_none(sessions: Seq<SessionRecord>, sid: Seq<char>)
    ensures
        (spec_find_session(sessions, sid) is None) <==> (forall|j: int|
            0 <= j < sessions.len() ==> #[trigger] sessions[j].session_id@ != sid),
    decreases sessions.len(),
{
    if sessions.len() > 0 {
        lemma_find_session_none(sessions.drop_first(), sid);
        let tail = sessions.drop_first();
        if forall|j: int| 0 <= j < sessions.len() ==> #[trigger] sessions[j].session_id@ != sid {
            assert(sessions[0].session_id@ != sid);
            assert forall|j: int| 0 <= j < tail.len() implies #[trigger] tail[j].session_id@
                != sid by {
                assert(tail[j] == sessions[j + 1]);
                assert(sessions[j + 1].session_id@ != sid);
            }
            assert(spec_find_session(sessions, sid) is None);
        }
        if spec_find_session(sessions, sid) is None {
            assert forall|j: int| 0 <= j < sessions.len() implies #[trigger] sessions[
                j
            ].session_id@ != sid by {
                if j > 0 {
                    assert(tail[j - 1] == sessions[j]);
                    assert(tail[j - 1].session_id@ != sid);
                }
            }
        }
    }
}

/// Appending a session for a sid the entry misses makes that sid find it,
/// and changes no other sid's token.
pub proof fn lemma_find_session_push(sessions: Seq<SessionRecord>, s: SessionRecord, q: Seq<char>)
    requires
        spec_find_session(sessions, s.session_id@) is None,
    ensures
        q == s.session_id@ ==> spec_find_session(sessions.push(s), q) == Some(s.token@),
        q != s.session_id@ ==> spec_find_session(sessions.push(s), q) == spec_find_session(
            sessions,
            q,
        ),
    decreases sessions.len(),
{
    if sessions.len() == 0 {
        assert(sessions.push(s)[0] == s);
        assert(sessions.push(s).drop_first() =~= Seq::<SessionRecord>::empty());
    } else {
        assert(sessions.push(s).drop_first() =~= sessions.drop_first().push(s));
        lemma_find_session_push(sessions.drop_first(), s, q);
    }
}

/// The deadline a refresh at `now` slides to, saturating at the ends of
/// the clock.
pub open spec fn spec_slide(now: i64, window: i64) -> i64 {
    if now + window > i64::MAX {
        i64::MAX
    } else if now + window < i64::MIN {
        i64::MIN
    } else {
        (now + window) as i64
    }
}

/// The sliding window a fresh registry refreshes to, in seconds: one hour.
pub const REFRESH_WINDOW_SECS: i64 = 3600;

/// The shared TTL-based session store. Existence, liveness and refresh are
/// its whole job; it never reads a credential's contents.
pub struct SessionRegistry {
    entries: Vec<NamespaceEntry>,
    window: i64,
}

impl SessionRegistry {
    /// Structural validity: a positive sliding window, and one entry per
    /// namespace key.
    pub closed spec fn wf(&self) -> bool {
        &&& self.window >= 1
        &&& forall|i: int, j: int|
            0 <= i < j < self.entries@.len() ==> #[trigger] self.entries@[i].key@ != (
            #[trigger] self.entries@[j].key@)
    }

    /// The sliding window.
    pub closed spec fn spec_window(&self) -> i64 {
        self.window
    }

    /// The entry of a namespace key.
    pub closed spec fn spec_entry(&self, key: Seq<char>) -> Option<NamespaceEntry> {
        spec_find(self.entries@, key)
    }

    /// The deadline of a namespace key.
    pub open spec fn spec_deadline_of(&self, key: Seq<char>) -> Option<i64> {
        match self.spec_entry(key) {
            Some(e) => Some(e.deadline),
            None => None,
        }
    }

    /// The stored token of one session of a namespace key, live or not.
    pub open spec fn spec_token_of(&self, key: Seq<char>, sid: Seq<char>) -> Option<Seq<char>> {
        match self.spec_entry(key) {
            Some(e) => spec_find_session(e.sessions@, sid),
            None => None,
        }
    }

    /// Is the namespace key live at `now`? A key lapses at the very second
    /// its deadline is reached.
    pub open spec fn spec_live(&self, key: Seq<char>, now: i64) -> bool {
        match self.spec_entry(key) {
            Some(e) => now < e.deadline,
            None => false,
        }
    }

    /// What a lookup at `now` owes: the stored token when the key is live
    /// and holds the session, nothing otherwise.
    pub open spec fn spec_hit(&self, key: Seq<char>, sid: Seq<char>, now: i64) -> Option<
        Seq<char>,
    > {
        if self.spec_live(key, now) {
            self.spec_token_of(key, sid)
        } else {
            None
        }
    }

    /// A fresh, empty registry with the fixed one-hour sliding window.
    pub fn new() -> (r: SessionRegistry)
        ensures
            r.wf(),
            r.spec_window() == REFRESH_WINDOW_SECS,
            forall|key: Seq<char>| r.spec_entry(key) is None,
    {
        let r = SessionRegistry { entries: Vec::new(), window: REFRESH_WINDOW_SECS };
        proof {
            assert forall|key: Seq<char>| r.spec_entry(key) is None by {
                assert(r.entries@.len() == 0);
            }
        }
        r
    }

    /// How `post` relates to `pre` after a refresh of `key` at `now`: the
    /// first entry of the key stands with its deadline slid to the full
    /// window, its key and sessions untouched; everything else is as it was.
    pub closed spec fn spec_refreshed(
        pre: SessionRegistry,
        post: SessionRegistry,
        key: Seq<char>,
        now: i64,
    ) -> bool {
        &&& post.window == pre.window
        &&& exists|i: int|
            {
                &&& 0 <= i < pre.entries@.len()
                &&& (#[trigger] pre.entries@[i]).key@ == key
                &&& forall|j: int| 0 <= j < i ==> #[trigger] pre.entries@[j].key@ != key
                &&& post.entries@ == pre.entries@.update(
                    i,
                    NamespaceEntry {
                        key: pre.entries@[i].key,
                        deadline: spec_slide(now, pre.window),
                        sessions: pre.entries@[i].sessions,
                    },
                )
            }
    }

    /// The first entry with this key, if any.
    fn find_entry(entries: &Vec<NamespaceEntry>, key: &str) -> (r: Option<usize>)
        ensures
            match r {
                Some(i) => i < entries@.len() && entries@[i as int].key@ == key@ && spec_find(
                    entries@,
                    key@,
                ) == Some(entries@[i as int]) && forall|j: int|
                    0 <= j < i ==> #[trigger] entries@[j].key@ != key@,
                None => spec_find(entries@, key@) is None,
            },
    {
        let mut i: usize = 0;
        while i < entries.len()
            invariant
                i <= entries@.len(),
                forall|j: int| 0 <= j < i ==> #[trigger] entries@[j].key@ != key@,
            decreases entries@.len() - i,
        {
            if str_eq(entries[i].key.as_str(), key) {
                proof {
                    lemma_find_at(entries@, key@, i as int);
                }
                return Some(i);
            }
            i = i + 1;
        }
        proof {
            lemma_find_none(entries@, key@);
        }
        None
    }

    /// The first session with this id, if any; its token, cloned.
    fn find_session(sessions: &Vec<SessionRecord>, sid: &str) -> (r: Option<(usize, String)>)
        ensures
            match r {
                Some(p) => p.0 < sessions@.len() && sessions@[p.0 as int].session_id@ == sid@
                    && sessions@[p.0 as int].token@ == p.1@ && spec_find_session(sessions@, sid@)
                    == Some(p.1@) && forall|j: int|
                    0 <= j < p.0 ==> #[trigger] sessions@[j].session_id@ != sid@,
                None => spec_find_session(sessions@, sid@) is None,
            },
    {
        let mut i: usize = 0;
        while i < sessions.len()
            invariant
                i <= sessions@.len(),
                forall|j: int| 0 <= j < i ==> #[trigger] sessions@[j].session_id@ != sid@,
            decreases sessions@.len() - i,
        {
            if str_eq(sessions[i].session_id.as_str(), sid) {
                proof {
                    lemma_find_session_at(sessions@, sid@, i as int);
                }
                return Some((i, sessions[i].token.clone()));
            }
            i = i + 1;
        }
        proof {
            lemma_find_session_none(sessions@, sid@);
        }
        None
    }

    /// Looks a session up and, on a hit, slides the namespace deadline out
    /// to the full window. A missing key, a lapsed key (a key lapses at the
    /// very second of its deadline) and a missing session id are all the
    /// ordinary Miss answer and leave the store untouched.
    pub fn lookup_and_refresh(&mut self, namespace_key: &str, session_id: &str, now: i64) -> (r:
        RegistryOutcome)
        requires
            old(self).wf(),
        ensures
            final(self).wf(),
            match r {
                RegistryOutcome::Hit(tok) => old(self).spec_hit(namespace_key@, session_id@, now)
                    == Some(tok@) && SessionRegistry::spec_refreshed(
                    *old(self),
                    *final(self),
                    namespace_key@,
                    now,
                ),
                RegistryOutcome::Miss => old(self).spec_hit(namespace_key@, session_id@, now)
                    is None && *final(self) == *old(self),
                RegistryOutcome::Unavailable(_) => false,
            },
    {
        let i = match Self::find_entry(&self.entries, namespace_key) {
            Some(i) => i,
            None => {
                return RegistryOutcome::Miss;
            },
        };
        if now >= self.entries[i].deadline {
            return RegistryOutcome::Miss;
        }
        let tok = match Self::find_session(&self.entries[i].sessions, session_id) {
            Some(p) => p.1,
            None => {
                return RegistryOutcome::Miss;
            },
        };
        let w = self.window;
        let d: i64 = if now <= i64::MAX - w {
            now + w
        } else {
            i64::MAX
        };
        let ghost pre = *self;
        let e = &mut self.entries[i];
        e.deadline = d;
        proof {
            assert(w >= 1);
            assert(d == spec_slide(now, pre.window));
            assert(self.entries@ =~= pre.entries@.update(
                i as int,
                NamespaceEntry {
                    key: pre.entries@[i as int].key,
                    deadline: spec_slide(now, pre.window),
                    sessions: pre.entries@[i as int].sessions,
                },
            ));
            assert(SessionRegistry::spec_refreshed(pre, *self, namespace_key@, now));
            assert forall|a: int, b: int|
                0 <= a < b < self.entries@.len() implies #[trigger] self.entries@[a].key@ != (
            #[trigger] self.entries@[b].key@) by {
                assert(self.entries@[a].key@ == pre.entries@[a].key@);
                assert(self.entries@[b].key@ == pre.entries@[b].key@);
            }
        }
        RegistryOutcome::Hit(tok)
    }

    /// Stores (or replaces) a session's credential and starts the key's
    /// sliding window at the full length. Other sessions of the key, and
    /// other keys, keep their answers.
    pub fn insert(&mut self, namespace_key: String, session_id: String, token: String, now: i64)
        requires
            old(self).wf(),
        ensures
            final(self).wf(),
            final(self).spec_window() == old(self).spec_window(),
            final(self).spec_deadline_of(namespace_key@) == Some(
                spec_slide(now, old(self).spec_window()),
            ),
            final(self).spec_token_of(namespace_key@, session_id@) == Some(token@),
            forall|s2: Seq<char>|
                s2 != session_id@ ==> final(self).spec_token_of(namespace_key@, s2) == old(
                    self,
                ).spec_token_of(namespace_key@, s2),
            forall|k2: Seq<char>|
                k2 != namespace_key@ ==> final(self).spec_entry(k2) == old(self).spec_entry(k2),
    {
        let w = self.window;
        let d: i64 = if w >= 0 {
            if now <= i64::MAX - w {
                now + w
            } else {
                i64::MAX
            }
        } else {
            if now >= i64::MIN - w {
                now + w
            } else {
                i64::MIN
            }
        };
        proof {
            assert(d == spec_slide(now, old(self).window));
        }
        match Self::find_entry(&self.entries, namespace_key.as_str()) {
            Some(i) => {
                let ghost pre = *self;
                let rec = SessionRecord { session_id, token };
                let ghost grec = rec;
                let ghost presess = pre.entries@[i as int].sessions@;
                let sidx = Self::find_session(&self.entries[i].sessions, rec.session_id.as_str());
                let e = &mut self.entries[i];
                e.deadline = d;
                match sidx {
                    Some(p) => {
                        e.sessions.set(p.0, rec);
                        proof {
                            lemma_find_session_update(presess, p.0 as int, grec, grec.session_id@);
                            assert forall|s2: Seq<char>|
                                s2 != grec.session_id@ implies spec_find_session(
                                self.entries@[i as int].sessions@,
                                s2,
                            ) == spec_find_session(presess, s2) by {
                                lemma_find_session_update(presess, p.0 as int, grec, s2);
                            }
                        }
                    },
                    None => {
                        e.sessions.push(rec);
                        proof {
                            lemma_find_session_push(presess, grec, grec.session_id@);
                            assert forall|s2: Seq<char>|
                                s2 != grec.session_id@ implies spec_find_session(
                                self.entries@[i as int].sessions@,
                                s2,
                            ) == spec_find_session(presess, s2) by {
                                lemma_find_session_push(presess, grec, s2);
                            }
                        }
                    },
                }
                proof {
                    lemma_insert_existing(pre, *self, namespace_key@, grec.session_id@, grec.token@, now, i as int);
                }
            },
            None => {
                let ghost pre = *self;
                let mut sessions: Vec<SessionRecord> = Vec::new();
                sessions.push(SessionRecord { session_id, token });
                let entry = NamespaceEntry { key: namespace_key, deadline: d, sessions };
                self.entries.push(entry);
                proof {
                    lemma_find_push(pre.entries@, self.entries@.last(), namespace_key@);
                    assert(self.entries@.last().sessions@[0].session_id@ == session_id@);
                    assert(spec_find_session(self.entries@.last().sessions@, session_id@) == Some(
                        token@,
                    ));
                    assert forall|k2: Seq<char>|
                        k2 != namespace_key@ implies self.spec_entry(k2) == pre.spec_entry(
                        k2,
                    ) by {
                        lemma_find_push(pre.entries@, self.entries@.last(), k2);
                    }
                    assert forall|s2: Seq<char>|
                        s2 != session_id@ implies self.spec_token_of(namespace_key@, s2)
                        == pre.spec_token_of(namespace_key@, s2) by {
                        assert(self.entries@.last().sessions@[0].session_id@ != s2);
                        assert(self.entries@.last().sessions@.drop_first()
                            =~= Seq::<SessionRecord>::empty());
                        assert(spec_find_session(Seq::<SessionRecord>::empty(), s2) is None);
                        assert(spec_find_session(self.entries@.last().sessions@, s2)
                            is None);
                        lemma_find_none(pre.entries@, namespace_key@);
                    }
                    lemma_find_none(pre.entries@, namespace_key@);
                    assert forall|a: int, b: int|
                        0 <= a < b < self.entries@.len() implies #[trigger] self.entries@[a].key@
                        != (#[trigger] self.entries@[b].key@) by {
                        if b == self.entries@.len() - 1 {
                            assert(self.entries@[a] == pre.entries@[a]);
                        } else {
                            assert(self.entries@[a] == pre.entries@[a]);
                            assert(self.entries@[b] == pre.entries@[b]);
                        }
                    }
                }
            },
        }
    }

    /// Drops a namespace key outright: server-side revocation of all its
    /// sessions. Other keys keep their answers.
    pub fn remove(&mut self, namespace_key: &str)
        requires
            old(self).wf(),
        ensures
            final(self).wf(),
            final(self).spec_window() == old(self).spec_window(),
            final(self).spec_entry(namespace_key@) is None,
            forall|k2: Seq<char>|
                k2 != namespace_key@ ==> final(self).spec_entry(k2) == old(self).spec_entry(k2),
    {
        match Self::find_entry(&self.entries, namespace_key) {
            Some(i) => {
                let ghost pre = *self;
                self.entries.remove(i);
                proof {
                    lemma_remove_entry(pre, *self, namespace_key@, i as int);
                }
            },
            None => {},
        }
    }
}

/// After replacing or adding one session under an existing key's first
/// entry and sliding its deadline, the registry answers as `insert`
/// promises.
proof fn lemma_insert_existing(
    pre: SessionRegistry,
    post: SessionRegistry,
    key: Seq<char>,
    sid: Seq<char>,
    token: Seq<char>,
    now: i64,
    i: int,
)
    requires
        pre.wf(),
        0 <= i < pre.entries@.len(),
        pre.entries@[i].key@ == key,
        forall|j: int| 0 <= j < i ==> #[trigger] pre.entries@[j].key@ != key,
        post.window == pre.window,
        post.entries@.len() == pre.entries@.len(),
        post.entries@[i].key == pre.entries@[i].key,
        post.entries@[i].deadline == spec_slide(now, pre.window),
        spec_find_session(post.entries@[i].sessions@, sid) == Some(token),
        forall|s2: Seq<char>|
            s2 != sid ==> spec_find_session(post.entries@[i].sessions@, s2) == spec_find_session(
                pre.entries@[i].sessions@,
                s2,
            ),
        forall|j: int|
            0 <= j < pre.entries@.len() && j != i ==> post.entries@[j] == #[trigger] pre.entries@[j],
    ensures
        post.wf(),
        post.spec_window() == pre.spec_window(),
        post.spec_deadline_of(key) == Some(spec_slide(now, pre.spec_window())),
        post.spec_token_of(key, sid) == Some(token),
        forall|s2: Seq<char>|
            s2 != sid ==> post.spec_token_of(key, s2) == pre.spec_token_of(key, s2),
        forall|k2: Seq<char>| k2 != key ==> post.spec_entry(k2) == pre.spec_entry(k2),
{
    assert(post.entries@ =~= pre.entries@.update(i, post.entries@[i]));
    lemma_find_at(pre.entries@, key, i);
    lemma_find_update(pre.entries@, i, post.entries@[i], key);
    assert(post.spec_entry(key) == Some(post.entries@[i]));
    assert forall|k2: Seq<char>| k2 != key implies post.spec_entry(k2) == pre.spec_entry(k2) by {
        lemma_find_update(pre.entries@, i, post.entries@[i], k2);
    }
    assert forall|a: int, b: int|
        0 <= a < b < post.entries@.len() implies #[trigger] post.entries@[a].key@ != (
    #[trigger] post.entries@[b].key@) by {
        assert(post.entries@[a].key@ == pre.entries@[a].key@);
        assert(post.entries@[b].key@ == pre.entries@[b].key@);
    }
}

/// Removing a key's first (and, in a well-formed registry, only) entry
/// erases that key's answer and no other's.
proof fn lemma_remove_entry(pre: SessionRegistry, post: SessionRegistry, key: Seq<char>, i: int)
    requires
        pre.wf(),
        0 <= i < pre.entries@.len(),
        pre.entries@[i].key@ == key,
        post.window == pre.window,
        post.entries@ == pre.entries@.remove(i),
    ensures
        post.wf(),
        post.spec_entry(key) is None,
        forall|k2: Seq<char>| k2 != key ==> post.spec_entry(k2) == pre.spec_entry(k2),
{
    assert forall|j: int|
        0 <= j < post.entries@.len() implies #[trigger] post.entries@[j].key@ != key by {
        if j < i {
            assert(post.entries@[j] == pre.entries@[j]);
        } else {
            assert(post.entries@[j] == pre.entries@[j + 1]);
        }
    }
    lemma_find_none(post.entries@, key);
    assert forall|k2: Seq<char>| k2 != key implies post.spec_entry(k2) == pre.spec_entry(k2) by {
        lemma_find_remove(pre.entries@, i, k2);
    }
    assert forall|a: int, b: int|
        0 <= a < b < post.entries@.len() implies #[trigger] post.entries@[a].key@ != (
    #[trigger] post.entries@[b].key@) by {
        let a0 = if a < i { a } else { a + 1 };
        let b0 = if b < i { b } else { b + 1 };
        assert(post.entries@[a] == pre.entries@[a0]);
        assert(post.entries@[b] == pre.entries@[b0]);
    }
}

/// Removing an entry of one key leaves every other key's search untouched.
proof fn lemma_find_remove(entries: Seq<NamespaceEntry>, i: int, k2: Seq<char>)
    requires
        0 <= i < entries.len(),
        k2 != entries[i].key@,
    ensures
        spec_find(entries.remove(i), k2) == spec_find(entries, k2),
    decreases entries.len(),
{
    if i == 0 {
        assert(entries.remove(0) =~= entries.drop_first());
    } else {
        assert(entries.remove(i).drop_first() =~= entries.drop_first().remove(i - 1));
        if entries[0].key@ != k2 {
            lemma_find_remove(entries.drop_first(), i - 1, k2);
        }
    }
}

/// A hit's refresh sets the key's deadline to the full sliding window and
/// preserves every stored session of every key: the tokens of the
/// refreshed key stay word for word, and other keys keep their entries.
pub proof fn lemma_refresh_extends(
    pre: SessionRegistry,
    post: SessionRegistry,
    key: Seq<char>,
    now: i64,
)
    requires
        pre.wf(),
        SessionRegistry::spec_refreshed(pre, post, key, now),
    ensures
        post.wf(),
        post.spec_window() == pre.spec_window(),
        post.spec_deadline_of(key) == Some(spec_slide(now, pre.spec_window())),
        forall|sid: Seq<char>| post.spec_token_of(key, sid) == pre.spec_token_of(key, sid),
        forall|k2: Seq<char>| k2 != key ==> post.spec_entry(k2) == pre.spec_entry(k2),
{
    let i = choose|i: int|
        {
            &&& 0 <= i < pre.entries@.len()
            &&& (#[trigger] pre.entries@[i]).key@ == key
            &&& forall|j: int| 0 <= j < i ==> #[trigger] pre.entries@[j].key@ != key
            &&& post.entries@ == pre.entries@.update(
                i,
                NamespaceEntry {
                    key: pre.entries@[i].key,
                    deadline: spec_slide(now, pre.window),
                    sessions: pre.entries@[i].sessions,
                },
            )
        };
    lemma_find_at(pre.entries@, key, i);
    lemma_find_update(
        pre.entries@,
        i,
        NamespaceEntry {
            key: pre.entries@[i].key,
            deadline: spec_slide(now, pre.window),
            sessions: pre.entries@[i].sessions,
        },
        key,
    );
    assert forall|k2: Seq<char>| k2 != key implies post.spec_entry(k2) == pre.spec_entry(k2) by {
        lemma_find_update(
            pre.entries@,
            i,
            NamespaceEntry {
                key: pre.entries@[i].key,
                deadline: spec_slide(now, pre.window),
                sessions: pre.entries@[i].sessions,
            },
            k2,
        );
    }
    assert forall|a: int, b: int|
        0 <= a < b < post.entries@.len() implies #[trigger] post.entries@[a].key@ != (
    #[trigger] post.entries@[b].key@) by {
        assert(post.entries@[a].key@ == pre.entries@[a].key@);
        assert(post.entries@[b].key@ == pre.entries@[b].key@);
    }
}

/// Two refreshes of the same namespace key for different session ids, in
/// either interleaving order, both succeed and do not disturb each other:
/// each session keeps its own stored token throughout, and the deadline
/// stands at the full window measured from the later refresh.
pub proof fn lemma_concurrent_refresh(
    pre: SessionRegistry,
    mid: SessionRegistry,
    post: SessionRegistry,
    key: Seq<char>,
    sid1: Seq<char>,
    sid2: Seq<char>,
    now: i64,
)
    requires
        pre.wf(),
        pre.spec_window() + now <= i64::MAX,
        pre.spec_live(key, now),
        pre.spec_token_of(key, sid1) is Some,
        pre.spec_token_of(key, sid2) is Some,
        sid1 != sid2,
        SessionRegistry::spec_refreshed(pre, mid, key, now),
        SessionRegistry::spec_refreshed(mid, post, key, now),
    ensures
        pre.spec_hit(key, sid1, now) == pre.spec_token_of(key, sid1),
        mid.spec_hit(key, sid2, now) == pre.spec_token_of(key, sid2),
        post.spec_token_of(key, sid1) == pre.spec_token_of(key, sid1),
        post.spec_token_of(key, sid2) == pre.spec_token_of(key, sid2),
        post.spec_deadline_of(key) == Some(spec_slide(now, pre.spec_window())),
{
    lemma_refresh_extends(pre, mid, key, now);
    lemma_refresh_extends(mid, post, key, now);
}

} // verus!
