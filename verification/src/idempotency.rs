//! Idempotent requests: a request carrying an `Idempotency-Key` is answered
//! once; a retry with the same body gets the recorded response back, and a
//! retry with another body is refused.

use vstd::prelude::*;
use crate::text::{owned, push_str, str_equals};
use crate::http::{idempotency_record_kept, keep_idempotency_record, lookup, HttpRequest};
use crate::digest::{fnv1a64, fnv1a64_text};

verus! {

/// A response recorded for an idempotency key.
pub struct IdempotencyRecord {
    pub body_digest: String,
    pub status: u16,
    pub reason: String,
    pub content_type: String,
    pub body: Vec<u8>,
    pub stored_at: u64,
}

pub struct RecordView {
    pub body_digest: Seq<char>,
    pub status: u16,
    pub reason: Seq<char>,
    pub content_type: Seq<char>,
    pub body: Seq<u8>,
    pub stored_at: u64,
}

impl View for IdempotencyRecord {
    type V = RecordView;

    open spec fn view(&self) -> RecordView {
        RecordView {
            body_digest: self.body_digest@,
            status: self.status,
            reason: self.reason@,
            content_type: self.content_type@,
            body: self.body@,
            stored_at: self.stored_at,
        }
    }
}

fn copy_bytes(b: &Vec<u8>) -> (r: Vec<u8>)
    ensures
        r@ == b@,
{
    let mut r: Vec<u8> = Vec::new();
    let mut i: usize = 0;
    while i < b.len()
        invariant
            i <= b@.len(),
            r@ == b@.take(i as int),
        decreases b.len() - i,
    {
        r.push(b[i]);
        i = i + 1;
        assert(r@ =~= b@.take(i as int));
    }
    assert(b@.take(i as int) =~= b@);
    r
}

impl IdempotencyRecord {
    pub fn copy(&self) -> (r: Self)
        ensures
            r@ == self@,
    {
        IdempotencyRecord {
            body_digest: self.body_digest.clone(),
            status: self.status,
            reason: self.reason.clone(),
            content_type: self.content_type.clone(),
            body: copy_bytes(&self.body),
            stored_at: self.stored_at,
        }
    }
}

/// The record stored under a key, if any.
pub open spec fn record_for(entries: Seq<(Seq<char>, RecordView)>, key: Seq<char>) -> Option<RecordView>
    decreases entries.len(),
{
    if entries.len() == 0 {
        None
    } else if entries[0].0 == key {
        Some(entries[0].1)
    } else {
        record_for(entries.drop_first(), key)
    }
}

pub open spec fn distinct_keys(entries: Seq<(Seq<char>, RecordView)>) -> bool {
    forall|i: int, j: int| 0 <= i < j < entries.len() ==> #[trigger] entries[i].0 != #[trigger] entries[j].0
}

/// The recorded responses, each under its own cache key.
pub struct IdempotencyStore {
    entries: Vec<(String, IdempotencyRecord)>,
}

impl View for IdempotencyStore {
    type V = Seq<(Seq<char>, RecordView)>;

    closed spec fn view(&self) -> Seq<(Seq<char>, RecordView)> {
        self.entries@.map_values(|e: (String, IdempotencyRecord)| (e.0@, e.1@))
    }
}

impl IdempotencyStore {
    /// No key occurs twice.
    pub open spec fn wf(&self) -> bool {
        distinct_keys(self@)
    }

    pub fn new() -> (s: Self)
        ensures
            s@ == Seq::<(Seq<char>, RecordView)>::empty(),
            s.wf(),
    {
        let s = IdempotencyStore { entries: Vec::new() };
        assert(s@ =~= Seq::<(Seq<char>, RecordView)>::empty());
        s
    }

    /// The record stored under `key`.
    pub fn get(&self, key: &str) -> (r: Option<&IdempotencyRecord>)
        ensures
            match r {
                Some(rec) => record_for(self@, key@) == Some(rec@),
                None => record_for(self@, key@) is None,
            },
    {
        let ghost v = self@;
        let mut i: usize = 0;
        assert(v.skip(0) =~= v);
        while i < self.entries.len()
            invariant
                i <= self.entries@.len(),
                v == self@,
                v.len() == self.entries@.len(),
                record_for(v, key@) == record_for(v.skip(i as int), key@),
            decreases self.entries.len() - i,
        {
            assert(v[i as int] == (self.entries@[i as int].0@, self.entries@[i as int].1@));
            assert(v.skip(i as int)[0] == v[i as int]);
            assert(v.skip(i as int).drop_first() =~= v.skip(i + 1));
            if str_equals(self.entries[i].0.as_str(), key) {
                return Some(&self.entries[i].1);
            }
            i = i + 1;
        }
        None
    }

    fn position(&self, key: &str) -> (r: Option<usize>)
        ensures
            match r {
                Some(i) => i < self@.len() && self@[i as int].0 == key@,
                None => forall|j: int| 0 <= j < self@.len() ==> self@[j].0 != key@,
            },
    {
        let ghost v = self@;
        let mut i: usize = 0;
        while i < self.entries.len()
            invariant
                i <= self.entries@.len(),
                v == self@,
                v.len() == self.entries@.len(),
                forall|j: int| 0 <= j < i ==> v[j].0 != key@,
            decreases self.entries.len() - i,
        {
            assert(v[i as int] == (self.entries@[i as int].0@, self.entries@[i as int].1@));
            if str_equals(self.entries[i].0.as_str(), key) {
                return Some(i);
            }
            i = i + 1;
        }
        None
    }

    /// Stores `record` under `key`, replacing what was stored there.
    pub fn insert(&mut self, key: String, record: IdempotencyRecord)
        requires
            old(self).wf(),
        ensures
            final(self).wf(),
            record_for(final(self)@, key@) == Some(record@),
            forall|k: Seq<char>| k != key@ ==> record_for(final(self)@, k) == record_for(old(self)@, k),
    {
        let ghost v = self@;
        let ghost kv = key@;
        let ghost rv = record@;
        let found = self.position(key.as_str());
        if let Some(i) = found {
            self.entries.set(i, (key, record));
            proof {
                let w = self@;
                assert(w =~= v.update(i as int, (kv, rv)));
                lemma_record_for_update(v, i as int, kv, rv);
            }
        } else {
            self.entries.push((key, record));
            proof {
                let w = self@;
                assert(w =~= v.push((kv, rv)));
                lemma_record_for_push(v, kv, rv);
            }
        }
    }

    /// Drops the records older than the retention (floored to a minute).
    pub fn prune(&mut self, now: u64, retention: u64)
        requires
            old(self).wf(),
        ensures
            final(self).wf(),
            forall|k: Seq<char>| #[trigger] record_for(final(self)@, k) == (match record_for(old(self)@, k) {
                Some(r) => if idempotency_record_kept(now, r.stored_at, retention) { Some(r) } else { None },
                None => None,
            }),
    {
        let ghost v = self@;
        let mut old_entries: Vec<(String, IdempotencyRecord)> = Vec::new();
        std::mem::swap(&mut old_entries, &mut self.entries);
        let mut kept: Vec<(String, IdempotencyRecord)> = Vec::new();
        let mut i: usize = 0;
        assert(v.take(0) =~= Seq::<(Seq<char>, RecordView)>::empty());
        while i < old_entries.len()
            invariant
                i <= old_entries@.len(),
                v == old_entries@.map_values(|e: (String, IdempotencyRecord)| (e.0@, e.1@)),
                kept@.map_values(|e: (String, IdempotencyRecord)| (e.0@, e.1@))
                    == kept_entries(v.take(i as int), now, retention),
            decreases old_entries.len() - i,
        {
            let e = &old_entries[i];
            proof {
                assert(v.take(i + 1).drop_last() =~= v.take(i as int));
                assert(v.take(i + 1).last() == (e.0@, e.1@));
            }
            if keep_idempotency_record(now, e.1.stored_at, retention) {
                let ghost before = kept@.map_values(|e: (String, IdempotencyRecord)| (e.0@, e.1@));
                kept.push((e.0.clone(), e.1.copy()));
                assert(kept@.map_values(|e: (String, IdempotencyRecord)| (e.0@, e.1@)) =~= before.push((e.0@, e.1@)));
            }
            i = i + 1;
        }
        assert(v.take(i as int) =~= v);
        self.entries = kept;
        proof {
            lemma_kept_entries(v, now, retention);
        }
    }
}

/// The entries whose records are kept, in order.
pub open spec fn kept_entries(s: Seq<(Seq<char>, RecordView)>, now: u64, retention: u64) -> Seq<(Seq<char>, RecordView)>
    decreases s.len(),
{
    if s.len() == 0 {
        Seq::empty()
    } else {
        let r = kept_entries(s.drop_last(), now, retention);
        if idempotency_record_kept(now, s.last().1.stored_at, retention) {
            r.push(s.last())
        } else {
            r
        }
    }
}

pub proof fn lemma_record_for_index(s: Seq<(Seq<char>, RecordView)>, k: Seq<char>)
    ensures
        match record_for(s, k) {
            Some(r) => exists|i: int| 0 <= i < s.len() && s[i] == (k, r)
                && forall|j: int| 0 <= j < i ==> s[j].0 != k,
            None => forall|j: int| 0 <= j < s.len() ==> s[j].0 != k,
        },
    decreases s.len(),
{
    if s.len() > 0 {
        lemma_record_for_index(s.drop_first(), k);
        if s[0].0 != k {
            match record_for(s.drop_first(), k) {
                Some(r) => {
                    let i = choose|i: int| 0 <= i < s.drop_first().len() && s.drop_first()[i] == (k, r)
                        && forall|j: int| 0 <= j < i ==> s.drop_first()[j].0 != k;
                    assert(s[i + 1] == (k, r));
                    assert forall|j: int| 0 <= j < i + 1 implies s[j].0 != k by {
                        if j > 0 {
                            assert(s[j] == s.drop_first()[j - 1]);
                        }
                    }
                },
                None => {
                    assert forall|j: int| 0 <= j < s.len() implies s[j].0 != k by {
                        if j > 0 {
                            assert(s[j] == s.drop_first()[j - 1]);
                        }
                    }
                },
            }
        } else {
            assert(s[0] == (k, s[0].1));
        }
    }
}

/// With distinct keys, the record under `k` is the one at the entry named `k`.
pub proof fn lemma_record_for_at(s: Seq<(Seq<char>, RecordView)>, i: int)
    requires
        distinct_keys(s),
        0 <= i < s.len(),
    ensures
        record_for(s, s[i].0) == Some(s[i].1),
    decreases s.len(),
{
    if i > 0 {
        assert(s[0].0 != s[i].0);
        let t = s.drop_first();
        assert(t[i - 1] == s[i]);
        assert forall|a: int, b: int| 0 <= a < b < t.len() implies #[trigger] t[a].0 != #[trigger] t[b].0 by {
            assert(t[a] == s[a + 1] && t[b] == s[b + 1]);
        }
        lemma_record_for_at(t, i - 1);
    }
}

proof fn lemma_record_for_update(s: Seq<(Seq<char>, RecordView)>, i: int, k: Seq<char>, r: RecordView)
    requires
        distinct_keys(s),
        0 <= i < s.len(),
        s[i].0 == k,
    ensures
        distinct_keys(s.update(i, (k, r))),
        record_for(s.update(i, (k, r)), k) == Some(r),
        forall|k2: Seq<char>| k2 != k ==> record_for(s.update(i, (k, r)), k2) == record_for(s, k2),
{
    let t = s.update(i, (k, r));
    assert forall|a: int, b: int| 0 <= a < b < t.len() implies #[trigger] t[a].0 != #[trigger] t[b].0 by {
        assert(t[a].0 == s[a].0 && t[b].0 == s[b].0);
    }
    lemma_record_for_at(t, i);
    assert forall|k2: Seq<char>| k2 != k implies record_for(t, k2) == record_for(s, k2) by {
        lemma_record_for_index(s, k2);
        lemma_record_for_index(t, k2);
        match record_for(s, k2) {
            Some(x) => {
                let j = choose|j: int| 0 <= j < s.len() && s[j] == (k2, x)
                    && forall|q: int| 0 <= q < j ==> s[q].0 != k2;
                assert(t[j] == s[j]);
                lemma_record_for_at(t, j);
            },
            None => {
                match record_for(t, k2) {
                    Some(y) => {
                        let j = choose|j: int| 0 <= j < t.len() && t[j] == (k2, y)
                            && forall|q: int| 0 <= q < j ==> t[q].0 != k2;
                        assert(s[j].0 == t[j].0);
                    },
                    None => {},
                }
            },
        }
    }
}

proof fn lemma_record_for_push(s: Seq<(Seq<char>, RecordView)>, k: Seq<char>, r: RecordView)
    requires
        distinct_keys(s),
        forall|j: int| 0 <= j < s.len() ==> s[j].0 != k,
    ensures
        distinct_keys(s.push((k, r))),
        record_for(s.push((k, r)), k) == Some(r),
        forall|k2: Seq<char>| k2 != k ==> record_for(s.push((k, r)), k2) == record_for(s, k2),
{
    let t = s.push((k, r));
    assert forall|a: int, b: int| 0 <= a < b < t.len() implies #[trigger] t[a].0 != #[trigger] t[b].0 by {
        if b == s.len() {
            assert(t[a] == s[a]);
        } else {
            assert(t[a] == s[a] && t[b] == s[b]);
        }
    }
    lemma_record_for_at(t, s.len() as int);
    assert forall|k2: Seq<char>| k2 != k implies record_for(t, k2) == record_for(s, k2) by {
        lemma_record_for_index(s, k2);
        lemma_record_for_index(t, k2);
        match record_for(s, k2) {
            Some(x) => {
                let j = choose|j: int| 0 <= j < s.len() && s[j] == (k2, x)
                    && forall|q: int| 0 <= q < j ==> s[q].0 != k2;
                assert(t[j] == s[j]);
                lemma_record_for_at(t, j);
            },
            None => {
                match record_for(t, k2) {
                    Some(y) => {
                        let j = choose|j: int| 0 <= j < t.len() && t[j] == (k2, y)
                            && forall|q: int| 0 <= q < j ==> t[q].0 != k2;
                        if j < s.len() {
                            assert(s[j] == t[j]);
                        }
                    },
                    None => {},
                }
            },
        }
    }
}

proof fn lemma_kept_entries(s: Seq<(Seq<char>, RecordView)>, now: u64, retention: u64)
    requires
        distinct_keys(s),
    ensures
        distinct_keys(kept_entries(s, now, retention)),
        forall|j: int| 0 <= j < kept_entries(s, now, retention).len() ==>
            s.contains(#[trigger] kept_entries(s, now, retention)[j]),
        forall|k: Seq<char>| #[trigger] record_for(kept_entries(s, now, retention), k) == (match record_for(s, k) {
            Some(r) => if idempotency_record_kept(now, r.stored_at, retention) { Some(r) } else { None },
            None => None,
        }),
    decreases s.len(),
{
    if s.len() > 0 {
        let p = s.drop_last();
        let x = s.last();
        assert forall|a: int, b: int| 0 <= a < b < p.len() implies #[trigger] p[a].0 != #[trigger] p[b].0 by {
            assert(p[a] == s[a] && p[b] == s[b]);
        }
        lemma_kept_entries(p, now, retention);
        let r = kept_entries(p, now, retention);
        assert forall|j: int| 0 <= j < p.len() implies p[j].0 != x.0 by {
            assert(p[j] == s[j]);
        }
        assert forall|j: int| 0 <= j < r.len() implies r[j].0 != x.0 by {
            assert(p.contains(r[j]));
        }
        assert(s =~= p.push(x));
        assert forall|k: Seq<char>| #[trigger] record_for(kept_entries(s, now, retention), k) == (match record_for(s, k) {
            Some(rr) => if idempotency_record_kept(now, rr.stored_at, retention) { Some(rr) } else { None },
            None => None,
        }) by {
            lemma_record_for_push(p, x.0, x.1);
            assert(s.drop_last() == p && s.last() == x);
            assert(record_for(r, k) == (match record_for(p, k) {
                Some(rr) => if idempotency_record_kept(now, rr.stored_at, retention) { Some(rr) } else { None },
                None => None,
            }));
            if idempotency_record_kept(now, x.1.stored_at, retention) {
                lemma_record_for_push(r, x.0, x.1);
                assert(kept_entries(s, now, retention) == r.push(x));
            } else {
                assert(kept_entries(s, now, retention) == r);
                if k == x.0 {
                    lemma_record_for_index(r, k);
                }
            }
        }
        if idempotency_record_kept(now, x.1.stored_at, retention) {
            lemma_record_for_push(r, x.0, x.1);
            assert forall|j: int| 0 <= j < r.push(x).len() implies s.contains(#[trigger] r.push(x)[j]) by {
                if j < r.len() {
                    assert(p.contains(r[j]));
                    let q = choose|q: int| 0 <= q < p.len() && p[q] == r[j];
                    assert(s[q] == p[q]);
                } else {
                    assert(s[s.len() - 1] == x);
                }
            }
        } else {
            assert forall|j: int| 0 <= j < r.len() implies s.contains(#[trigger] r[j]) by {
                assert(p.contains(r[j]));
                let q = choose|q: int| 0 <= q < p.len() && p[q] == r[j];
                assert(s[q] == p[q]);
            }
        }
    }
}

} // verus!

verus! {

/// The idempotency key of a request: its `idempotency-key` header, trimmed,
/// unless that leaves nothing.
pub open spec fn request_idempotency_key(r: crate::http::HttpRequestView) -> Option<Seq<char>> {
    match lookup(r.headers, "idempotency-key"@) {
        Some(v) => if crate::text::trimmed(v).len() == 0 {
            None
        } else {
            Some(crate::text::trimmed(v))
        },
        None => None,
    }
}

pub fn idempotency_key(request: &HttpRequest) -> (r: Option<String>)
    ensures
        crate::text::opt_view(r) == request_idempotency_key(request@),
{
    match request.header("idempotency-key") {
        Some(v) => {
            let chars = crate::text::chars_of(v.as_str());
            let (start, end) = crate::text::trim_bounds(chars.as_slice());
            if start == end {
                None
            } else {
                Some(crate::text::substring(chars.as_slice(), start, end))
            }
        },
        None => None,
    }
}

/// Whose request it is: its `authorization` header, or `local`.
pub open spec fn request_subject(r: crate::http::HttpRequestView) -> Seq<char> {
    match lookup(r.headers, "authorization"@) {
        Some(v) => v,
        None => "local"@,
    }
}

pub fn idempotency_subject(request: &HttpRequest) -> (s: String)
    ensures
        s@ == request_subject(request@),
{
    match request.header("authorization") {
        Some(v) => v.clone(),
        None => owned("local"),
    }
}

/// Responses are recorded per operation, workspace, caller, path and key.
pub open spec fn cache_key(r: crate::http::HttpRequestView, workspace_id: Seq<char>, operation: Seq<char>, key: Seq<char>) -> Seq<char> {
    operation + "|"@ + workspace_id + "|"@ + request_subject(r) + "|"@ + r.path + "|"@ + key
}

pub fn idempotency_cache_key(request: &HttpRequest, workspace_id: &str, operation: &str, key: &str) -> (s: String)
    ensures
        s@ == cache_key(request@, workspace_id@, operation@, key@),
{
    let mut s = owned(operation);
    push_str(&mut s, "|");
    push_str(&mut s, workspace_id);
    push_str(&mut s, "|");
    let subject = idempotency_subject(request);
    push_str(&mut s, subject.as_str());
    push_str(&mut s, "|");
    push_str(&mut s, request.path.as_str());
    push_str(&mut s, "|");
    push_str(&mut s, key);
    assert(s@ =~= cache_key(request@, workspace_id@, operation@, key@));
    s
}

/// A request body is compared by its FNV-1a digest.
pub fn idempotency_body_digest(request: &HttpRequest) -> (s: String)
    ensures
        s@ == fnv1a64_text(request@.body),
{
    fnv1a64(request.body.as_slice())
}

/// What to do with a request that may repeat an earlier one.
pub enum IdempotencyDecision {
    /// Run it: it has no key, or nothing is recorded for its key.
    Proceed,
    /// Answer with the recorded response.
    Replay(IdempotencyRecord),
    /// Refuse it: its key was used with another body.
    Conflict { body_digest: String },
}

pub enum DecisionView {
    Proceed,
    Replay(RecordView),
    Conflict(Seq<char>),
}

impl View for IdempotencyDecision {
    type V = DecisionView;

    open spec fn view(&self) -> DecisionView {
        match self {
            IdempotencyDecision::Proceed => DecisionView::Proceed,
            IdempotencyDecision::Replay(r) => DecisionView::Replay(r@),
            IdempotencyDecision::Conflict { body_digest } => DecisionView::Conflict(body_digest@),
        }
    }
}

/// The decision for a request whose body has `digest`, given the record
/// stored under its cache key: a record past retention counts as absent.
pub open spec fn decision_from(found: Option<RecordView>, digest: Seq<char>, now: u64, retention: u64) -> DecisionView {
    match found {
        Some(r) => if !idempotency_record_kept(now, r.stored_at, retention) {
            DecisionView::Proceed
        } else if r.body_digest == digest {
            DecisionView::Replay(r)
        } else {
            DecisionView::Conflict(digest)
        },
        None => DecisionView::Proceed,
    }
}

/// The store after dropping records past retention.
pub open spec fn pruned(old: Seq<(Seq<char>, RecordView)>, new: Seq<(Seq<char>, RecordView)>, now: u64, retention: u64) -> bool {
    forall|k: Seq<char>| #[trigger] record_for(new, k) == (match record_for(old, k) {
        Some(r) => if idempotency_record_kept(now, r.stored_at, retention) { Some(r) } else { None },
        None => None,
    })
}

/// Decides whether a request repeats a recorded one; a request with a key
/// first drops the records past retention.
pub fn idempotency_replay_or_conflict(
    store: &mut IdempotencyStore,
    request: &HttpRequest,
    workspace_id: &str,
    operation: &str,
    now: u64,
    retention: u64,
) -> (r: IdempotencyDecision)
    requires
        old(store).wf(),
    ensures
        final(store).wf(),
        match request_idempotency_key(request@) {
            None => r@ == DecisionView::Proceed && final(store)@ == old(store)@,
            Some(key) => {
                &&& pruned(old(store)@, final(store)@, now, retention)
                &&& r@ == decision_from(
                    record_for(old(store)@, cache_key(request@, workspace_id@, operation@, key)),
                    fnv1a64_text(request@.body), now, retention)
            },
        },
{
    let key = match idempotency_key(request) {
        Some(k) => k,
        None => return IdempotencyDecision::Proceed,
    };
    store.prune(now, retention);
    let ck = idempotency_cache_key(request, workspace_id, operation, key.as_str());
    let digest = idempotency_body_digest(request);
    match store.get(ck.as_str()) {
        Some(record) => {
            if str_equals(record.body_digest.as_str(), digest.as_str()) {
                IdempotencyDecision::Replay(record.copy())
            } else {
                IdempotencyDecision::Conflict { body_digest: digest }
            }
        },
        None => IdempotencyDecision::Proceed,
    }
}

/// The record kept for a response to a request with key: the body digest,
/// the status line, the JSON body and the time.
pub open spec fn success_record(digest: Seq<char>, status: u16, reason: Seq<char>, body: Seq<u8>, now: u64) -> RecordView {
    RecordView {
        body_digest: digest,
        status,
        reason,
        content_type: "application/json"@,
        body,
        stored_at: now,
    }
}

/// Records the response to a request with a key (after dropping the
/// records past retention); a request without a key records nothing.
pub fn record_idempotent_success(
    store: &mut IdempotencyStore,
    request: &HttpRequest,
    workspace_id: &str,
    operation: &str,
    status: u16,
    reason: &str,
    body: Vec<u8>,
    now: u64,
    retention: u64,
)
    requires
        old(store).wf(),
    ensures
        final(store).wf(),
        match request_idempotency_key(request@) {
            None => final(store)@ == old(store)@,
            Some(key) => {
                let ck = cache_key(request@, workspace_id@, operation@, key);
                &&& record_for(final(store)@, ck) == Some(success_record(
                    fnv1a64_text(request@.body), status, reason@, body@, now))
                &&& forall|k: Seq<char>| k != ck ==> #[trigger] record_for(final(store)@, k) == (match record_for(old(store)@, k) {
                    Some(r) => if idempotency_record_kept(now, r.stored_at, retention) { Some(r) } else { None },
                    None => None,
                })
            },
        },
{
    let key = match idempotency_key(request) {
        Some(k) => k,
        None => return,
    };
    store.prune(now, retention);
    let ck = idempotency_cache_key(request, workspace_id, operation, key.as_str());
    let record = IdempotencyRecord {
        body_digest: idempotency_body_digest(request),
        status,
        reason: owned(reason),
        content_type: owned("application/json"),
        body,
        stored_at: now,
    };
    store.insert(ck, record);
}

/// A retry (same operation, workspace, caller, path and key) with the same
/// body, within retention of the recorded response, is answered with it.
pub proof fn lemma_retry_replays_recorded_response(
    store: Seq<(Seq<char>, RecordView)>,
    first: crate::http::HttpRequestView,
    retry: crate::http::HttpRequestView,
    workspace_id: Seq<char>,
    operation: Seq<char>,
    status: u16,
    reason: Seq<char>,
    body: Seq<u8>,
    recorded_at: u64,
    now: u64,
    retention: u64,
)
    requires
        request_idempotency_key(first) is Some,
        request_idempotency_key(retry) == request_idempotency_key(first),
        request_subject(retry) == request_subject(first),
        retry.path == first.path,
        retry.body == first.body,
        record_for(store, cache_key(first, workspace_id, operation, request_idempotency_key(first).unwrap()))
            == Some(success_record(fnv1a64_text(first.body), status, reason, body, recorded_at)),
        idempotency_record_kept(now, recorded_at, retention),
    ensures
        decision_from(
            record_for(store, cache_key(retry, workspace_id, operation, request_idempotency_key(retry).unwrap())),
            fnv1a64_text(retry.body), now, retention,
        ) == DecisionView::Replay(success_record(fnv1a64_text(first.body), status, reason, body, recorded_at)),
{
}

/// A retry with another body, within retention, is refused as a conflict.
pub proof fn lemma_retry_with_other_body_conflicts(
    store: Seq<(Seq<char>, RecordView)>,
    first: crate::http::HttpRequestView,
    retry: crate::http::HttpRequestView,
    workspace_id: Seq<char>,
    operation: Seq<char>,
    status: u16,
    reason: Seq<char>,
    body: Seq<u8>,
    recorded_at: u64,
    now: u64,
    retention: u64,
)
    requires
        request_idempotency_key(first) is Some,
        request_idempotency_key(retry) == request_idempotency_key(first),
        request_subject(retry) == request_subject(first),
        retry.path == first.path,
        fnv1a64_text(retry.body) != fnv1a64_text(first.body),
        record_for(store, cache_key(first, workspace_id, operation, request_idempotency_key(first).unwrap()))
            == Some(success_record(fnv1a64_text(first.body), status, reason, body, recorded_at)),
        idempotency_record_kept(now, recorded_at, retention),
    ensures
        decision_from(
            record_for(store, cache_key(retry, workspace_id, operation, request_idempotency_key(retry).unwrap())),
            fnv1a64_text(retry.body), now, retention,
        ) == DecisionView::Conflict(fnv1a64_text(retry.body)),
{
}

} // verus!
