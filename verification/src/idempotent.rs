//! Idempotent request handling: a key derived from a request is remembered for a
//! time-to-live; a repeated key is a duplicate.
//!
//! Times are milliseconds of a monotonic clock.
use vstd::prelude::*;
use crate::proxy::ProxyError;
use crate::text::{str_eq, concat_str};

verus! {

/// What to do when a duplicate request is detected.
#[derive(Debug, Clone, Copy, PartialEq, Eq, Structural)]
pub enum OnDuplicate {
    /// Return the cached result from the first request.
    Cached,
    /// Skip processing and return null/empty response.
    Skip,
    /// Return an error indicating duplicate request.
    Error,
}

impl Default for OnDuplicate {
    fn default() -> (r: OnDuplicate)
        ensures
            r == OnDuplicate::Cached,
    {
        OnDuplicate::Cached
    }
}

/// Cached entry with expiration time.
#[derive(Debug)]
pub struct CacheEntry {
    /// Cached response body (if available).
    pub response: Option<Vec<u8>>,
    /// When this entry expires.
    pub expires_at: u64,
}

/// View of an entry: its response bytes and its expiry time.
pub type EntryView = (Option<Seq<u8>>, u64);

pub open spec fn entry_view(e: CacheEntry) -> EntryView {
    (
        match e.response {
            Some(r) => Some(r@),
            None => None,
        },
        e.expires_at,
    )
}

/// In-memory idempotency store with expiry.
pub struct IdempotencyStore {
    entries: Vec<(String, CacheEntry)>,
}

/// The entries of a key list as a map; keys are unique.
pub open spec fn entries_view(entries: Seq<(String, CacheEntry)>) -> Map<Seq<char>, EntryView> {
    Map::new(
        |k: Seq<char>| exists|i: int| 0 <= i < entries.len() && (#[trigger] entries[i]).0@ == k,
        |k: Seq<char>|
            {
                let i = choose|i: int| 0 <= i < entries.len() && (#[trigger] entries[i]).0@ == k;
                entry_view(entries[i].1)
            },
    )
}

/// The key is known and has not expired at `now`.
pub open spec fn live(m: Map<Seq<char>, EntryView>, key: Seq<char>, now: u64) -> bool {
    m.contains_key(key) && m[key].1 > now
}

/// The store after a first request of `key` at `now`: the key is reserved, without
/// a response, until `now + ttl`.
pub open spec fn spec_reserve(m: Map<Seq<char>, EntryView>, key: Seq<char>, now: u64, ttl: u64) -> Map<Seq<char>, EntryView> {
    m.insert(key, (None, (now + ttl) as u64))
}

impl View for IdempotencyStore {
    type V = Map<Seq<char>, EntryView>;

    closed spec fn view(&self) -> Map<Seq<char>, EntryView> {
        entries_view(self.entries@)
    }
}

impl IdempotencyStore {
    #[verifier::type_invariant]
    spec fn inv(self) -> bool {
        forall|i: int, j: int|
            0 <= i < j < self.entries.len() ==> (#[trigger] self.entries@[i]).0@ != (
            #[trigger] self.entries@[j]).0@
    }

    /// An empty store.
    pub fn new() -> (s: IdempotencyStore)
        ensures
            s@ == Map::<Seq<char>, EntryView>::empty(),
    {
        let s = IdempotencyStore { entries: Vec::new() };
        assert(s@ =~= Map::<Seq<char>, EntryView>::empty());
        s
    }

    fn position(&self, key: &str) -> (r: Option<usize>)
        ensures
            match r {
                Some(i) => i < self.entries@.len() && self.entries@[i as int].0@ == key@,
                None => forall|j: int| 0 <= j < self.entries@.len() ==> self.entries@[j].0@ != key@,
            },
    {
        let mut i: usize = 0;
        while i < self.entries.len()
            invariant
                i <= self.entries@.len(),
                forall|j: int| 0 <= j < i ==> self.entries@[j].0@ != key@,
            decreases self.entries@.len() - i,
        {
            if str_eq(self.entries[i].0.as_str(), key) {
                return Some(i);
            }
            i = i + 1;
        }
        None
    }

    /// Sets the entry of `key`, replacing the existing one.
    fn put(&mut self, key: &str, entry: CacheEntry)
        ensures
            final(self)@ == old(self)@.insert(key@, entry_view(entry)),
    {
        proof {
            use_type_invariant(&*self);
        }
        let ghost ev = entry_view(entry);
        let pos = self.position(key);
        let mut entries: Vec<(String, CacheEntry)> = Vec::new();
        std::mem::swap(&mut entries, &mut self.entries);
        let ghost before = entries@;
        match pos {
            Some(i) => {
                entries.set(i, (key.to_owned(), entry));
                proof {
                    let after = entries@;
                    assert forall|k: Seq<char>| #[trigger] entries_view(after).contains_key(k)
                        == entries_view(before).insert(key@, ev).contains_key(k) by {
                        if k != key@ {
                            if exists|a: int| 0 <= a < before.len() && (#[trigger] before[a]).0@ == k {
                                let a = choose|a: int| 0 <= a < before.len() && (#[trigger] before[a]).0@ == k;
                                assert(after[a] == before[a]);
                            }
                            if exists|a: int| 0 <= a < after.len() && (#[trigger] after[a]).0@ == k {
                                let a = choose|a: int| 0 <= a < after.len() && (#[trigger] after[a]).0@ == k;
                                assert(after[a] == before[a]);
                            }
                        } else {
                            assert(after[i as int].0@ == k);
                        }
                    }
                    assert forall|k: Seq<char>| #[trigger] entries_view(after).contains_key(k)
                        implies entries_view(after)[k] == entries_view(before).insert(key@, ev)[k] by {
                        let a = choose|a: int| 0 <= a < after.len() && (#[trigger] after[a]).0@ == k;
                        if k == key@ {
                            assert(a == i);
                        } else {
                            assert(after[a] == before[a]);
                            let b = choose|b: int| 0 <= b < before.len() && (#[trigger] before[b]).0@ == k;
                            assert(b == a);
                        }
                    }
                    assert(entries_view(after) =~= entries_view(before).insert(key@, ev));
                }
            },
            None => {
                entries.push((key.to_owned(), entry));
                proof {
                    let after = entries@;
                    assert forall|k: Seq<char>| #[trigger] entries_view(after).contains_key(k)
                        == entries_view(before).insert(key@, ev).contains_key(k) by {
                        if k != key@ {
                            if exists|a: int| 0 <= a < before.len() && (#[trigger] before[a]).0@ == k {
                                let a = choose|a: int| 0 <= a < before.len() && (#[trigger] before[a]).0@ == k;
                                assert(after[a] == before[a]);
                            }
                        } else {
                            assert(after[before.len() as int].0@ == k);
                        }
                    }
                    assert forall|k: Seq<char>| #[trigger] entries_view(after).contains_key(k)
                        implies entries_view(after)[k] == entries_view(before).insert(key@, ev)[k] by {
                        let a = choose|a: int| 0 <= a < after.len() && (#[trigger] after[a]).0@ == k;
                        if k == key@ {
                            assert(a == before.len());
                        } else {
                            assert(after[a] == before[a]);
                            let b = choose|b: int| 0 <= b < before.len() && (#[trigger] before[b]).0@ == k;
                            assert(b == a);
                        }
                    }
                    assert(entries_view(after) =~= entries_view(before).insert(key@, ev));
                }
            },
        }
        std::mem::swap(&mut entries, &mut self.entries);
    }

    /// Reserves `key` at `now` unless a live entry exists. Returns `true` for the
    /// first request (the key is then reserved until `now + ttl`) and `false` for a
    /// duplicate (the store is unchanged).
    pub fn set_if_not_exists(&mut self, key: &str, ttl: u64, now: u64) -> (r: bool)
        requires
            now + ttl <= u64::MAX,
        ensures
            r == !live(old(self)@, key@, now),
            r ==> final(self)@ == spec_reserve(old(self)@, key@, now, ttl),
            !r ==> final(self)@ == old(self)@,
    {
        proof {
            use_type_invariant(&*self);
        }
        match self.position(key) {
            Some(i) => {
                proof {
                    self.lemma_view_at(i as int);
                }
                if self.entries[i].1.expires_at > now {
                    return false;
                }
            },
            None => {
                proof {
                    self.lemma_view_absent(key@);
                }
            },
        }
        self.put(key, CacheEntry { response: None, expires_at: now + ttl });
        true
    }

    /// The cached response of `key`, if the key is live at `now` and has one.
    pub fn get(&self, key: &str, now: u64) -> (r: Option<Vec<u8>>)
        ensures
            match r {
                Some(bytes) => live(self@, key@, now) && self@[key@].0 == Some(bytes@),
                None => !live(self@, key@, now) || self@[key@].0 is None,
            },
    {
        proof {
            use_type_invariant(self);
        }
        match self.position(key) {
            Some(i) => {
                proof {
                    self.lemma_view_at(i as int);
                }
                if self.entries[i].1.expires_at > now {
                    match &self.entries[i].1.response {
                        Some(bytes) => Some(bytes.clone()),
                        None => None,
                    }
                } else {
                    None
                }
            },
            None => {
                proof {
                    self.lemma_view_absent(key@);
                }
                None
            },
        }
    }

    /// Stores the response of `key`, live until `now + ttl`.
    pub fn set_response(&mut self, key: &str, response: Vec<u8>, ttl: u64, now: u64)
        requires
            now + ttl <= u64::MAX,
        ensures
            final(self)@ == old(self)@.insert(key@, (Some(response@), (now + ttl) as u64)),
    {
        let ghost rv = response@;
        self.put(key, CacheEntry { response: Some(response), expires_at: now + ttl });
    }

    /// Removes the entries that have expired at `now`.
    pub fn cleanup(&mut self, now: u64)
        ensures
            final(self)@ == old(self)@.restrict(
                old(self)@.dom().filter(|k: Seq<char>| old(self)@[k].1 > now),
            ),
    {
        proof {
            use_type_invariant(&*self);
        }
        let mut entries: Vec<(String, CacheEntry)> = Vec::new();
        std::mem::swap(&mut entries, &mut self.entries);
        let ghost before = entries@;
        let mut kept: Vec<(String, CacheEntry)> = Vec::new();
        let ghost mut kept_idx: Seq<int> = Seq::empty();
        while entries.len() > 0
            invariant
                entries@ == before.take(entries@.len() as int),
                entries@.len() <= before.len(),
                forall|a: int, b: int|
                    0 <= a < b < before.len() ==> (#[trigger] before[a]).0@ != (#[trigger] before[b]).0@,
                kept@.len() == kept_idx.len(),
                forall|j: int| 0 <= j < kept@.len() ==> entries@.len() <= #[trigger] kept_idx[j] < before.len()
                    && kept@[j] == before[kept_idx[j]] && before[kept_idx[j]].1.expires_at > now,
                forall|a: int|
                    entries@.len() <= a < before.len() && before[a].1.expires_at > now ==> exists|j: int|
                        0 <= j < kept_idx.len() && #[trigger] kept_idx[j] == a,
                forall|j1: int, j2: int|
                    0 <= j1 < j2 < kept_idx.len() ==> #[trigger] kept_idx[j1] != #[trigger] kept_idx[j2],
            decreases entries@.len(),
        {
            let ghost prev_idx = kept_idx;
            let ghost prev_entries = entries@;
            let e = entries.pop().unwrap();
            let ghost a = entries@.len() as int;
            assert(e == before[a]) by {
                assert(prev_entries[a] == before[a]);
            }
            if e.1.expires_at > now {
                kept.push(e);
                proof {
                    kept_idx = kept_idx.push(a);
                }
            }
            proof {
                assert forall|b: int|
                    entries@.len() <= b < before.len() && before[b].1.expires_at > now implies exists|j: int|
                        0 <= j < kept_idx.len() && #[trigger] kept_idx[j] == b by {
                    if b == a {
                        assert(kept_idx[kept_idx.len() - 1] == b);
                    } else {
                        let j = choose|j: int| 0 <= j < prev_idx.len() && #[trigger] prev_idx[j] == b;
                        assert(kept_idx[j] == b);
                    }
                }
            }
        }
        proof {
            let after = kept@;
            let m = entries_view(before);
            let target = m.restrict(m.dom().filter(|k: Seq<char>| m[k].1 > now));
            assert forall|k: Seq<char>| #[trigger] entries_view(after).contains_key(k)
                == target.contains_key(k) by {
                if exists|j: int| 0 <= j < after.len() && (#[trigger] after[j]).0@ == k {
                    let j = choose|j: int| 0 <= j < after.len() && (#[trigger] after[j]).0@ == k;
                    let a = kept_idx[j];
                    assert(before[a].0@ == k);
                    let b = choose|b: int| 0 <= b < before.len() && (#[trigger] before[b]).0@ == k;
                    assert(b == a);
                }
                if target.contains_key(k) {
                    let b = choose|b: int| 0 <= b < before.len() && (#[trigger] before[b]).0@ == k;
                    let j = choose|j: int| 0 <= j < kept_idx.len() && #[trigger] kept_idx[j] == b;
                    assert(after[j].0@ == k);
                }
            }
            assert forall|k: Seq<char>| #[trigger] entries_view(after).contains_key(k)
                implies entries_view(after)[k] == target[k] by {
                let j = choose|j: int| 0 <= j < after.len() && (#[trigger] after[j]).0@ == k;
                let a = kept_idx[j];
                let b = choose|b: int| 0 <= b < before.len() && (#[trigger] before[b]).0@ == k;
                assert(b == a);
                assert forall|j2: int| 0 <= j2 < after.len() && (#[trigger] after[j2]).0@ == k
                    implies j2 == j by {
                    assert(kept_idx[j2] == a);
                }
            }
            assert(entries_view(after) =~= target);
            assert forall|j1: int, j2: int| 0 <= j1 < j2 < after.len() implies (#[trigger] after[j1]).0@
                != (#[trigger] after[j2]).0@ by {
                assert(kept_idx[j1] != kept_idx[j2]);
            }
        }
        std::mem::swap(&mut kept, &mut self.entries);
    }

    proof fn lemma_view_at(&self, i: int)
        requires
            0 <= i < self.entries@.len(),
            forall|a: int, b: int|
                0 <= a < b < self.entries@.len() ==> (#[trigger] self.entries@[a]).0@ != (
                #[trigger] self.entries@[b]).0@,
        ensures
            self@.contains_key(self.entries@[i].0@),
            self@[self.entries@[i].0@] == entry_view(self.entries@[i].1),
    {
        let es = self.entries@;
        let k = es[i].0@;
        assert(es[i].0@ == k);
        let c = choose|c: int| 0 <= c < es.len() && (#[trigger] es[c]).0@ == k;
        assert(c == i);
    }

    proof fn lemma_view_absent(&self, key: Seq<char>)
        requires
            forall|j: int| 0 <= j < self.entries@.len() ==> self.entries@[j].0@ != key,
        ensures
            !self@.contains_key(key),
    {
    }
}

/// Result of checking idempotency for a request.
#[derive(Debug, PartialEq, Eq)]
pub enum IdempotentCheckResult {
    /// This is the first request with this key - proceed with normal processing.
    Proceed { key: String },
    /// A cached response is available for this duplicate request.
    CachedResponse { key: String, response: Vec<u8> },
    /// This is a duplicate request that should be skipped (return empty response).
    Skip { key: String },
}

/// A response sent directly, without calling the backend: status, headers in
/// order, and body.
#[derive(Debug, Clone, PartialEq, Eq)]
pub struct DirectResponse {
    pub status: u16,
    pub headers: Vec<(String, String)>,
    pub body: Vec<u8>,
}

impl IdempotentCheckResult {
    /// The idempotency key.
    pub fn key(&self) -> (r: &String)
        ensures
            match self {
                IdempotentCheckResult::Proceed { key } => r == key,
                IdempotentCheckResult::CachedResponse { key, .. } => r == key,
                IdempotentCheckResult::Skip { key } => r == key,
            },
    {
        match self {
            IdempotentCheckResult::Proceed { key } => key,
            IdempotentCheckResult::CachedResponse { key, .. } => key,
            IdempotentCheckResult::Skip { key } => key,
        }
    }

    /// The response that answers a duplicate directly: the cached body with
    /// status 200, as JSON and marked as replayed; or an empty 204 marked as
    /// skipped. A first request gets none.
    pub fn to_policy_response(&self) -> (r: Option<DirectResponse>)
        ensures
            match self {
                IdempotentCheckResult::CachedResponse { response, .. } => r matches Some(d) && d.status == 200
                    && d.body@ == response@ && d.headers@.len() == 2 && d.headers@[0].0@ == "content-type"@
                    && d.headers@[0].1@ == "application/json"@ && d.headers@[1].0@ == "x-idempotent-replayed"@
                    && d.headers@[1].1@ == "true"@,
                IdempotentCheckResult::Skip { .. } => r matches Some(d) && d.status == 204 && d.body@.len() == 0
                    && d.headers@.len() == 1 && d.headers@[0].0@ == "x-idempotent-skipped"@ && d.headers@[0].1@
                    == "true"@,
                IdempotentCheckResult::Proceed { .. } => r is None,
            },
    {
        match self {
            IdempotentCheckResult::CachedResponse { response, .. } => {
                let mut body: Vec<u8> = Vec::new();
                let mut i: usize = 0;
                while i < response.len()
                    invariant
                        i <= response@.len(),
                        body@ == response@.take(i as int),
                    decreases response@.len() - i,
                {
                    body.push(response[i]);
                    assert(response@.take(i + 1) =~= response@.take(i as int).push(response@[i as int]));
                    i = i + 1;
                }
                assert(response@.take(response@.len() as int) =~= response@);
                Some(DirectResponse {
                    status: 200,
                    headers: vec![
                        ("content-type".to_owned(), "application/json".to_owned()),
                        ("x-idempotent-replayed".to_owned(), "true".to_owned()),
                    ],
                    body,
                })
            },
            IdempotentCheckResult::Skip { .. } => Some(DirectResponse {
                status: 204,
                headers: vec![("x-idempotent-skipped".to_owned(), "true".to_owned())],
                body: Vec::new(),
            }),
            IdempotentCheckResult::Proceed { .. } => None,
        }
    }

    /// Whether the request should proceed normally.
    pub fn should_proceed(&self) -> (r: bool)
        ensures
            r == (self is Proceed),
    {
        match self {
            IdempotentCheckResult::Proceed { .. } => true,
            _ => false,
        }
    }
}

/// The parts of an idempotency key joined by `:`.
pub open spec fn spec_join_key(parts: Seq<Seq<char>>) -> Seq<char>
    decreases parts.len(),
{
    if parts.len() == 0 {
        Seq::empty()
    } else if parts.len() == 1 {
        parts[0]
    } else {
        spec_join_key(parts.drop_last()) + ":"@ + parts.last()
    }
}

/// Joins the evaluated key expressions into the idempotency key.
pub fn join_key_parts(parts: &Vec<String>) -> (r: String)
    ensures
        r@ == spec_join_key(parts@.map_values(|p: String| p@)),
{
    let ghost pv = parts@.map_values(|p: String| p@);
    let mut r = String::new();
    let mut i: usize = 0;
    while i < parts.len()
        invariant
            i <= parts@.len(),
            pv == parts@.map_values(|p: String| p@),
            r@ == spec_join_key(pv.take(i as int)),
        decreases parts@.len() - i,
    {
        assert(pv.take(i + 1).drop_last() == pv.take(i as int));
        if i == 0 {
            r = parts[0].clone();
        } else {
            let with_sep = concat_str(r.as_str(), ":");
            r = concat_str(with_sep.as_str(), parts[i].as_str());
        }
        i = i + 1;
    }
    assert(pv.take(parts@.len() as int) == pv);
    r
}

/// Runtime idempotency policy: the key expressions, what to do on duplicates, how
/// long keys live, and the store.
pub struct Idempotent {
    /// Keys seen and their responses.
    pub store: IdempotencyStore,
    /// Sources of the expressions that make up the key.
    pub key_paths: Vec<String>,
    /// What to do when a duplicate request is detected.
    pub on_duplicate: OnDuplicate,
    /// Time-to-live of keys, in milliseconds.
    pub ttl_ms: u64,
}

impl Idempotent {
    /// A policy with an empty store; at least one key path is required.
    pub fn try_new(key_paths: Vec<String>, on_duplicate: OnDuplicate, ttl_ms: u64) -> (r: Result<Idempotent, String>)
        ensures
            match r {
                Ok(p) => key_paths@.len() > 0 && p.key_paths@ == key_paths@ && p.on_duplicate
                    == on_duplicate && p.ttl_ms == ttl_ms && p.store@ == Map::<Seq<char>, EntryView>::empty(),
                Err(m) => key_paths@.len() == 0 && m@ == "at least one key path is required"@,
            },
    {
        if key_paths.len() == 0 {
            return Err("at least one key path is required".to_owned());
        }
        Ok(Idempotent { store: IdempotencyStore::new(), key_paths, on_duplicate, ttl_ms })
    }

    /// Checks a request whose derived key is `key`, at `now`.
    ///
    /// A key that is not live is reserved and the request proceeds. A duplicate is
    /// answered by `on_duplicate`: `Cached` returns the stored response, or
    /// `DuplicateRequest` while the first request has none yet; `Skip` skips it;
    /// `Error` rejects it with `DuplicateRequest`.
    pub fn check(&mut self, key: String, now: u64) -> (r: Result<IdempotentCheckResult, ProxyError>)
        requires
            now + old(self).ttl_ms <= u64::MAX,
        ensures
            ({
                let m = old(self).store@;
                let k = key@;
                if !live(m, k, now) {
                    &&& final(self).store@ == spec_reserve(m, k, now, old(self).ttl_ms)
                    &&& r matches Ok(IdempotentCheckResult::Proceed { key: rk }) && rk@ == k
                } else {
                    &&& final(self).store@ == m
                    &&& match old(self).on_duplicate {
                        OnDuplicate::Cached => match m[k].0 {
                            Some(bytes) => r matches Ok(
                                IdempotentCheckResult::CachedResponse { key: rk, response },
                            ) && rk@ == k && response@ == bytes,
                            None => r == Err::<IdempotentCheckResult, ProxyError>(
                                ProxyError::DuplicateRequest,
                            ),
                        },
                        OnDuplicate::Skip => r matches Ok(IdempotentCheckResult::Skip { key: rk })
                            && rk@ == k,
                        OnDuplicate::Error => r == Err::<IdempotentCheckResult, ProxyError>(
                            ProxyError::DuplicateRequest,
                        ),
                    }
                }
            }),
            final(self).key_paths@ == old(self).key_paths@,
            final(self).on_duplicate == old(self).on_duplicate,
            final(self).ttl_ms == old(self).ttl_ms,
    {
        if self.store.set_if_not_exists(key.as_str(), self.ttl_ms, now) {
            return Ok(IdempotentCheckResult::Proceed { key });
        }
        match self.on_duplicate {
            OnDuplicate::Cached => match self.store.get(key.as_str(), now) {
                Some(response) => Ok(IdempotentCheckResult::CachedResponse { key, response }),
                None => Err(ProxyError::DuplicateRequest),
            },
            OnDuplicate::Skip => Ok(IdempotentCheckResult::Skip { key }),
            OnDuplicate::Error => Err(ProxyError::DuplicateRequest),
        }
    }

    /// Stores the response for a key that was previously checked.
    pub fn store_response(&mut self, key: &str, response: Vec<u8>, now: u64)
        requires
            now + old(self).ttl_ms <= u64::MAX,
        ensures
            final(self).store@ == old(self).store@.insert(
                key@,
                (Some(response@), (now + old(self).ttl_ms) as u64),
            ),
            final(self).key_paths@ == old(self).key_paths@,
            final(self).on_duplicate == old(self).on_duplicate,
            final(self).ttl_ms == old(self).ttl_ms,
    {
        self.store.set_response(key, response, self.ttl_ms, now);
    }
}

/// A key checked for the first time proceeds; checked again before its time-to-live
/// has passed, it is a duplicate.
pub proof fn law_duplicate_within_ttl(m: Map<Seq<char>, EntryView>, key: Seq<char>, now: u64, ttl: u64, later: u64)
    requires
        !live(m, key, now),
        now + ttl <= u64::MAX,
        later < now + ttl,
    ensures
        live(spec_reserve(m, key, now, ttl), key, later),
{
}

/// A stored response is given back to duplicates until its time-to-live has passed.
pub proof fn law_stored_response_replayed(
    m: Map<Seq<char>, EntryView>,
    key: Seq<char>,
    response: Seq<u8>,
    now: u64,
    ttl: u64,
    later: u64,
)
    requires
        now + ttl <= u64::MAX,
        later < now + ttl,
    ensures
        live(m.insert(key, (Some(response), (now + ttl) as u64)), key, later),
        m.insert(key, (Some(response), (now + ttl) as u64))[key].0 == Some(response),
{
}

} // verus!
