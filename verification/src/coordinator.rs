//! The data cache and fetch coordinator.
//!
//! The coordinator is the single owner of "do we already have this, is it
//! being fetched, and who is waiting": a cache of resolved values keyed by
//! fetch key, the set of keys with a fetch in flight, and the subscribers
//! pending on each key. A request for a cached key answers at once and
//! touches nothing; a request for an uncached key registers the subscriber
//! and starts a fetch only when none is in flight for that key, so at most
//! one fetch per key ever runs at a time. When a fetch resolves, every
//! pending subscriber of its key is handed the outcome exactly once.

use vstd::prelude::*;
use crate::chapter_order::chapters_sorted;
use crate::model::{Chapter, FetchKey, KeyView, Manga, Page, key_eq};

verus! {

/// A resolved catalog value held in the cache: the whole manga list, one
/// manga's chapter list, or one chapter's page list.
pub enum CacheValue {
    Mangas(Vec<Manga>),
    Chapters(Vec<Chapter>),
    Pages(Vec<Page>),
}

/// The pages stand in ascending order of their page numbers.
pub open spec fn pages_sorted(s: Seq<Page>) -> bool {
    forall|i: int, j: int| 0 <= i < j < s.len() ==> s[i].page_number <= s[j].page_number
}

impl CacheValue {
    /// A cached chapter list is sorted numerically and a cached page list by
    /// page number; this is what makes "next" and "previous" meaningful to
    /// the reader.
    pub open spec fn wf(&self) -> bool {
        match self {
            CacheValue::Mangas(_) => true,
            CacheValue::Chapters(cs) => chapters_sorted(cs@),
            CacheValue::Pages(ps) => pages_sorted(ps@),
        }
    }
}

/// What a request did: answered from cache, registered the subscriber and
/// asked the caller to start the one fetch for the key, or registered the
/// subscriber behind a fetch already in flight.
#[derive(Clone, Copy, Debug, PartialEq, Eq, Structural)]
pub enum RequestAction {
    Hit,
    MustFetch,
    AlreadyInFlight,
}

/// The mathematical state of the coordinator.
#[verifier::ext_equal]
pub struct CoordView {
    pub cache: Map<KeyView, CacheValue>,
    pub pending: Map<KeyView, Set<u64>>,
    pub inflight: Set<KeyView>,
}

/// The cache entries of an association list as a map.
pub open spec fn pairs_map<V>(s: Seq<(FetchKey, V)>) -> Map<KeyView, V>
    decreases s.len(),
{
    if s.len() == 0 {
        Map::empty()
    } else {
        pairs_map(s.drop_last()).insert(s.last().0@, s.last().1)
    }
}

/// The subscriber lists of an association list as a map of sets.
pub open spec fn subs_map(s: Seq<(FetchKey, Vec<u64>)>) -> Map<KeyView, Set<u64>>
    decreases s.len(),
{
    if s.len() == 0 {
        Map::empty()
    } else {
        subs_map(s.drop_last()).insert(s.last().0@, s.last().1@.to_set())
    }
}

/// The key views of a key list as a set.
pub open spec fn keys_set(s: Seq<FetchKey>) -> Set<KeyView>
    decreases s.len(),
{
    if s.len() == 0 {
        Set::empty()
    } else {
        keys_set(s.drop_last()).insert(s.last()@)
    }
}

/// The coordinator: per-key cache, per-key pending subscribers, and the keys
/// with a fetch in flight.
pub struct Coordinator {
    cache: Vec<(FetchKey, CacheValue)>,
    pending: Vec<(FetchKey, Vec<u64>)>,
    inflight: Vec<FetchKey>,
}

impl View for Coordinator {
    type V = CoordView;

    closed spec fn view(&self) -> CoordView {
        CoordView {
            cache: pairs_map(self.cache@),
            pending: subs_map(self.pending@),
            inflight: keys_set(self.inflight@),
        }
    }
}

impl Coordinator {
    /// Each key occurs at most once in each store, each subscriber at most
    /// once per key, and every cached value is well-formed.
    pub closed spec fn wf(&self) -> bool {
        &&& forall|i: int, j: int|
            0 <= i < j < self.cache@.len() ==> self.cache@[i].0@ != self.cache@[j].0@
        &&& forall|i: int, j: int|
            0 <= i < j < self.pending@.len() ==> self.pending@[i].0@ != self.pending@[j].0@
        &&& forall|i: int, j: int|
            0 <= i < j < self.inflight@.len() ==> self.inflight@[i]@ != self.inflight@[j]@
        &&& forall|i: int| 0 <= i < self.cache@.len() ==> (#[trigger] self.cache@[i].1).wf()
        &&& forall|i: int|
            0 <= i < self.pending@.len() ==> (#[trigger] self.pending@[i].1)@.no_duplicates()
    }

    /// A fresh coordinator: nothing cached, nothing pending, nothing in
    /// flight.
    pub fn new() -> (r: Coordinator)
        ensures
            r.wf(),
            r@.cache == Map::<KeyView, CacheValue>::empty(),
            r@.pending == Map::<KeyView, Set<u64>>::empty(),
            r@.inflight == Set::<KeyView>::empty(),
    {
        Coordinator { cache: Vec::new(), pending: Vec::new(), inflight: Vec::new() }
    }
}

/// The subscribers pending on a key; the empty set when none registered.
pub open spec fn pending_of(m: CoordView, k: KeyView) -> Set<u64> {
    if m.pending.dom().contains(k) {
        m.pending[k]
    } else {
        Set::empty()
    }
}

/// No two entries of the association list share a key.
pub open spec fn keys_distinct<V>(s: Seq<(FetchKey, V)>) -> bool {
    forall|a: int, b: int| 0 <= a < b < s.len() ==> s[a].0@ != s[b].0@
}

proof fn lemma_pairs_map_index<V>(s: Seq<(FetchKey, V)>, i: int)
    requires
        0 <= i < s.len(),
        keys_distinct(s),
    ensures
        pairs_map(s).dom().contains(s[i].0@),
        pairs_map(s)[s[i].0@] == s[i].1,
    decreases s.len(),
{
    if i < s.len() - 1 {
        assert(s.drop_last()[i] == s[i]);
        lemma_pairs_map_index(s.drop_last(), i);
    }
}

proof fn lemma_pairs_map_absent<V>(s: Seq<(FetchKey, V)>, kv: KeyView)
    requires
        forall|i: int| 0 <= i < s.len() ==> s[i].0@ != kv,
    ensures
        !pairs_map(s).dom().contains(kv),
    decreases s.len(),
{
    if s.len() > 0 {
        lemma_pairs_map_absent(s.drop_last(), kv);
    }
}

proof fn lemma_pairs_map_push<V>(s: Seq<(FetchKey, V)>, k: FetchKey, v: V)
    ensures
        pairs_map(s.push((k, v))) == pairs_map(s).insert(k@, v),
{
    assert(s.push((k, v)).drop_last() =~= s);
    assert(s.push((k, v)).last() == (k, v));
}

proof fn lemma_pairs_map_remove<V>(s: Seq<(FetchKey, V)>, i: int)
    requires
        0 <= i < s.len(),
        keys_distinct(s),
    ensures
        pairs_map(s.remove(i)) == pairs_map(s).remove(s[i].0@),
    decreases s.len(),
{
    if i == s.len() - 1 {
        assert(s.remove(i) =~= s.drop_last());
        lemma_pairs_map_absent(s.drop_last(), s[i].0@);
        assert(pairs_map(s).remove(s[i].0@) =~= pairs_map(s.drop_last()));
    } else {
        assert(s.remove(i).drop_last() =~= s.drop_last().remove(i));
        assert(s.remove(i).last() == s.last());
        assert(s.drop_last()[i] == s[i]);
        lemma_pairs_map_remove(s.drop_last(), i);
        assert(pairs_map(s.remove(i)) =~= pairs_map(s).remove(s[i].0@));
    }
}

proof fn lemma_subs_map_index(s: Seq<(FetchKey, Vec<u64>)>, i: int)
    requires
        0 <= i < s.len(),
        keys_distinct(s),
    ensures
        subs_map(s).dom().contains(s[i].0@),
        subs_map(s)[s[i].0@] == s[i].1@.to_set(),
    decreases s.len(),
{
    if i < s.len() - 1 {
        assert(s.drop_last()[i] == s[i]);
        lemma_subs_map_index(s.drop_last(), i);
    }
}

proof fn lemma_subs_map_absent(s: Seq<(FetchKey, Vec<u64>)>, kv: KeyView)
    requires
        forall|i: int| 0 <= i < s.len() ==> s[i].0@ != kv,
    ensures
        !subs_map(s).dom().contains(kv),
    decreases s.len(),
{
    if s.len() > 0 {
        lemma_subs_map_absent(s.drop_last(), kv);
    }
}

proof fn lemma_subs_map_push(s: Seq<(FetchKey, Vec<u64>)>, k: FetchKey, v: Vec<u64>)
    ensures
        subs_map(s.push((k, v))) == subs_map(s).insert(k@, v@.to_set()),
{
    assert(s.push((k, v)).drop_last() =~= s);
    assert(s.push((k, v)).last() == (k, v));
}

proof fn lemma_subs_map_remove(s: Seq<(FetchKey, Vec<u64>)>, i: int)
    requires
        0 <= i < s.len(),
        keys_distinct(s),
    ensures
        subs_map(s.remove(i)) == subs_map(s).remove(s[i].0@),
    decreases s.len(),
{
    if i == s.len() - 1 {
        assert(s.remove(i) =~= s.drop_last());
        lemma_subs_map_absent(s.drop_last(), s[i].0@);
        assert(subs_map(s).remove(s[i].0@) =~= subs_map(s.drop_last()));
    } else {
        assert(s.remove(i).drop_last() =~= s.drop_last().remove(i));
        assert(s.remove(i).last() == s.last());
        assert(s.drop_last()[i] == s[i]);
        lemma_subs_map_remove(s.drop_last(), i);
        assert(subs_map(s.remove(i)) =~= subs_map(s).remove(s[i].0@));
    }
}

proof fn lemma_keys_set_index(s: Seq<FetchKey>, i: int)
    requires
        0 <= i < s.len(),
    ensures
        keys_set(s).contains(s[i]@),
    decreases s.len(),
{
    if i < s.len() - 1 {
        assert(s.drop_last()[i] == s[i]);
        lemma_keys_set_index(s.drop_last(), i);
    }
}

proof fn lemma_keys_set_absent(s: Seq<FetchKey>, kv: KeyView)
    requires
        forall|i: int| 0 <= i < s.len() ==> s[i]@ != kv,
    ensures
        !keys_set(s).contains(kv),
    decreases s.len(),
{
    if s.len() > 0 {
        lemma_keys_set_absent(s.drop_last(), kv);
    }
}

proof fn lemma_keys_set_push(s: Seq<FetchKey>, k: FetchKey)
    ensures
        keys_set(s.push(k)) == keys_set(s).insert(k@),
{
    assert(s.push(k).drop_last() =~= s);
    assert(s.push(k).last() == k);
}

proof fn lemma_keys_set_remove(s: Seq<FetchKey>, i: int)
    requires
        0 <= i < s.len(),
        forall|a: int, b: int| 0 <= a < b < s.len() ==> s[a]@ != s[b]@,
    ensures
        keys_set(s.remove(i)) == keys_set(s).remove(s[i]@),
    decreases s.len(),
{
    if i == s.len() - 1 {
        assert(s.remove(i) =~= s.drop_last());
        lemma_keys_set_absent(s.drop_last(), s[i]@);
        assert(keys_set(s).remove(s[i]@) =~= keys_set(s.drop_last()));
    } else {
        assert(s.remove(i).drop_last() =~= s.drop_last().remove(i));
        assert(s.remove(i).last() == s.last());
        assert(s.drop_last()[i] == s[i]);
        lemma_keys_set_remove(s.drop_last(), i);
        assert(keys_set(s.remove(i)) =~= keys_set(s).remove(s[i]@));
    }
}

/// Index of the entry whose key names the same request, if any.
fn find_pair<V>(v: &Vec<(FetchKey, V)>, key: &FetchKey) -> (r: Option<usize>)
    ensures
        match r {
            Some(i) => i < v@.len() && v@[i as int].0@ == key@,
            None => forall|i: int| 0 <= i < v@.len() ==> v@[i].0@ != key@,
        },
{
    let mut i: usize = 0;
    while i < v.len()
        invariant
            i <= v@.len(),
            forall|j: int| 0 <= j < i ==> v@[j].0@ != key@,
        decreases v@.len() - i,
    {
        if key_eq(&v[i].0, key) {
            return Some(i);
        }
        i += 1;
    }
    None
}

/// Index of the key naming the same request, if any.
fn find_key(v: &Vec<FetchKey>, key: &FetchKey) -> (r: Option<usize>)
    ensures
        match r {
            Some(i) => i < v@.len() && v@[i as int]@ == key@,
            None => forall|i: int| 0 <= i < v@.len() ==> v@[i]@ != key@,
        },
{
    let mut i: usize = 0;
    while i < v.len()
        invariant
            i <= v@.len(),
            forall|j: int| 0 <= j < i ==> v@[j]@ != key@,
        decreases v@.len() - i,
    {
        if key_eq(&v[i], key) {
            return Some(i);
        }
        i += 1;
    }
    None
}

/// Index of a subscriber handle, if registered.
fn find_sub(v: &Vec<u64>, sub: u64) -> (r: Option<usize>)
    ensures
        match r {
            Some(i) => i < v@.len() && v@[i as int] == sub,
            None => !v@.contains(sub),
        },
{
    let mut i: usize = 0;
    while i < v.len()
        invariant
            i <= v@.len(),
            forall|j: int| 0 <= j < i ==> v@[j] != sub,
        decreases v@.len() - i,
    {
        if v[i] == sub {
            return Some(i);
        }
        i += 1;
    }
    None
}

impl Coordinator {
    /// The cached value of a key, when one resolved earlier. Serving a hit
    /// reads the cache alone: no fetch, no registration.
    pub fn cached(&self, key: &FetchKey) -> (r: Option<&CacheValue>)
        requires
            self.wf(),
        ensures
            match r {
                Some(v) => self@.cache.dom().contains(key@) && *v == self@.cache[key@]
                    && v.wf(),
                None => !self@.cache.dom().contains(key@),
            },
    {
        match find_pair(&self.cache, key) {
            Some(i) => {
                proof {
                    lemma_pairs_map_index(self.cache@, i as int);
                }
                Some(&self.cache[i].1)
            },
            None => {
                proof {
                    lemma_pairs_map_absent(self.cache@, key@);
                }
                None
            },
        }
    }
}

/// What a request does to the model: nothing on a cache hit; otherwise it
/// registers the subscriber under the key and marks the key in flight.
pub open spec fn request_tr(m: CoordView, k: KeyView, s: u64) -> CoordView {
    if m.cache.dom().contains(k) {
        m
    } else {
        CoordView {
            cache: m.cache,
            pending: m.pending.insert(k, pending_of(m, k).insert(s)),
            inflight: m.inflight.insert(k),
        }
    }
}

/// What a request answers: a hit when cached, otherwise whether the caller
/// must start the key's one fetch.
pub open spec fn request_act(m: CoordView, k: KeyView) -> RequestAction {
    if m.cache.dom().contains(k) {
        RequestAction::Hit
    } else if m.inflight.contains(k) {
        RequestAction::AlreadyInFlight
    } else {
        RequestAction::MustFetch
    }
}

/// Resolution of a successful fetch: the value is cached, the key leaves
/// the in-flight set, and its pending registrations are discharged.
pub open spec fn resolve_ok_tr(m: CoordView, k: KeyView, v: CacheValue) -> CoordView {
    CoordView {
        cache: m.cache.insert(k, v),
        pending: m.pending.remove(k),
        inflight: m.inflight.remove(k),
    }
}

/// Resolution of a failed fetch: nothing is cached — a later request
/// retries — but the key leaves the in-flight set and its pending
/// registrations are discharged with the error.
pub open spec fn resolve_err_tr(m: CoordView, k: KeyView) -> CoordView {
    CoordView { cache: m.cache, pending: m.pending.remove(k), inflight: m.inflight.remove(k) }
}

/// Unsubscription: the subscriber leaves the key's pending set; the fetch
/// itself, if any, keeps running for whoever else is waiting.
pub open spec fn unsub_tr(m: CoordView, k: KeyView, s: u64) -> CoordView {
    if m.pending.dom().contains(k) {
        CoordView {
            cache: m.cache,
            pending: m.pending.insert(k, m.pending[k].remove(s)),
            inflight: m.inflight,
        }
    } else {
        m
    }
}

impl Coordinator {
    /// One consumer asks for one key. On a hit the state does not change
    /// and the caller reads the value through [`Self::cached`]. On a miss
    /// the subscriber is registered — registering twice is the same as
    /// registering once — and the caller is told to start a fetch exactly
    /// when none is in flight for this key.
    pub fn request(&mut self, key: &FetchKey, subscriber: u64) -> (r: RequestAction)
        requires
            old(self).wf(),
        ensures
            final(self).wf(),
            r == request_act(old(self)@, key@),
            final(self)@ == request_tr(old(self)@, key@, subscriber),
    {
        let ghost m0 = self@;
        match find_pair(&self.cache, key) {
            Some(i) => {
                proof {
                    lemma_pairs_map_index(self.cache@, i as int);
                }
                return RequestAction::Hit;
            },
            None => {
                proof {
                    lemma_pairs_map_absent(self.cache@, key@);
                }
            },
        }
        match find_pair(&self.pending, key) {
            Some(i) => {
                proof {
                    lemma_subs_map_index(self.pending@, i as int);
                }
                let ghost p0 = self.pending@;
                let mut entry = self.pending.remove(i);
                proof {
                    lemma_subs_map_remove(p0, i as int);
                }
                match find_sub(&entry.1, subscriber) {
                    Some(_) => {
                        proof {
                            assert(entry.1@.to_set().insert(subscriber) =~= entry.1@.to_set());
                        }
                    },
                    None => {
                        let ghost v0 = entry.1@;
                        entry.1.push(subscriber);
                        proof {
                            v0.lemma_push_to_set_commute(subscriber);
                            assert(entry.1@.to_set() == v0.to_set().insert(subscriber));
                            assert(entry.1@.no_duplicates()) by {
                                assert forall|a: int, b: int|
                                    0 <= a < entry.1@.len() && 0 <= b < entry.1@.len() && a
                                    != b implies entry.1@[a] != entry.1@[b] by {
                                    if a == v0.len() as int {
                                        assert(entry.1@[a] == subscriber);
                                        assert(!v0.contains(subscriber));
                                    } else if b == v0.len() as int {
                                        assert(entry.1@[b] == subscriber);
                                        assert(!v0.contains(subscriber));
                                    }
                                }
                            }
                        }
                    },
                }
                let ghost p1 = self.pending@;
                self.pending.push(entry);
                proof {
                    lemma_subs_map_push(p1, entry.0, entry.1);
                    assert(subs_map(self.pending@) =~= m0.pending.insert(
                        key@,
                        pending_of(m0, key@).insert(subscriber),
                    ));
                    assert forall|a: int, b: int|
                        0 <= a < b < self.pending@.len() implies self.pending@[a].0@
                        != self.pending@[b].0@ by {
                        if b == self.pending@.len() - 1 {
                            assert(self.pending@[b].0@ == key@);
                            if a < i {
                                assert(p0[a] == self.pending@[a]);
                                assert(p0[a].0@ != p0[i as int].0@);
                            } else {
                                assert(p0[a + 1] == self.pending@[a]);
                                assert(p0[i as int].0@ != p0[a + 1].0@);
                            }
                        } else {
                            if a < i && b < i {
                            } else if a < i {
                                assert(p0[a] == self.pending@[a] && p0[b + 1] == self.pending@[b]);
                            } else {
                                assert(p0[a + 1] == self.pending@[a]);
                                assert(p0[b + 1] == self.pending@[b]);
                            }
                        }
                    }
                }
            },
            None => {
                proof {
                    lemma_subs_map_absent(self.pending@, key@);
                }
                let mut subs1: Vec<u64> = Vec::new();
                subs1.push(subscriber);
                let ghost p1 = self.pending@;
                let k2 = key.clone();
                self.pending.push((k2, subs1));
                proof {
                    lemma_subs_map_push(p1, k2, subs1);
                    assert(subs1@[0] == subscriber);
                    assert(subs1@.contains(subscriber));
                    assert(subs1@.to_set() =~= pending_of(m0, key@).insert(subscriber));
                    assert(subs_map(self.pending@) =~= m0.pending.insert(
                        key@,
                        pending_of(m0, key@).insert(subscriber),
                    ));
                    assert(subs1@.no_duplicates());
                    assert forall|a: int, b: int|
                        0 <= a < b < self.pending@.len() implies self.pending@[a].0@
                        != self.pending@[b].0@ by {
                        if b == self.pending@.len() - 1 {
                            assert(p1[a] == self.pending@[a]);
                        }
                    }
                }
            },
        }
        let r = match find_key(&self.inflight, key) {
            Some(i) => {
                proof {
                    lemma_keys_set_index(self.inflight@, i as int);
                    assert(keys_set(self.inflight@).insert(key@) =~= keys_set(self.inflight@));
                }
                RequestAction::AlreadyInFlight
            },
            None => {
                proof {
                    lemma_keys_set_absent(self.inflight@, key@);
                }
                let ghost f1 = self.inflight@;
                let k3 = key.clone();
                self.inflight.push(k3);
                proof {
                    lemma_keys_set_push(f1, k3);
                    assert forall|a: int, b: int|
                        0 <= a < b < self.inflight@.len() implies self.inflight@[a]@
                        != self.inflight@[b]@ by {
                        if b == self.inflight@.len() - 1 {
                            assert(f1[a] == self.inflight@[a]);
                        }
                    }
                }
                RequestAction::MustFetch
            },
        };
        proof {
            assert(self@ =~= request_tr(m0, key@, subscriber));
        }
        r
    }
}

/// Removing index `j` from a duplicate-free sequence removes exactly the
/// element `s[j]` from its set of members.
pub(crate) proof fn lemma_remove_to_set(s: Seq<u64>, j: int)
    requires
        0 <= j < s.len(),
        s.no_duplicates(),
    ensures
        s.remove(j).to_set() == s.to_set().remove(s[j]),
        s.remove(j).no_duplicates(),
{
    let t = s.remove(j);
    assert forall|x: u64| t.to_set().contains(x) implies s.to_set().remove(s[j]).contains(x) by {
        let idx = choose|idx: int| 0 <= idx < t.len() && t[idx] == x;
        if idx < j {
            assert(s[idx] == x);
        } else {
            assert(s[idx + 1] == x);
        }
    }
    assert forall|x: u64| s.to_set().remove(s[j]).contains(x) implies t.to_set().contains(x) by {
        let idx = choose|idx: int| 0 <= idx < s.len() && s[idx] == x;
        if idx < j {
            assert(t[idx] == x);
        } else {
            assert(t[idx - 1] == x);
        }
    }
    assert(t.to_set() =~= s.to_set().remove(s[j]));
    assert forall|a: int, b: int|
        0 <= a < t.len() && 0 <= b < t.len() && a != b implies t[a] != t[b] by {
        let sa: int = if a < j {
            a
        } else {
            a + 1
        };
        let sb: int = if b < j {
            b
        } else {
            b + 1
        };
        assert(t[a] == s[sa]);
        assert(t[b] == s[sb]);
    }
}

impl Coordinator {
    /// A fetch for `key` came back with a value: cache it, clear the
    /// in-flight mark, and hand back the subscribers to notify — each
    /// pending subscriber of the key exactly once.
    pub fn resolve_success(&mut self, key: &FetchKey, value: CacheValue) -> (subs: Vec<u64>)
        requires
            old(self).wf(),
            value.wf(),
        ensures
            final(self).wf(),
            final(self)@ == resolve_ok_tr(old(self)@, key@, value),
            subs@.no_duplicates(),
            subs@.to_set() == pending_of(old(self)@, key@),
            subs@.len() == pending_of(old(self)@, key@).len(),
    {
        let ghost m0 = self@;
        self.remove_inflight(key);
        match find_pair(&self.cache, key) {
            Some(i) => {
                let ghost c0 = self.cache@;
                proof {
                    lemma_pairs_map_remove(c0, i as int);
                }
                let _previous = self.cache.remove(i);
                let ghost c1 = self.cache@;
                let k2 = key.clone();
                self.cache.push((k2, value));
                proof {
                    lemma_pairs_map_push(c1, k2, value);
                    assert(pairs_map(self.cache@) =~= m0.cache.insert(key@, value));
                    assert forall|a: int, b: int|
                        0 <= a < b < self.cache@.len() implies self.cache@[a].0@
                        != self.cache@[b].0@ by {
                        if b == self.cache@.len() - 1 {
                            let sa: int = if a < i {
                                a
                            } else {
                                a + 1
                            };
                            assert(c0[sa] == self.cache@[a]);
                        } else {
                            let sa: int = if a < i {
                                a
                            } else {
                                a + 1
                            };
                            let sb: int = if b < i {
                                b
                            } else {
                                b + 1
                            };
                            assert(c0[sa] == self.cache@[a]);
                            assert(c0[sb] == self.cache@[b]);
                        }
                    }
                }
            },
            None => {
                proof {
                    lemma_pairs_map_absent(self.cache@, key@);
                }
                let ghost c1 = self.cache@;
                let k2 = key.clone();
                self.cache.push((k2, value));
                proof {
                    lemma_pairs_map_push(c1, k2, value);
                    assert forall|a: int, b: int|
                        0 <= a < b < self.cache@.len() implies self.cache@[a].0@
                        != self.cache@[b].0@ by {
                        if b == self.cache@.len() - 1 {
                            assert(c1[a] == self.cache@[a]);
                        }
                    }
                }
            },
        }
        let subs = self.take_pending(key);
        proof {
            assert(self@ =~= resolve_ok_tr(m0, key@, value));
            subs@.unique_seq_to_set();
        }
        subs
    }

    /// A fetch for `key` failed: nothing is cached — a later request for
    /// the key retries — but the in-flight mark is cleared and the pending
    /// subscribers are handed back so the error reaches each of them once.
    pub fn resolve_failure(&mut self, key: &FetchKey) -> (subs: Vec<u64>)
        requires
            old(self).wf(),
        ensures
            final(self).wf(),
            final(self)@ == resolve_err_tr(old(self)@, key@),
            subs@.no_duplicates(),
            subs@.to_set() == pending_of(old(self)@, key@),
            subs@.len() == pending_of(old(self)@, key@).len(),
    {
        let ghost m0 = self@;
        self.remove_inflight(key);
        let subs = self.take_pending(key);
        proof {
            assert(self@ =~= resolve_err_tr(m0, key@));
            subs@.unique_seq_to_set();
        }
        subs
    }

    /// A consumer tears down before resolution: it leaves the key's pending
    /// set and will not be notified. The fetch is not cancelled — other
    /// subscribers may still be waiting on it.
    pub fn unsubscribe(&mut self, key: &FetchKey, subscriber: u64)
        requires
            old(self).wf(),
        ensures
            final(self).wf(),
            final(self)@ == unsub_tr(old(self)@, key@, subscriber),
    {
        let ghost m0 = self@;
        match find_pair(&self.pending, key) {
            Some(i) => {
                proof {
                    lemma_subs_map_index(self.pending@, i as int);
                }
                let ghost p0 = self.pending@;
                let mut entry = self.pending.remove(i);
                proof {
                    lemma_subs_map_remove(p0, i as int);
                }
                match find_sub(&entry.1, subscriber) {
                    Some(j) => {
                        proof {
                            lemma_remove_to_set(entry.1@, j as int);
                        }
                        let _gone = entry.1.remove(j);
                    },
                    None => {
                        proof {
                            assert(entry.1@.to_set().remove(subscriber) =~= entry.1@.to_set());
                        }
                    },
                }
                let ghost p1 = self.pending@;
                self.pending.push(entry);
                proof {
                    lemma_subs_map_push(p1, entry.0, entry.1);
                    assert(subs_map(self.pending@) =~= m0.pending.insert(
                        key@,
                        m0.pending[key@].remove(subscriber),
                    ));
                    assert forall|a: int, b: int|
                        0 <= a < b < self.pending@.len() implies self.pending@[a].0@
                        != self.pending@[b].0@ by {
                        if b == self.pending@.len() - 1 {
                            let sa: int = if a < i {
                                a
                            } else {
                                a + 1
                            };
                            assert(p0[sa] == self.pending@[a]);
                        } else {
                            let sa: int = if a < i {
                                a
                            } else {
                                a + 1
                            };
                            let sb: int = if b < i {
                                b
                            } else {
                                b + 1
                            };
                            assert(p0[sa] == self.pending@[a]);
                            assert(p0[sb] == self.pending@[b]);
                        }
                    }
                    assert(self@ =~= unsub_tr(m0, key@, subscriber));
                }
            },
            None => {
                proof {
                    lemma_subs_map_absent(self.pending@, key@);
                }
            },
        }
    }

    /// Clears the in-flight mark of `key`, if set.
    fn remove_inflight(&mut self, key: &FetchKey)
        requires
            old(self).wf(),
        ensures
            final(self).wf(),
            final(self)@.inflight == old(self)@.inflight.remove(key@),
            final(self)@.cache == old(self)@.cache,
            final(self)@.pending == old(self)@.pending,
            final(self).cache@ == old(self).cache@,
            final(self).pending@ == old(self).pending@,
    {
        match find_key(&self.inflight, key) {
            Some(i) => {
                let ghost f0 = self.inflight@;
                proof {
                    lemma_keys_set_remove(f0, i as int);
                }
                let _gone = self.inflight.remove(i);
                proof {
                    assert forall|a: int, b: int|
                        0 <= a < b < self.inflight@.len() implies self.inflight@[a]@
                        != self.inflight@[b]@ by {
                        let sa: int = if a < i {
                            a
                        } else {
                            a + 1
                        };
                        let sb: int = if b < i {
                            b
                        } else {
                            b + 1
                        };
                        assert(f0[sa] == self.inflight@[a]);
                        assert(f0[sb] == self.inflight@[b]);
                    }
                }
            },
            None => {
                proof {
                    lemma_keys_set_absent(self.inflight@, key@);
                    assert(keys_set(self.inflight@).remove(key@) =~= keys_set(self.inflight@));
                }
            },
        }
    }

    /// Removes and returns the pending subscriber list of `key`.
    fn take_pending(&mut self, key: &FetchKey) -> (subs: Vec<u64>)
        requires
            old(self).wf(),
        ensures
            final(self).wf(),
            final(self)@.pending == old(self)@.pending.remove(key@),
            final(self)@.cache == old(self)@.cache,
            final(self)@.inflight == old(self)@.inflight,
            final(self).cache@ == old(self).cache@,
            final(self).inflight@ == old(self).inflight@,
            subs@.no_duplicates(),
            subs@.to_set() == pending_of(old(self)@, key@),
    {
        match find_pair(&self.pending, key) {
            Some(i) => {
                proof {
                    lemma_subs_map_index(self.pending@, i as int);
                    lemma_subs_map_remove(self.pending@, i as int);
                }
                let ghost p0 = self.pending@;
                let entry = self.pending.remove(i);
                proof {
                    assert forall|a: int, b: int|
                        0 <= a < b < self.pending@.len() implies self.pending@[a].0@
                        != self.pending@[b].0@ by {
                        let sa: int = if a < i {
                            a
                        } else {
                            a + 1
                        };
                        let sb: int = if b < i {
                            b
                        } else {
                            b + 1
                        };
                        assert(p0[sa] == self.pending@[a]);
                        assert(p0[sb] == self.pending@[b]);
                    }
                }
                entry.1
            },
            None => {
                proof {
                    lemma_subs_map_absent(self.pending@, key@);
                    assert(subs_map(self.pending@).remove(key@) =~= subs_map(self.pending@));
                    assert(Seq::<u64>::empty().to_set() =~= Set::<u64>::empty());
                }
                Vec::new()
            },
        }
    }
}

/// The coordinator state after one request per element of `subs`, all for
/// the same key, in order and with no resolution in between.
pub open spec fn request_all(m: CoordView, k: KeyView, subs: Seq<u64>) -> CoordView
    decreases subs.len(),
{
    if subs.len() == 0 {
        m
    } else {
        request_tr(request_all(m, k, subs.drop_last()), k, subs.last())
    }
}

/// How many of those requests asked the caller to start a fetch — that is,
/// how often the catalog client is invoked for the key.
pub open spec fn fetch_count(m: CoordView, k: KeyView, subs: Seq<u64>) -> int
    decreases subs.len(),
{
    if subs.len() == 0 {
        0
    } else {
        fetch_count(m, k, subs.drop_last()) + if request_act(
            request_all(m, k, subs.drop_last()),
            k,
        ) == RequestAction::MustFetch {
            1int
        } else {
            0int
        }
    }
}

/// Any number of concurrent requests for one unresolved key start exactly
/// one fetch, and leave exactly the requesting subscribers registered: on
/// resolution each of them — and no one else — is notified.
pub proof fn lemma_concurrent_requests_fan_out(m: CoordView, k: KeyView, subs: Seq<u64>)
    requires
        !m.cache.dom().contains(k),
        !m.inflight.contains(k),
        subs.len() > 0,
    ensures
        fetch_count(m, k, subs) == 1,
        request_all(m, k, subs).cache == m.cache,
        request_all(m, k, subs).inflight == m.inflight.insert(k),
        pending_of(request_all(m, k, subs), k) == pending_of(m, k).union(subs.to_set()),
    decreases subs.len(),
{
    let dl = subs.drop_last();
    if subs.len() == 1 {
        assert(request_all(m, k, dl) == m);
        assert(fetch_count(m, k, dl) == 0);
        assert(subs[0] == subs.last());
        assert(pending_of(request_tr(m, k, subs.last()), k) =~= pending_of(m, k).union(
            subs.to_set(),
        ));
        assert(request_tr(m, k, subs.last()).inflight =~= m.inflight.insert(k));
    } else {
        lemma_concurrent_requests_fan_out(m, k, dl);
        let m1 = request_all(m, k, dl);
        assert(m1.inflight.contains(k));
        assert(subs =~= dl.push(subs.last()));
        dl.lemma_push_to_set_commute(subs.last());
        assert(pending_of(request_all(m, k, subs), k) =~= pending_of(m, k).union(subs.to_set()));
        assert(request_all(m, k, subs).inflight =~= m.inflight.insert(k));
    }
}

/// The counting form of the fan-out law: distinct subscribers of a key with
/// no one yet pending produce one fetch and as many registrations as there
/// are subscribers, so resolution hands out exactly that many notifications.
pub proof fn lemma_fan_out_notification_count(m: CoordView, k: KeyView, subs: Seq<u64>)
    requires
        !m.cache.dom().contains(k),
        !m.inflight.contains(k),
        pending_of(m, k) == Set::<u64>::empty(),
        subs.no_duplicates(),
        subs.len() > 0,
    ensures
        fetch_count(m, k, subs) == 1,
        pending_of(request_all(m, k, subs), k) == subs.to_set(),
        pending_of(request_all(m, k, subs), k).len() == subs.len(),
{
    lemma_concurrent_requests_fan_out(m, k, subs);
    assert(Set::<u64>::empty().union(subs.to_set()) =~= subs.to_set());
    subs.unique_seq_to_set();
}

/// Requesting a key twice for the same subscriber before resolution is the
/// same as requesting it once, and the second request never starts another
/// fetch: the subscriber stays registered exactly once.
pub proof fn lemma_request_idempotent(m: CoordView, k: KeyView, s: u64)
    ensures
        request_tr(request_tr(m, k, s), k, s) == request_tr(m, k, s),
        request_act(request_tr(m, k, s), k) != RequestAction::MustFetch,
{
    if !m.cache.dom().contains(k) {
        let m1 = request_tr(m, k, s);
        assert(pending_of(m1, k) == pending_of(m, k).insert(s));
        assert(pending_of(m1, k).insert(s) =~= pending_of(m1, k));
        assert(m1.pending.insert(k, pending_of(m1, k)) =~= m1.pending);
        assert(m1.inflight.insert(k) =~= m1.inflight);
        assert(request_tr(m1, k, s) =~= m1);
    }
}

/// The cache-hit law: a request for a resolved key answers from the cache
/// and changes nothing, so it never reaches the catalog client.
pub proof fn lemma_cached_request_is_noop(m: CoordView, k: KeyView, s: u64)
    requires
        m.cache.dom().contains(k),
    ensures
        request_act(m, k) == RequestAction::Hit,
        request_tr(m, k, s) == m,
{
}

/// After a key resolves once, every later request for it is a cache hit
/// that leaves the coordinator unchanged — no fetch, no registration.
pub proof fn lemma_resolved_then_hit(m: CoordView, k: KeyView, v: CacheValue, s: u64)
    ensures
        request_act(resolve_ok_tr(m, k, v), k) == RequestAction::Hit,
        request_tr(resolve_ok_tr(m, k, v), k, s) == resolve_ok_tr(m, k, v),
{
}

} // verus!
