//! The user's view preference and its store.
//!
//! One scalar — page-by-page or continuous scroll — lives in a persistent
//! key-value collaborator. The store decodes it defensively: absence or a
//! corrupt cell reads as the single-page default. Writing goes through to
//! the cell and every subscriber hears the new value at once.

use vstd::prelude::*;
use vstd::string::StrSliceExecFns;

verus! {

/// The two reader view modes: one page at a time, or the whole chapter as
/// one continuous scroll.
#[derive(Clone, Copy, Debug, PartialEq, Eq, Structural)]
pub enum ViewPreference {
    SinglePage,
    ContinuousScroll,
}

/// The persisted encoding of a preference.
pub open spec fn spec_encode(p: ViewPreference) -> Seq<char> {
    match p {
        ViewPreference::SinglePage => "single_page"@,
        ViewPreference::ContinuousScroll => "continuous_scroll"@,
    }
}

/// How a persisted cell reads back: anything but the exact encoding of
/// continuous scroll — the other encoding, garbage, an empty string —
/// decodes to the single-page default.
pub open spec fn spec_decode(s: Seq<char>) -> ViewPreference {
    if s == spec_encode(ViewPreference::ContinuousScroll) {
        ViewPreference::ContinuousScroll
    } else {
        ViewPreference::SinglePage
    }
}

/// Serializes a preference for the persistent cell.
pub fn encode_view_preference(p: ViewPreference) -> (r: String)
    ensures
        r@ == spec_encode(p),
{
    match p {
        ViewPreference::SinglePage => "single_page".to_owned(),
        ViewPreference::ContinuousScroll => "continuous_scroll".to_owned(),
    }
}

/// Whether two string slices hold the same characters.
fn str_eq(a: &str, b: &str) -> (r: bool)
    ensures
        r == (a@ == b@),
{
    let sa = a.to_owned();
    let sb = b.to_owned();
    sa == sb
}

/// Reads a persisted cell back into a preference; never fails.
pub fn decode_view_preference(s: &str) -> (r: ViewPreference)
    ensures
        r == spec_decode(s@),
{
    if str_eq(s, "continuous_scroll") {
        ViewPreference::ContinuousScroll
    } else {
        ViewPreference::SinglePage
    }
}

/// The preference round trip: a preference written to the cell reads back
/// as itself, also after a reload that re-reads the persisted cell, since
/// decoding depends on the stored characters alone.
pub proof fn lemma_preference_round_trip(p: ViewPreference)
    ensures
        spec_decode(spec_encode(p)) == p,
{
    reveal_strlit("single_page");
    reveal_strlit("continuous_scroll");
    assert("single_page"@.len() == 11);
    assert("continuous_scroll"@.len() == 17);
}

/// Copies a subscriber list.
fn copy_subs(v: &Vec<u64>) -> (r: Vec<u64>)
    ensures
        r@ == v@,
{
    let mut r: Vec<u64> = Vec::new();
    let mut i: usize = 0;
    while i < v.len()
        invariant
            i <= v@.len(),
            r@ == v@.subrange(0, i as int),
        decreases v@.len() - i,
    {
        r.push(v[i]);
        proof {
            assert(r@ =~= v@.subrange(0, i + 1));
        }
        i += 1;
    }
    proof {
        assert(r@ =~= v@);
    }
    r
}

/// The preference store: the persisted cell it owns, and the subscribers
/// that hear every change.
pub struct PrefStore {
    stored: Option<String>,
    subscribers: Vec<u64>,
}

impl PrefStore {
    /// The persisted cell as the store sees it.
    pub closed spec fn stored_view(&self) -> Option<Seq<char>> {
        match self.stored {
            Some(s) => Some(s@),
            None => None,
        }
    }

    /// The registered subscribers, in subscription order.
    pub closed spec fn subs(&self) -> Seq<u64> {
        self.subscribers@
    }

    pub closed spec fn wf(&self) -> bool {
        self.subscribers@.no_duplicates()
    }

    /// The current preference: what the cell decodes to, or the default
    /// when nothing is stored.
    pub open spec fn pref_of(&self) -> ViewPreference {
        match self.stored_view() {
            Some(s) => spec_decode(s),
            None => ViewPreference::SinglePage,
        }
    }

    /// Builds the store from whatever the persistent collaborator holds —
    /// at startup, or after a reload.
    pub fn from_storage(stored: Option<String>) -> (r: PrefStore)
        ensures
            r.wf(),
            r.stored_view() == match stored {
                Some(s) => Some(s@),
                None => None::<Seq<char>>,
            },
            r.subs() == Seq::<u64>::empty(),
    {
        PrefStore { stored, subscribers: Vec::new() }
    }

    /// Reads the current preference; absence and corrupt cells read as the
    /// single-page default, so this never fails.
    pub fn get(&self) -> (r: ViewPreference)
        ensures
            r == self.pref_of(),
    {
        match &self.stored {
            Some(s) => decode_view_preference(s.as_str()),
            None => ViewPreference::SinglePage,
        }
    }

    /// Writes the preference through to the cell and returns the
    /// subscribers to notify — all of them, in subscription order. The next
    /// `get` sees the new value.
    pub fn set(&mut self, p: ViewPreference) -> (notify: Vec<u64>)
        requires
            old(self).wf(),
        ensures
            final(self).wf(),
            final(self).stored_view() == Some(spec_encode(p)),
            final(self).pref_of() == p,
            final(self).subs() == old(self).subs(),
            notify@ == old(self).subs(),
    {
        self.stored = Some(encode_view_preference(p));
        proof {
            lemma_preference_round_trip(p);
        }
        copy_subs(&self.subscribers)
    }

    /// Registers a subscriber; registering twice is the same as once.
    pub fn subscribe(&mut self, handle: u64)
        requires
            old(self).wf(),
        ensures
            final(self).wf(),
            final(self).stored_view() == old(self).stored_view(),
            final(self).subs() == if old(self).subs().contains(handle) {
                old(self).subs()
            } else {
                old(self).subs().push(handle)
            },
    {
        let mut i: usize = 0;
        while i < self.subscribers.len()
            invariant
                i <= self.subscribers@.len(),
                *self == *old(self),
                self.subscribers@.no_duplicates(),
                forall|j: int| 0 <= j < i ==> self.subscribers@[j] != handle,
        decreases self.subscribers@.len() - i,
        {
            if self.subscribers[i] == handle {
                proof {
                    assert(self.subscribers@.contains(handle));
                }
                return ;
            }
            i += 1;
        }
        let ghost v0 = self.subscribers@;
        self.subscribers.push(handle);
        proof {
            assert forall|a: int, b: int|
                0 <= a < self.subscribers@.len() && 0 <= b < self.subscribers@.len() && a
                != b implies self.subscribers@[a] != self.subscribers@[b] by {
                if a == v0.len() as int {
                    assert(self.subscribers@[a] == handle);
                } else if b == v0.len() as int {
                    assert(self.subscribers@[b] == handle);
                }
            }
        }
    }

    /// Removes a subscriber; unknown handles are ignored.
    pub fn unsubscribe(&mut self, handle: u64)
        requires
            old(self).wf(),
        ensures
            final(self).wf(),
            final(self).stored_view() == old(self).stored_view(),
            final(self).subs().to_set() == old(self).subs().to_set().remove(handle),
            !final(self).subs().contains(handle),
    {
        let mut i: usize = 0;
        while i < self.subscribers.len()
            invariant
                i <= self.subscribers@.len(),
                *self == *old(self),
                self.subscribers@.no_duplicates(),
                forall|j: int| 0 <= j < i ==> self.subscribers@[j] != handle,
        decreases self.subscribers@.len() - i,
        {
            if self.subscribers[i] == handle {
                let ghost v0 = self.subscribers@;
                proof {
                    crate::coordinator::lemma_remove_to_set(v0, i as int);
                }
                let _gone = self.subscribers.remove(i);
                proof {
                    assert forall|j: int|
                        0 <= j < self.subscribers@.len() implies self.subscribers@[j]
                        != handle by {
                        if j < i {
                            assert(self.subscribers@[j] == v0[j]);
                        } else {
                            assert(self.subscribers@[j] == v0[j + 1]);
                        }
                    }
                }
                return ;
            }
            i += 1;
        }
        proof {
            assert(!self.subscribers@.contains(handle)) by {
                if self.subscribers@.contains(handle) {
                    let idx = choose|idx: int|
                        0 <= idx < self.subscribers@.len() && self.subscribers@[idx] == handle;
                }
            }
            assert(self.subscribers@.to_set().remove(handle) =~= self.subscribers@.to_set());
        }
    }
}

} // verus!
