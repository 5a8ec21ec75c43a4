//! A map from series keys to values, kept in the order of its keys.
use crate::key::{KeyView, SeriesKey};
use crate::key;
use crate::text::Rank;
use vstd::prelude::*;

verus! {

/// Entries in strictly ascending key order, so no key occurs twice.
pub open spec fn sorted<W>(s: Seq<(KeyView, W)>) -> bool {
    forall|i: int, j: int| 0 <= i < j < s.len() ==> (#[trigger] s[i]).0.below((#[trigger] s[j]).0)
}

/// Where the key stands, or where it belongs: behind every smaller key.
pub open spec fn slot<W>(s: Seq<(KeyView, W)>, k: KeyView) -> int
    decreases s.len(),
{
    if s.len() > 0 && s[0].0.below(k) {
        1 + slot(s.drop_first(), k)
    } else {
        0
    }
}

/// The value of a key.
pub open spec fn lookup<W>(s: Seq<(KeyView, W)>, k: KeyView) -> Option<W> {
    let i = slot(s, k);
    if i < s.len() && s[i].0 == k {
        Some(s[i].1)
    } else {
        None
    }
}

/// The entries after setting the value of a key.
pub open spec fn put<W>(s: Seq<(KeyView, W)>, k: KeyView, w: W) -> Seq<(KeyView, W)> {
    let i = slot(s, k);
    if i < s.len() && s[i].0 == k {
        s.update(i, (k, w))
    } else {
        s.insert(i, (k, w))
    }
}

/// `i` splits the entries into those with a smaller key and the rest.
pub open spec fn splits<W>(s: Seq<(KeyView, W)>, k: KeyView, i: int) -> bool {
    &&& 0 <= i <= s.len()
    &&& forall|j: int| 0 <= j < i ==> (#[trigger] s[j]).0.below(k)
    &&& forall|j: int| i <= j < s.len() ==> !(#[trigger] s[j]).0.below(k)
}

pub proof fn lemma_slot_is_split<W>(s: Seq<(KeyView, W)>, k: KeyView, i: int)
    requires
        splits(s, k, i),
    ensures
        slot(s, k) == i,
    decreases s.len(),
{
    if i > 0 {
        assert(s[0].0.below(k));
        let t = s.drop_first();
        assert forall|j: int| 0 <= j < i - 1 implies (#[trigger] t[j]).0.below(k) by {
            assert(t[j] == s[j + 1]);
        }
        assert forall|j: int| i - 1 <= j < t.len() implies !(#[trigger] t[j]).0.below(k) by {
            assert(t[j] == s[j + 1]);
        }
        lemma_slot_is_split(t, k, i - 1);
    } else if s.len() > 0 {
        assert(!s[0].0.below(k));
    }
}

pub proof fn lemma_sorted_slot_splits<W>(s: Seq<(KeyView, W)>, k: KeyView)
    requires
        sorted(s),
    ensures
        splits(s, k, slot(s, k)),
    decreases s.len(),
{
    if s.len() > 0 {
        let t = s.drop_first();
        assert forall|i: int, j: int| 0 <= i < j < t.len() implies (#[trigger] t[i]).0.below(
            (#[trigger] t[j]).0,
        ) by {
            assert(s[i + 1].0.below(s[j + 1].0));
        }
        lemma_sorted_slot_splits(t, k);
        let n = slot(s, k);
        if s[0].0.below(k) {
            assert forall|j: int| 0 <= j < n implies (#[trigger] s[j]).0.below(k) by {
                if j > 0 {
                    assert(t[j - 1] == s[j]);
                }
            }
            assert forall|j: int| n <= j < s.len() implies !(#[trigger] s[j]).0.below(k) by {
                assert(t[j - 1] == s[j]);
            }
        } else {
            assert forall|j: int| 0 <= j < s.len() implies !(#[trigger] s[j]).0.below(k) by {
                if j > 0 && s[j].0.below(k) {
                    assert(s[0].0.below(s[j].0));
                    key::law_key_order_is_transitive(s[0].0, s[j].0, k);
                }
            }
        }
    }
}

/// Setting a key keeps the entries in order.
pub proof fn law_put_keeps_order<W>(s: Seq<(KeyView, W)>, k: KeyView, w: W)
    requires
        sorted(s),
    ensures
        sorted(put(s, k, w)),
{
    lemma_sorted_slot_splits(s, k);
    let n = slot(s, k);
    let t = put(s, k, w);
    if n < s.len() && s[n].0 == k {
        assert forall|i: int, j: int| 0 <= i < j < t.len() implies (#[trigger] t[i]).0.below(
            (#[trigger] t[j]).0,
        ) by {
            assert(s[i].0.below(s[j].0));
        }
    } else {
        assert forall|j: int| n <= j < s.len() implies k.below((#[trigger] s[j]).0) by {
            key::law_key_order(s[n].0, k);
            if j > n {
                assert(s[n].0.below(s[j].0));
                key::law_key_order_is_transitive(k, s[n].0, s[j].0);
            }
        }
        assert forall|i: int, j: int| 0 <= i < j < t.len() implies (#[trigger] t[i]).0.below(
            (#[trigger] t[j]).0,
        ) by {
            if i < n && j < n {
                assert(s[i].0.below(s[j].0));
            } else if i < n && j == n {
                assert(s[i].0.below(k));
            } else if i < n {
                assert(s[i].0.below(s[j - 1].0));
            } else if i == n {
                assert(k.below(s[j - 1].0));
            } else {
                assert(s[i - 1].0.below(s[j - 1].0));
            }
        }
    }
}

pub proof fn lemma_put_at_slot<W>(s: Seq<(KeyView, W)>, k: KeyView, w: W)
    requires
        sorted(s),
    ensures
        0 <= slot(s, k) <= s.len(),
        s.len() <= put(s, k, w).len() <= s.len() + 1,
        slot(s, k) < put(s, k, w).len(),
        put(s, k, w)[slot(s, k)] == (k, w),
{
    lemma_sorted_slot_splits(s, k);
}

/// Setting a key leaves only entries that were there, and the one that is set.
pub proof fn law_put_adds_one_entry<W>(s: Seq<(KeyView, W)>, k: KeyView, w: W)
    requires
        sorted(s),
    ensures
        forall|i: int|
            0 <= i < put(s, k, w).len() ==> (#[trigger] put(s, k, w)[i]) == (k, w) || s.contains(
                put(s, k, w)[i],
            ),
{
    lemma_put_at_slot(s, k, w);
    let n = slot(s, k);
    let t = put(s, k, w);
    assert forall|i: int| 0 <= i < t.len() implies (#[trigger] t[i]) == (k, w) || s.contains(
        t[i],
    ) by {
        if i != n {
            if t.len() == s.len() || i < n {
                assert(t[i] == s[i]);
            } else {
                assert(t[i] == s[i - 1]);
            }
        }
    }
}

/// A key is found exactly where an entry carries it.
pub proof fn law_lookup_finds_entries<W>(s: Seq<(KeyView, W)>, k: KeyView)
    requires
        sorted(s),
    ensures
        forall|i: int| 0 <= i < s.len() && (#[trigger] s[i]).0 == k ==> lookup(s, k) == Some(s[i].1),
        lookup(s, k) is Some ==> s.contains((k, lookup(s, k)->0)),
{
    lemma_sorted_slot_splits(s, k);
    let n = slot(s, k);
    key::law_key_order(k, k);
    assert forall|i: int| 0 <= i < s.len() && (#[trigger] s[i]).0 == k implies lookup(s, k)
        == Some(s[i].1) by {
        if i > n {
            assert(s[n].0.below(s[i].0));
        }
    }
    if n < s.len() && s[n].0 == k {
        assert(s[n] == (k, s[n].1));
    }
}

/// A key reads back what was set last, and no other key changes.
pub proof fn law_lookup_after_put<W>(s: Seq<(KeyView, W)>, k: KeyView, w: W, other: KeyView)
    requires
        sorted(s),
    ensures
        lookup(put(s, k, w), k) == Some(w),
        other != k ==> lookup(put(s, k, w), other) == lookup(s, other),
{
    let t = put(s, k, w);
    let n = slot(s, k);
    law_put_keeps_order(s, k, w);
    lemma_sorted_slot_splits(s, k);
    law_lookup_finds_entries(t, k);
    assert(t[n] == (k, w));
    if other != k {
        law_lookup_finds_entries(t, other);
        law_lookup_finds_entries(s, other);
        if lookup(s, other) is Some {
            let i = choose|i: int| 0 <= i < s.len() && s[i] == (other, lookup(s, other)->0);
            if t.len() == s.len() || i < n {
                assert(t[i] == s[i]);
            } else {
                assert(t[i + 1] == s[i]);
            }
        } else if lookup(t, other) is Some {
            let i = choose|i: int| 0 <= i < t.len() && t[i] == (other, lookup(t, other)->0);
            if t.len() == s.len() || i < n {
                assert(t[i] == s[i]);
            } else {
                assert(t[i] == s[i - 1]);
            }
        }
    }
}

/// A map from series keys to values.
#[derive(Debug)]
pub struct KeyMap<V> {
    pub entries: Vec<(SeriesKey, V)>,
}

pub open spec fn entries_view<V: View>(s: Seq<(SeriesKey, V)>) -> Seq<(KeyView, V::V)> {
    Seq::new(s.len(), |i: int| (s[i].0@, s[i].1@))
}

impl<V: View> View for KeyMap<V> {
    type V = Seq<(KeyView, V::V)>;

    open spec fn view(&self) -> Seq<(KeyView, V::V)> {
        entries_view(self.entries@)
    }
}

impl<V: View> KeyMap<V> {
    pub open spec fn wf(&self) -> bool {
        sorted(self@)
    }

    pub fn new() -> (r: Self)
        ensures
            r.wf(),
            r@ == Seq::<(KeyView, V::V)>::empty(),
    {
        let r = KeyMap { entries: Vec::new() };
        proof {
            assert(r@ =~= Seq::<(KeyView, V::V)>::empty());
        }
        r
    }

    pub fn len(&self) -> (r: usize)
        ensures
            r == self@.len(),
    {
        self.entries.len()
    }

    /// Binary search: where the key stands or belongs, and whether it is there.
    pub fn locate(&self, key: &SeriesKey) -> (r: (usize, bool))
        requires
            self.wf(),
        ensures
            r.0 == slot(self@, key@),
            r.0 <= self@.len(),
            r.1 == (r.0 < self@.len() && self@[r.0 as int].0 == key@),
    {
        let mut lo: usize = 0;
        let mut hi: usize = self.entries.len();
        while lo < hi
            invariant
                lo <= hi <= self.entries.len(),
                self.wf(),
                forall|j: int| 0 <= j < lo ==> (#[trigger] self@[j]).0.below(key@),
                forall|j: int| hi <= j < self@.len() ==> !(#[trigger] self@[j]).0.below(key@),
            decreases hi - lo,
        {
            let mid: usize = lo + (hi - lo) / 2;
            let ghost at = self@[mid as int].0;
            if let Rank::Below = self.entries[mid].0.order(key) {
                proof {
                    assert forall|j: int| 0 <= j < mid + 1 implies (#[trigger] self@[j]).0.below(
                        key@,
                    ) by {
                        if j < mid {
                            assert(self@[j].0.below(at));
                            key::law_key_order_is_transitive(self@[j].0, at, key@);
                        }
                    }
                }
                lo = mid + 1;
            } else {
                proof {
                    assert forall|j: int| mid <= j < self@.len() implies !(
                    #[trigger] self@[j]).0.below(key@) by {
                        if j > mid && self@[j].0.below(key@) {
                            assert(at.below(self@[j].0));
                            key::law_key_order_is_transitive(at, self@[j].0, key@);
                        }
                    }
                }
                hi = mid;
            }
        }
        proof {
            lemma_slot_is_split(self@, key@, lo as int);
        }
        if lo < self.entries.len() {
            proof {
                key::law_key_order(self@[lo as int].0, key@);
            }
            (lo, matches!(self.entries[lo].0.order(key), Rank::Same))
        } else {
            (lo, false)
        }
    }

    pub fn get(&self, key: &SeriesKey) -> (r: Option<&V>)
        requires
            self.wf(),
        ensures
            match r {
                Some(v) => lookup(self@, key@) == Some(v@),
                None => lookup(self@, key@) is None,
            },
    {
        let (i, found) = self.locate(key);
        if found {
            Some(&self.entries[i].1)
        } else {
            None
        }
    }

    /// Sets the value of a key.
    pub fn insert(&mut self, key: SeriesKey, value: V)
        requires
            old(self).wf(),
        ensures
            final(self).wf(),
            final(self)@ == put(old(self)@, key@, value@),
    {
        proof {
            law_put_keeps_order(self@, key@, value@);
        }
        let ghost before = self@;
        let ghost (k, w) = (key@, value@);
        let (i, found) = self.locate(&key);
        if found {
            self.entries[i] = (key, value);
            proof {
                assert(self@ =~= before.update(i as int, (k, w)));
            }
        } else {
            self.entries.insert(i, (key, value));
            proof {
                assert(self@ =~= before.insert(i as int, (k, w)));
            }
        }
    }
}

} // verus!
