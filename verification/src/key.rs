//! Identity of a time series, and maps that are kept in the order of their keys.
use crate::text;
use crate::text::{order_text, same, Rank};
use vstd::prelude::*;

verus! {

/// Identity of one time series: metric family name + its (sorted) labels.
/// For histograms, the `le` label is stripped from bucket samples and the
/// `_sum`/`_count` suffixes are folded into the parent series key.
#[derive(Debug, PartialEq, Eq)]
pub struct SeriesKey {
    pub name: String,
    pub labels: Vec<(String, String)>,
}

pub type Labels = Seq<(Seq<char>, Seq<char>)>;

/// A series key as text.
#[verifier::ext_equal]
pub struct KeyView {
    pub name: Seq<char>,
    pub labels: Labels,
}

/// Label pairs as text.
pub open spec fn labels_view(labels: Seq<(String, String)>) -> Labels {
    Seq::new(labels.len(), |i: int| (labels[i].0@, labels[i].1@))
}

impl View for SeriesKey {
    type V = KeyView;

    open spec fn view(&self) -> KeyView {
        KeyView { name: self.name@, labels: labels_view(self.labels@) }
    }
}

/// Names are compared first, then values.
pub open spec fn rank_pair(a: (Seq<char>, Seq<char>), b: (Seq<char>, Seq<char>)) -> Rank {
    match text::rank_text(a.0, b.0) {
        Rank::Same => text::rank_text(a.1, b.1),
        r => r,
    }
}

/// Lexicographic order of label lists.
pub open spec fn rank_labels(a: Labels, b: Labels) -> Rank
    decreases a.len(),
{
    if a.len() == 0 {
        if b.len() == 0 {
            Rank::Same
        } else {
            Rank::Below
        }
    } else if b.len() == 0 {
        Rank::Above
    } else {
        match rank_pair(a[0], b[0]) {
            Rank::Same => rank_labels(a.drop_first(), b.drop_first()),
            r => r,
        }
    }
}

impl KeyView {
    /// Order of keys: by name, then by labels. A family's label-less series
    /// comes first.
    pub open spec fn rank(self, other: KeyView) -> Rank {
        match text::rank_text(self.name, other.name) {
            Rank::Same => rank_labels(self.labels, other.labels),
            r => r,
        }
    }

    pub open spec fn below(self, other: KeyView) -> bool {
        self.rank(other) == Rank::Below
    }

    pub open spec fn labeled(self, k: Seq<char>, v: Seq<char>) -> bool {
        self.labels.contains((k, v))
    }
}

proof fn lemma_pair(a: (Seq<char>, Seq<char>), b: (Seq<char>, Seq<char>))
    ensures
        (rank_pair(a, b) == Rank::Same) == (a == b),
        rank_pair(b, a) == rank_pair(a, b).flip(),
{
    text::lemma_rank_text_same(a.0, b.0);
    text::lemma_rank_text_same(a.1, b.1);
    text::lemma_rank_text_flip(a.0, b.0);
    text::lemma_rank_text_flip(a.1, b.1);
}

proof fn lemma_pair_trans(
    a: (Seq<char>, Seq<char>),
    b: (Seq<char>, Seq<char>),
    c: (Seq<char>, Seq<char>),
)
    requires
        rank_pair(a, b) == Rank::Below,
        rank_pair(b, c) == Rank::Below,
    ensures
        rank_pair(a, c) == Rank::Below,
{
    text::lemma_rank_text_same(a.0, b.0);
    text::lemma_rank_text_same(b.0, c.0);
    if text::rank_text(a.0, b.0) == Rank::Below && text::rank_text(b.0, c.0) == Rank::Below {
        text::lemma_rank_text_trans(a.0, b.0, c.0);
    }
    if a.0 == b.0 && b.0 == c.0 {
        text::lemma_rank_text_trans(a.1, b.1, c.1);
    }
}

proof fn lemma_labels(a: Labels, b: Labels)
    ensures
        (rank_labels(a, b) == Rank::Same) == (a == b),
        rank_labels(b, a) == rank_labels(a, b).flip(),
    decreases a.len(),
{
    if a.len() > 0 && b.len() > 0 {
        lemma_pair(a[0], b[0]);
        if a[0] == b[0] {
            lemma_labels(a.drop_first(), b.drop_first());
            assert(a =~= seq![a[0]] + a.drop_first());
            assert(b =~= seq![b[0]] + b.drop_first());
        }
    } else if a.len() == 0 && b.len() == 0 {
        assert(a =~= b);
    }
}

proof fn lemma_labels_trans(a: Labels, b: Labels, c: Labels)
    requires
        rank_labels(a, b) == Rank::Below,
        rank_labels(b, c) == Rank::Below,
    ensures
        rank_labels(a, c) == Rank::Below,
    decreases a.len(),
{
    if a.len() > 0 && b.len() > 0 && c.len() > 0 {
        lemma_pair(a[0], b[0]);
        lemma_pair(b[0], c[0]);
        if a[0] == b[0] && b[0] == c[0] {
            lemma_labels_trans(a.drop_first(), b.drop_first(), c.drop_first());
        } else if a[0] != b[0] && b[0] != c[0] {
            lemma_pair_trans(a[0], b[0], c[0]);
        }
    }
}

/// Puts a label behind those that do not come after it.
pub open spec fn insert_label(s: Labels, l: (Seq<char>, Seq<char>)) -> Labels
    decreases s.len(),
{
    if s.len() > 0 && rank_pair(l, s.last()) == Rank::Below {
        insert_label(s.drop_last(), l).push(s.last())
    } else {
        s.push(l)
    }
}

/// The labels by name, those of one name by value.
pub open spec fn arranged(labels: Labels) -> Labels
    decreases labels.len(),
{
    if labels.len() == 0 {
        seq![]
    } else {
        insert_label(arranged(labels.drop_last()), labels.last())
    }
}

/// No label comes after a later one.
pub open spec fn in_order(labels: Labels) -> bool {
    forall|i: int, j: int|
        0 <= i < j < labels.len() ==> rank_pair(#[trigger] labels[i], #[trigger] labels[j])
            != Rank::Above
}

proof fn lemma_insert_label(s: Labels, l: (Seq<char>, Seq<char>), j: int)
    requires
        0 <= j <= s.len(),
        forall|i: int| j <= i < s.len() ==> rank_pair(l, #[trigger] s[i]) == Rank::Below,
        j > 0 ==> rank_pair(l, s[j - 1]) != Rank::Below,
    ensures
        insert_label(s, l) == s.insert(j, l),
    decreases s.len(),
{
    if j < s.len() {
        lemma_insert_label(s.drop_last(), l, j);
        assert(s.insert(j, l) =~= s.drop_last().insert(j, l).push(s.last()));
    } else {
        assert(s.insert(j, l) =~= s.push(l));
    }
}

proof fn lemma_not_above_trans(
    a: (Seq<char>, Seq<char>),
    b: (Seq<char>, Seq<char>),
    c: (Seq<char>, Seq<char>),
)
    requires
        rank_pair(a, b) != Rank::Above,
        rank_pair(b, c) != Rank::Above,
    ensures
        rank_pair(a, c) != Rank::Above,
{
    lemma_pair(a, b);
    lemma_pair(b, c);
    if a != b && b != c {
        lemma_pair_trans(a, b, c);
    }
}

proof fn lemma_insert_keeps_order(s: Labels, l: (Seq<char>, Seq<char>))
    requires
        in_order(s),
    ensures
        in_order(insert_label(s, l)),
        insert_label(s, l).to_multiset() == s.to_multiset().insert(l),
    decreases s.len(),
{
    broadcast use vstd::seq_lib::group_to_multiset_ensures;

    let t = insert_label(s, l);
    if s.len() > 0 && rank_pair(l, s.last()) == Rank::Below {
        let u = s.drop_last();
        lemma_insert_keeps_order(u, l);
        let v = insert_label(u, l);
        assert(s =~= u.push(s.last()));
        assert(t.to_multiset() =~= s.to_multiset().insert(l));
        assert forall|i: int, j: int| 0 <= i < j < t.len() implies rank_pair(
            #[trigger] t[i],
            #[trigger] t[j],
        ) != Rank::Above by {
            if j == v.len() {
                assert(v.to_multiset().contains(v[i])) by {
                    assert(v.contains(v[i]));
                }
                if v[i] != l {
                    assert(u.to_multiset().contains(v[i]));
                    assert(u.contains(v[i]));
                    let k = choose|k: int| 0 <= k < u.len() && u[k] == v[i];
                    assert(rank_pair(s[k], s[s.len() - 1]) != Rank::Above);
                }
            } else {
                assert(rank_pair(v[i], v[j]) != Rank::Above);
            }
        }
    } else {
        assert forall|i: int, j: int| 0 <= i < j < t.len() implies rank_pair(
            #[trigger] t[i],
            #[trigger] t[j],
        ) != Rank::Above by {
            if j < s.len() {
                assert(rank_pair(s[i], s[j]) != Rank::Above);
            } else {
                lemma_pair(l, s.last());
                if i < s.len() - 1 {
                    assert(rank_pair(s[i], s[s.len() - 1]) != Rank::Above);
                    lemma_not_above_trans(s[i], s.last(), l);
                }
            }
        }
    }
}

/// Arranged labels are the same labels, each as often, in order.
pub proof fn law_arranged_labels_are_sorted(labels: Labels)
    ensures
        in_order(arranged(labels)),
        arranged(labels).to_multiset() == labels.to_multiset(),
    decreases labels.len(),
{
    broadcast use vstd::seq_lib::group_to_multiset_ensures;

    if labels.len() == 0 {
        assert(arranged(labels) =~= labels);
    } else {
        law_arranged_labels_are_sorted(labels.drop_last());
        lemma_insert_keeps_order(arranged(labels.drop_last()), labels.last());
        assert(labels =~= labels.drop_last().push(labels.last()));
    }
}

/// The order in which labels were written does not matter: the same labels
/// arrange to the same list.
pub proof fn law_label_order_does_not_matter(a: Labels, b: Labels)
    requires
        a.to_multiset() == b.to_multiset(),
    ensures
        arranged(a) == arranged(b),
{
    law_arranged_labels_are_sorted(a);
    law_arranged_labels_are_sorted(b);
    let leq = |x: (Seq<char>, Seq<char>), y: (Seq<char>, Seq<char>)|
        rank_pair(x, y) != Rank::Above;
    assert forall|x: (Seq<char>, Seq<char>), y: (Seq<char>, Seq<char>)| #[trigger]
        leq(x, y) && #[trigger] leq(y, x) implies x == y by {
        lemma_pair(x, y);
    }
    assert forall|x: (Seq<char>, Seq<char>), y: (Seq<char>, Seq<char>)| #[trigger]
        leq(x, y) || #[trigger] leq(y, x) by {
        lemma_pair(x, y);
    }
    assert forall|x: (Seq<char>, Seq<char>)| #[trigger] leq(x, x) by {
        lemma_pair(x, x);
    }
    assert forall|
        x: (Seq<char>, Seq<char>),
        y: (Seq<char>, Seq<char>),
        z: (Seq<char>, Seq<char>),
    | #[trigger] leq(x, y) && #[trigger] leq(y, z) implies leq(x, z) by {
        lemma_not_above_trans(x, y, z);
    }
    vstd::seq_lib::lemma_sorted_unique(arranged(a), arranged(b), leq);
}

/// Labels that are in order stay as they are.
pub proof fn law_sorted_labels_stay(labels: Labels)
    requires
        in_order(labels),
    ensures
        arranged(labels) == labels,
    decreases labels.len(),
{
    if labels.len() > 0 {
        let u = labels.drop_last();
        assert forall|i: int, j: int| 0 <= i < j < u.len() implies rank_pair(
            #[trigger] u[i],
            #[trigger] u[j],
        ) != Rank::Above by {
            assert(rank_pair(labels[i], labels[j]) != Rank::Above);
        }
        law_sorted_labels_stay(u);
        if u.len() > 0 {
            assert(rank_pair(labels[u.len() - 1], labels[labels.len() - 1]) != Rank::Above);
            lemma_pair(u.last(), labels.last());
        }
        assert(labels =~= u.push(labels.last()));
    } else {
        assert(arranged(labels) =~= labels);
    }
}

/// Keys are totally ordered: two that compare the same are the same key, and
/// the comparison flips with its sides.
pub proof fn law_key_order(a: KeyView, b: KeyView)
    ensures
        (a.rank(b) == Rank::Same) == (a == b),
        b.rank(a) == a.rank(b).flip(),
{
    text::lemma_rank_text_same(a.name, b.name);
    text::lemma_rank_text_flip(a.name, b.name);
    lemma_labels(a.labels, b.labels);
}

/// The order of keys is transitive.
pub proof fn law_key_order_is_transitive(a: KeyView, b: KeyView, c: KeyView)
    requires
        a.below(b),
        b.below(c),
    ensures
        a.below(c),
{
    text::lemma_rank_text_same(a.name, b.name);
    text::lemma_rank_text_same(b.name, c.name);
    if a.name == b.name && b.name == c.name {
        lemma_labels_trans(a.labels, b.labels, c.labels);
    } else if a.name != b.name && b.name != c.name {
        text::lemma_rank_text_trans(a.name, b.name, c.name);
    }
}

fn order_pair(a: &(String, String), b: &(String, String)) -> (r: Rank)
    ensures
        r == rank_pair((a.0@, a.1@), (b.0@, b.1@)),
{
    match order_text(a.0.as_str(), b.0.as_str()) {
        Rank::Same => order_text(a.1.as_str(), b.1.as_str()),
        r => r,
    }
}

fn order_labels(a: &Vec<(String, String)>, b: &Vec<(String, String)>) -> (r: Rank)
    ensures
        r == rank_labels(labels_view(a@), labels_view(b@)),
{
    let mut i: usize = 0;
    proof {
        assert(labels_view(a@).skip(0) =~= labels_view(a@));
        assert(labels_view(b@).skip(0) =~= labels_view(b@));
    }
    loop
        invariant
            i <= a.len(),
            i <= b.len(),
            rank_labels(labels_view(a@), labels_view(b@)) == rank_labels(
                labels_view(a@).skip(i as int),
                labels_view(b@).skip(i as int),
            ),
        decreases a.len() - i,
    {
        if i == a.len() {
            return if i == b.len() {
                Rank::Same
            } else {
                Rank::Below
            };
        }
        if i == b.len() {
            return Rank::Above;
        }
        let ghost (x, y) = (labels_view(a@).skip(i as int), labels_view(b@).skip(i as int));
        match order_pair(&a[i], &b[i]) {
            Rank::Same => {},
            r => {
                return r;
            },
        }
        i = i + 1;
        proof {
            assert(x.drop_first() =~= labels_view(a@).skip(i as int));
            assert(y.drop_first() =~= labels_view(b@).skip(i as int));
        }
    }
}

/// Orders labels by name, those of one name by value.
pub fn sort_labels(labels: &Vec<(String, String)>) -> (r: Vec<(String, String)>)
    ensures
        labels_view(r@) == arranged(labels_view(labels@)),
{
    let ghost all = labels_view(labels@);
    let mut out: Vec<(String, String)> = Vec::new();
    let mut i: usize = 0;
    proof {
        assert(labels_view(out@) =~= arranged(all.take(0)));
    }
    while i < labels.len()
        invariant
            i <= labels.len(),
            all == labels_view(labels@),
            labels_view(out@) == arranged(all.take(i as int)),
        decreases labels.len() - i,
    {
        let pair = (labels[i].0.clone(), labels[i].1.clone());
        let ghost added = (pair.0@, pair.1@);
        let mut j: usize = out.len();
        while j > 0 && order_pair(&pair, &out[j - 1]) == Rank::Below
            invariant
                j <= out.len(),
                added == (pair.0@, pair.1@),
                forall|k: int|
                    j <= k < out.len() ==> rank_pair(added, #[trigger] labels_view(out@)[k])
                        == Rank::Below,
            decreases j,
        {
            j = j - 1;
        }
        let ghost before = out@;
        proof {
            lemma_insert_label(labels_view(out@), added, j as int);
            assert(all.take(i + 1).drop_last() =~= all.take(i as int));
            assert(all.take(i + 1).last() == added);
        }
        out.insert(j, pair);
        i = i + 1;
        proof {
            assert(labels_view(out@) =~= labels_view(before).insert(j as int, added));
        }
    }
    proof {
        assert(all.take(all.len() as int) =~= all);
    }
    out
}

/// A copy of a label list.
pub fn copy_labels(labels: &Vec<(String, String)>) -> (r: Vec<(String, String)>)
    ensures
        labels_view(r@) == labels_view(labels@),
{
    let mut out: Vec<(String, String)> = Vec::new();
    let mut i: usize = 0;
    while i < labels.len()
        invariant
            i <= labels.len(),
            labels_view(out@) == labels_view(labels@).take(i as int),
        decreases labels.len() - i,
    {
        let pair = (labels[i].0.clone(), labels[i].1.clone());
        let ghost before = out@;
        let ghost added = (pair.0@, pair.1@);
        out.push(pair);
        i = i + 1;
        proof {
            assert(labels_view(out@) =~= labels_view(before).push(added));
            assert(labels_view(out@) =~= labels_view(labels@).take(i as int));
        }
    }
    proof {
        assert(labels_view(labels@).take(labels@.len() as int) =~= labels_view(labels@));
    }
    out
}

impl Clone for SeriesKey {
    fn clone(&self) -> (r: SeriesKey)
        ensures
            r@ == self@,
    {
        SeriesKey { name: self.name.clone(), labels: copy_labels(&self.labels) }
    }
}

impl SeriesKey {
    /// Whether one of the labels is `k` with the value `v`.
    pub fn has_label(&self, k: &str, v: &str) -> (r: bool)
        ensures
            r == self@.labeled(k@, v@),
    {
        let mut i: usize = 0;
        while i < self.labels.len()
            invariant
                i <= self.labels.len(),
                forall|j: int| 0 <= j < i ==> #[trigger] self@.labels[j] != (k@, v@),
            decreases self.labels.len() - i,
        {
            if same(self.labels[i].0.as_str(), k) && same(self.labels[i].1.as_str(), v) {
                proof {
                    assert(self@.labels[i as int] == (k@, v@));
                }
                return true;
            }
            i = i + 1;
        }
        false
    }

    /// Three-way comparison of keys.
    pub fn order(&self, other: &SeriesKey) -> (r: Rank)
        ensures
            r == self@.rank(other@),
    {
        match order_text(self.name.as_str(), other.name.as_str()) {
            Rank::Same => order_labels(&self.labels, &other.labels),
            r => r,
        }
    }
}

} // verus!
