//! Quantiles from cumulative histogram buckets.
use crate::keymap;
use crate::key::KeyView;
use crate::metrics::{HistSeries, HistView, Sample};
use crate::metrics;
use crate::num;
use crate::num::{num, Calc, Model, Num, ZERO};
use crate::rate;
use crate::rate::counter_delta;
use crate::select::{Choice, Selector};
use vstd::prelude::*;

verus! {

/// The first bucket whose cumulative count reaches the rank; the last one
/// where none does.
pub open spec fn reaching(b: Seq<(Num, Num)>, rank: Num) -> int
    decreases b.len(),
{
    if b.len() <= 1 || rank.at_most(b[0].1) {
        0
    } else {
        1 + reaching(b.drop_first(), rank)
    }
}

/// A quantile by linear interpolation inside the bucket that holds its rank.
/// Observations behind the last finite bound are taken to lie on it. `None`
/// where nothing was observed.
pub open spec fn quantile_of(m: Model, b: Seq<(Num, Num)>, q: Num) -> Option<Num> {
    if b.len() == 0 || !b.last().1.positive() {
        None
    } else {
        let rank = m(Calc::Product(q, b.last().1));
        let i = reaching(b, rank);
        let (hi, count) = b[i];
        let (lo, before) = if i == 0 {
            (num(ZERO), num(ZERO))
        } else {
            b[i - 1]
        };
        let inside = m(Calc::Difference(count, before));
        if !hi.finite() {
            if i == 0 {
                None
            } else {
                Some(lo)
            }
        } else if !inside.positive() {
            Some(hi)
        } else {
            let share = m(Calc::Quotient(m(Calc::Difference(rank, before)), inside));
            Some(m(Calc::Sum(lo, m(Calc::Product(m(Calc::Difference(hi, lo)), share)))))
        }
    }
}

fn find_reaching(b: &[(Num, Num)], rank: Num) -> (r: usize)
    requires
        b@.len() > 0,
    ensures
        r == reaching(b@, rank),
        r < b@.len(),
{
    let mut i: usize = 0;
    proof {
        assert(b@.skip(0) =~= b@);
    }
    while i + 1 < b.len() && !rank.is_at_most(b[i].1)
        invariant
            i < b.len(),
            reaching(b@, rank) == i + reaching(b@.skip(i as int), rank),
        decreases b.len() - i,
    {
        proof {
            assert(b@.skip(i as int).drop_first() =~= b@.skip(i + 1));
        }
        i = i + 1;
    }
    i
}

/// The `q`-quantile of cumulative buckets `(bound, count)`.
pub fn quantile_from_buckets<C: Fn(Calc) -> Num + Copy>(b: &[(Num, Num)], q: Num, calc: C) -> (r:
    Option<Num>)
    requires
        num::total(calc),
    ensures
        forall|m: Model| #[trigger] num::models(calc, m) ==> r == quantile_of(m, b@, q),
{
    if b.len() == 0 || !b[b.len() - 1].1.is_positive() {
        return None;
    }
    let rank = calc(Calc::Product(q, b[b.len() - 1].1));
    let i = find_reaching(b, rank);
    let (hi, count) = b[i];
    let (lo, before) = if i == 0 {
        (num(ZERO), num(ZERO))
    } else {
        b[i - 1]
    };
    if !hi.is_finite() {
        return if i == 0 {
            None
        } else {
            Some(lo)
        };
    }
    let inside = calc(Calc::Difference(count, before));
    if !inside.is_positive() {
        return Some(hi);
    }
    let ahead = calc(Calc::Difference(rank, before));
    let share = calc(Calc::Quotient(ahead, inside));
    let width = calc(Calc::Difference(hi, lo));
    let offset = calc(Calc::Product(width, share));
    Some(calc(Calc::Sum(lo, offset)))
}

/// Position of the bucket with this bound, or the length.
pub open spec fn bound_at(b: Seq<(Num, Num)>, le: Num) -> int
    decreases b.len(),
{
    if b.len() == 0 || b[0].0 == le {
        0
    } else {
        1 + bound_at(b.drop_first(), le)
    }
}

/// Adds a count to the bucket with this bound; a new bound gets its place in
/// the ladder.
pub open spec fn add_count(m: Model, b: Seq<(Num, Num)>, le: Num, count: Num) -> Seq<(Num, Num)> {
    let i = bound_at(b, le);
    if i < b.len() {
        b.update(i, (le, m(Calc::Sum(b[i].1, count))))
    } else {
        metrics::insert_bucket(b, (le, count))
    }
}

/// Adds the first `n` buckets of a histogram, each by how far it moved since
/// `base`. Without a base, each by what it counts.
pub open spec fn add_hist(
    m: Model,
    b: Seq<(Num, Num)>,
    h: HistView,
    base: Option<HistView>,
    n: int,
) -> Seq<(Num, Num)>
    decreases n,
{
    if n <= 0 {
        b
    } else {
        let count = match base {
            Some(o) => rate::delta_of(m, count_at(o, h.le[n - 1]), h.counts[n - 1]),
            None => h.counts[n - 1],
        };
        add_count(m, add_hist(m, b, h, base, n - 1), h.le[n - 1], count)
    }
}

/// What a histogram counts up to this bound; nothing where it lacks the bound.
pub open spec fn count_at(h: HistView, le: Num) -> Num {
    let i = position(h.le, le);
    if i < h.le.len() && i < h.counts.len() {
        h.counts[i]
    } else {
        num(ZERO)
    }
}

pub open spec fn position(s: Seq<Num>, x: Num) -> int
    decreases s.len(),
{
    if s.len() == 0 || s[0] == x {
        0
    } else {
        1 + position(s.drop_first(), x)
    }
}

/// Number of parallel bounds and counts.
pub open spec fn rungs(h: HistView) -> int {
    if h.le.len() <= h.counts.len() {
        h.le.len() as int
    } else {
        h.counts.len() as int
    }
}

/// The buckets of all selected histograms, added up in key order. With
/// `since`, only what they counted since then, and only of those that were
/// there already.
pub open spec fn merged(
    m: Model,
    c: Choice,
    s: Seq<(KeyView, HistView)>,
    since: Option<Seq<(KeyView, HistView)>>,
) -> Seq<(Num, Num)>
    decreases s.len(),
{
    if s.len() == 0 {
        seq![]
    } else {
        let b = merged(m, c, s.drop_last(), since);
        let (k, h) = s.last();
        if !c.takes(k) {
            b
        } else {
            match since {
                None => add_hist(m, b, h, None, rungs(h)),
                Some(old) => match keymap::lookup(old, k) {
                    Some(o) => add_hist(m, b, h, Some(o), rungs(h)),
                    None => b,
                },
            }
        }
    }
}

/// Observations of the selected histograms since an earlier scrape, capped at
/// the largest count.
pub open spec fn observed(
    c: Choice,
    s: Seq<(KeyView, HistView)>,
    since: Seq<(KeyView, HistView)>,
) -> u64
    decreases s.len(),
{
    if s.len() == 0 {
        0
    } else {
        let n = observed(c, s.drop_last(), since);
        let (k, h) = s.last();
        match keymap::lookup(since, k) {
            Some(o) => if c.takes(k) {
                let d = if h.count < o.count {
                    h.count
                } else {
                    (h.count - o.count) as u64
                };
                if n + d > u64::MAX {
                    u64::MAX
                } else {
                    (n + d) as u64
                }
            } else {
                n
            },
            None => n,
        }
    }
}

fn find_bound_at(b: &Vec<(Num, Num)>, le: Num) -> (r: usize)
    ensures
        r == bound_at(b@, le),
        r <= b@.len(),
{
    let mut i: usize = 0;
    proof {
        assert(b@.skip(0) =~= b@);
    }
    while i < b.len() && b[i].0 != le
        invariant
            i <= b.len(),
            bound_at(b@, le) == i + bound_at(b@.skip(i as int), le),
        decreases b.len() - i,
    {
        proof {
            assert(b@.skip(i as int).drop_first() =~= b@.skip(i + 1));
        }
        i = i + 1;
    }
    i
}

fn find_count_at(h: &HistSeries, le: Num) -> (r: Num)
    ensures
        r == count_at(h@, le),
{
    let mut i: usize = 0;
    proof {
        assert(h.le@.skip(0) =~= h.le@);
    }
    while i < h.le.len() && h.le[i] != le
        invariant
            i <= h.le.len(),
            position(h.le@, le) == i + position(h.le@.skip(i as int), le),
        decreases h.le.len() - i,
    {
        proof {
            assert(h.le@.skip(i as int).drop_first() =~= h.le@.skip(i + 1));
        }
        i = i + 1;
    }
    if i < h.le.len() && i < h.counts.len() {
        h.counts[i]
    } else {
        num(ZERO)
    }
}

fn push_count<C: Fn(Calc) -> Num + Copy>(b: &mut Vec<(Num, Num)>, le: Num, count: Num, calc: C)
    requires
        num::total(calc),
    ensures
        forall|m: Model| #[trigger]
            num::models(calc, m) ==> final(b)@ == add_count(m, old(b)@, le, count),
{
    let i = find_bound_at(b, le);
    if i < b.len() {
        let sum = calc(Calc::Sum(b[i].1, count));
        b[i] = (le, sum);
    } else {
        let mut j: usize = b.len();
        while j > 0 && le.is_below(b[j - 1].0)
            invariant
                j <= b.len(),
                forall|k: int| j <= k < b.len() ==> le.below((#[trigger] b@[k]).0),
            decreases j,
        {
            j = j - 1;
        }
        proof {
            metrics::lemma_insert_bucket(b@, (le, count), j as int);
        }
        b.insert(j, (le, count));
    }
}

fn push_hist<C: Fn(Calc) -> Num + Copy>(
    b: &mut Vec<(Num, Num)>,
    h: &HistSeries,
    base: Option<&HistSeries>,
    calc: C,
)
    requires
        num::total(calc),
    ensures
        forall|m: Model| #[trigger]
            num::models(calc, m) ==> final(b)@ == add_hist(
                m,
                old(b)@,
                h@,
                match base {
                    Some(o) => Some(o@),
                    None => None,
                },
                rungs(h@),
            ),
{
    let ghost start = b@;
    let ghost from = match base {
        Some(o) => Some(o@),
        None => None,
    };
    let mut n: usize = 0;
    while n < h.le.len() && n < h.counts.len()
        invariant
            n <= rungs(h@),
            num::total(calc),
            from == (match base {
                Some(o) => Some(o@),
                None => None,
            }),
            forall|m: Model| #[trigger]
                num::models(calc, m) ==> b@ == add_hist(m, start, h@, from, n as int),
        decreases h.le.len() - n,
    {
        let count = match base {
            Some(o) => {
                let before = find_count_at(o, h.le[n]);
                counter_delta(before, h.counts[n], calc)
            },
            None => h.counts[n],
        };
        push_count(b, h.le[n], count, calc);
        n = n + 1;
    }
}

/// The buckets of all selected histograms of a scrape, or how far they moved
/// since an earlier one.
pub fn merge<C: Fn(Calc) -> Num + Copy>(
    s: &Sample,
    since: Option<&Sample>,
    sel: Selector,
    calc: C,
) -> (r: Vec<(Num, Num)>)
    requires
        num::total(calc),
        since matches Some(o) ==> o.wf(),
    ensures
        forall|m: Model| #[trigger]
            num::models(calc, m) ==> r@ == merged(
                m,
                sel@,
                s@.hist,
                match since {
                    Some(o) => Some(o@.hist),
                    None => None,
                },
            ),
{
    let ghost from = match since {
        Some(o) => Some(o@.hist),
        None => None,
    };
    let mut b: Vec<(Num, Num)> = Vec::new();
    let mut i: usize = 0;
    while i < s.hist.entries.len()
        invariant
            i <= s.hist.entries.len(),
            num::total(calc),
            since matches Some(o) ==> o.wf(),
            from == (match since {
                Some(o) => Some(o@.hist),
                None => None,
            }),
            forall|m: Model| #[trigger]
                num::models(calc, m) ==> b@ == merged(m, sel@, s@.hist.take(i as int), from),
        decreases s.hist.entries.len() - i,
    {
        proof {
            assert(s@.hist.take(i + 1).drop_last() =~= s@.hist.take(i as int));
            assert(s@.hist.take(i + 1).last() == s@.hist[i as int]);
        }
        if sel.accepts(&s.hist.entries[i].0) {
            match since {
                None => {
                    push_hist(&mut b, &s.hist.entries[i].1, None, calc);
                },
                Some(old) => {
                    if let Some(o) = old.hist.get(&s.hist.entries[i].0) {
                        push_hist(&mut b, &s.hist.entries[i].1, Some(o), calc);
                    }
                },
            }
        }
        i = i + 1;
    }
    proof {
        assert(s@.hist.take(s@.hist.len() as int) =~= s@.hist);
    }
    b
}

/// Observations of the selected histograms since an earlier scrape.
pub fn count_observed(s: &Sample, since: &Sample, sel: Selector) -> (r: u64)
    requires
        since.wf(),
    ensures
        r == observed(sel@, s@.hist, since@.hist),
{
    let mut n: u64 = 0;
    let mut i: usize = 0;
    while i < s.hist.entries.len()
        invariant
            i <= s.hist.entries.len(),
            since.wf(),
            n == observed(sel@, s@.hist.take(i as int), since@.hist),
        decreases s.hist.entries.len() - i,
    {
        proof {
            assert(s@.hist.take(i + 1).drop_last() =~= s@.hist.take(i as int));
            assert(s@.hist.take(i + 1).last() == s@.hist[i as int]);
        }
        if sel.accepts(&s.hist.entries[i].0) {
            if let Some(o) = since.hist.get(&s.hist.entries[i].0) {
                let count = s.hist.entries[i].1.count;
                let d: u64 = if count < o.count {
                    count
                } else {
                    count - o.count
                };
                n = n.saturating_add(d);
            }
        }
        i = i + 1;
    }
    proof {
        assert(s@.hist.take(s@.hist.len() as int) =~= s@.hist);
    }
    n
}

/// There is no quantile of nothing: neither of no bucket, nor of a ladder whose
/// last bucket counted nothing.
pub proof fn law_no_quantile_of_nothing(m: Model, b: Seq<(Num, Num)>, q: Num)
    requires
        b.len() == 0 || !b.last().1.positive(),
    ensures
        quantile_of(m, b, q) is None,
{
}

/// The bucket that holds a rank is the first whose count reaches it: every
/// earlier one counted less.
pub proof fn law_rank_falls_into_its_bucket(b: Seq<(Num, Num)>, rank: Num, i: int)
    requires
        b.len() > 0,
    ensures
        0 <= reaching(b, rank) < b.len(),
        0 <= i < reaching(b, rank) ==> !rank.at_most(b[i].1),
        reaching(b, rank) < b.len() - 1 ==> rank.at_most(b[reaching(b, rank)].1),
    decreases b.len(),
{
    if b.len() > 1 && !rank.at_most(b[0].1) {
        law_rank_falls_into_its_bucket(b.drop_first(), rank, i - 1);
    }
}

/// Parts of a whole are exact: `c` times `x` of `y` is `z` of the first grid
/// where `z` of `y` are `c` times `x`.
pub open spec fn proportional(
    m: Model,
    unit: spec_fn(int) -> Num,
    count: spec_fn(int) -> Num,
    limit: int,
) -> bool {
    forall|c: int, x: int, y: int, z: int|
        #![trigger m(Calc::Product(unit(c), m(Calc::Quotient(count(x), count(y))))), unit(z)]
        -limit <= c <= limit && 0 <= x <= y <= limit && 0 < y && c * x == y * z ==> m(
            Calc::Product(unit(c), m(Calc::Quotient(count(x), count(y)))),
        ) == unit(z)
}

/// The bucket that the rank falls into, between its bounds and its counts.
pub struct Rung {
    /// Its place in the ladder.
    pub i: int,
    pub lo: int,
    pub hi: int,
    /// What is counted below it, and up to its bound.
    pub before: int,
    pub here: int,
    /// The rank, and where it ends up between the bounds.
    pub rank: int,
    pub at: int,
}

impl Rung {
    pub open spec fn holds(
        self,
        b: Seq<(Num, Num)>,
        unit: spec_fn(int) -> Num,
        count: spec_fn(int) -> Num,
        limit: int,
    ) -> bool {
        &&& 0 <= self.i < b.len()
        &&& 0 <= self.lo <= self.at <= self.hi <= limit
        &&& 0 <= self.before < self.rank <= self.here <= limit
        &&& b[self.i] == (unit(self.hi), count(self.here))
        &&& self.i > 0 ==> b[self.i - 1] == (unit(self.lo), count(self.before))
        &&& self.i == 0 ==> self.lo == 0 && self.before == 0
        &&& unit(self.hi).finite()
        &&& forall|j: int|
            0 <= j < self.i ==> !count(self.rank).at_most((#[trigger] b[j]).1)
        &&& (self.at - self.lo) * (self.here - self.before) == (self.hi - self.lo) * (self.rank
            - self.before)
    }
}

/// A quantile divides its bucket as its rank divides the counts: it lies above
/// the lower bound by the same part of the bucket's width as the rank lies above
/// what is counted below, of what the bucket counts.
pub proof fn law_quantile_divides_its_bucket(
    m: Model,
    unit: spec_fn(int) -> Num,
    count: spec_fn(int) -> Num,
    limit: int,
    b: Seq<(Num, Num)>,
    q: Num,
    r: Rung,
)
    requires
        crate::derive::exact(m, unit, limit),
        crate::derive::exact(m, count, limit),
        proportional(m, unit, count, limit),
        r.holds(b, unit, count, limit),
        b.last().1.positive(),
        m(Calc::Product(q, b.last().1)) == count(r.rank),
    ensures
        quantile_of(m, b, q) == Some(unit(r.at)),
{
    let rank = count(r.rank);
    assert(rank.at_most(count(r.here)));
    law_rank_falls_into_its_bucket(b, rank, r.i);
    let i = reaching(b, rank);
    if i < r.i {
        assert(!rank.at_most(b[i].1));
    }
    assert(i == r.i);
    let inside = r.here - r.before;
    let ahead = r.rank - r.before;
    let wide = r.hi - r.lo;
    let step = r.at - r.lo;
    assert(m(Calc::Difference(count(r.here), count(r.before))) == count(inside));
    assert(m(Calc::Difference(count(r.rank), count(r.before))) == count(ahead));
    assert(m(Calc::Difference(unit(r.hi), unit(r.lo))) == unit(wide));
    assert(count(0).at_most(count(inside)) && !count(inside).at_most(count(0)));
    assert(count(inside).positive());
    assert(wide * ahead == inside * step) by (nonlinear_arith)
        requires
            step * inside == wide * ahead,
    ;
    assert(m(Calc::Product(unit(wide), m(Calc::Quotient(count(ahead), count(inside))))) == unit(
        step,
    ));
    assert(m(Calc::Sum(unit(r.lo), unit(step))) == unit(r.lo + step));
}

/// A rank behind the last finite bound is taken to lie on that bound.
pub proof fn law_quantile_stays_below_infinity(m: Model, b: Seq<(Num, Num)>, q: Num, i: int)
    requires
        0 < i < b.len(),
        b.last().1.positive(),
        !b[i].0.finite(),
        i == b.len() - 1,
        forall|j: int| 0 <= j < i ==> !m(Calc::Product(q, b.last().1)).at_most((#[trigger] b[j]).1),
    ensures
        quantile_of(m, b, q) == Some(b[i - 1].0),
{
    let rank = m(Calc::Product(q, b.last().1));
    law_rank_falls_into_its_bucket(b, rank, i);
    let k = reaching(b, rank);
    if k < i {
        assert(!rank.at_most(b[k].1));
    }
}

} // verus!
