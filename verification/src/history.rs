//! The ring of recent scrapes.
use crate::graphs;
use crate::graphs::{scan_entries, Graphs, GraphsView};
use crate::key::KeyView;
use crate::keymap;
use crate::metrics::{Sample, SampleView};
use crate::num;
use crate::num::{num, Calc, Model, Num, ZERO};
use crate::quantile;
use crate::quantile::{count_observed, merge};
use crate::rate;
use crate::rate::interval_delta;
use crate::select::{Choice, Selector};
use vstd::prelude::*;

pub use crate::quantile::quantile_from_buckets;
pub use crate::rate::counter_delta;

verus! {

/// One scrape and when it was taken, in nanoseconds of a monotonic clock.
#[derive(Debug)]
pub struct Entry {
    pub t: u64,
    pub sample: Sample,
}

#[verifier::ext_equal]
pub struct EntryView {
    pub t: u64,
    pub sample: SampleView,
}

impl View for Entry {
    type V = EntryView;

    open spec fn view(&self) -> EntryView {
        EntryView { t: self.t, sample: self.sample@ }
    }
}

/// Nanoseconds in a second.
pub const SECOND: u64 = 1_000_000_000;

/// The windows that figures are computed over, in nanoseconds.
pub const WINDOWS: [u64; 3] = [5_000_000_000, 15_000_000_000, 60_000_000_000];

/// Scrapes, oldest first.
#[derive(Debug)]
pub struct History {
    pub entries: Vec<Entry>,
    /// When the first scrape came in.
    pub first_seen: Option<u64>,
    /// The graphs of the longest window, rebuilt with every scrape.
    pub graphs: Option<Graphs>,
}

#[verifier::ext_equal]
pub struct HistoryView {
    pub entries: Seq<EntryView>,
    pub first_seen: Option<u64>,
    pub graphs: Option<GraphsView>,
}

impl View for History {
    type V = HistoryView;

    open spec fn view(&self) -> HistoryView {
        HistoryView {
            entries: graphs::entries_view(self.entries@),
            first_seen: self.first_seen,
            graphs: match self.graphs {
                Some(g) => Some(g@),
                None => None,
            },
        }
    }
}

/// Position of the first entry that is at most `w` old at the time `now`.
pub open spec fn window_start(e: Seq<EntryView>, now: u64, w: u64) -> int
    decreases e.len(),
{
    if e.len() == 0 || graphs::elapsed(e[0].t, now) <= w {
        0
    } else {
        1 + window_start(e.drop_first(), now, w)
    }
}

/// The trailing window: the entries from the first one that is at most `w`
/// older than the last.
pub open spec fn window(e: Seq<EntryView>, w: u64) -> Seq<EntryView> {
    if e.len() == 0 {
        e
    } else {
        e.skip(window_start(e, e.last().t, w))
    }
}

/// The entries that are kept: those of the longest window, and the last two.
pub open spec fn kept(e: Seq<EntryView>) -> Seq<EntryView> {
    if e.len() <= 2 {
        e
    } else {
        let n = window_start(e, e.last().t, WINDOWS@[2]);
        if n <= e.len() - 2 {
            e.skip(n)
        } else {
            e.skip(e.len() - 2)
        }
    }
}

/// The selected readings of a sample, in key order.
pub open spec fn selected(c: Choice, s: Seq<(KeyView, Num)>) -> Seq<Num>
    decreases s.len(),
{
    if s.len() == 0 {
        seq![]
    } else if c.takes(s.last().0) {
        selected(c, s.drop_last()).push(s.last().1)
    } else {
        selected(c, s.drop_last())
    }
}

/// How far the selected counters moved over consecutive entries.
pub open spec fn moved_over(m: Model, c: Choice, e: Seq<EntryView>) -> Num
    decreases e.len(),
{
    if e.len() < 2 {
        num(ZERO)
    } else {
        m(
            Calc::Sum(
                moved_over(m, c, e.drop_last()),
                rate::moved(
                    m,
                    c,
                    e[e.len() - 2].sample.simple,
                    e[e.len() - 1].sample.simple,
                ),
            ),
        )
    }
}

/// Fewest new observations that a window quantile is computed from.
pub const SPARSE: u64 = 5;

impl HistoryView {
    /// Every scrape is sound, and the graphs, once there, are those of a window.
    pub open spec fn wf(self) -> bool {
        &&& forall|i: int|
            0 <= i < self.entries.len() ==> (#[trigger] self.entries[i]).sample.wf()
        &&& self.entries.len() > 0 <==> self.graphs is Some
        &&& self.graphs matches Some(g) ==> g.parallel()
    }

    /// The history after one more scrape.
    pub open spec fn after(self, m: Model, t: u64, sample: SampleView) -> HistoryView {
        let e = kept(self.entries.push(EntryView { t, sample }));
        HistoryView {
            entries: e,
            first_seen: match self.first_seen {
                Some(f) => Some(f),
                None => Some(t),
            },
            graphs: Some(graphs::graphs_of(m, window(e, WINDOWS@[2]))),
        }
    }

    pub open spec fn window(self, w: u64) -> Seq<EntryView> {
        window(self.entries, w)
    }

    /// The reading of the newest scrape: that of the first selected series.
    pub open spec fn gauge(self, c: Choice) -> Option<Num> {
        if self.entries.len() == 0 {
            None
        } else {
            c.first_of(self.entries.last().sample.simple)
        }
    }

    /// The selected readings of the newest scrape, added up.
    pub open spec fn gauge_sum(self, m: Model, c: Choice) -> Option<Num> {
        if self.entries.len() == 0 || !c.in_sample(self.entries.last().sample.simple) {
            None
        } else {
            Some(num::sum_of(m, selected(c, self.entries.last().sample.simple)))
        }
    }

    /// How fast the selected counters moved over a window, per second. `None`
    /// where the window spans no time, or carries none of the series.
    pub open spec fn rate(self, m: Model, c: Choice, w: u64) -> Option<Num> {
        let e = self.window(w);
        if self.rated(c, w) {
            let span = graphs::elapsed(e[0].t, e.last().t);
            Some(m(Calc::Quotient(moved_over(m, c, e), m(Calc::Seconds(span)))))
        } else {
            None
        }
    }

    /// Whether a window spans time and carries one of the series.
    pub open spec fn rated(self, c: Choice, w: u64) -> bool {
        let e = self.window(w);
        &&& e.len() >= 2
        &&& e[0].t < e.last().t
        &&& exists|i: int| 0 <= i < e.len() && c.in_sample((#[trigger] e[i]).sample.simple)
    }

    /// A quantile of everything that the newest scrape's histograms counted.
    pub open spec fn snapshot_quantile(self, m: Model, c: Choice, q: Num) -> Option<Num> {
        if self.entries.len() == 0 {
            None
        } else {
            quantile::quantile_of(
                m,
                quantile::merged(m, c, self.entries.last().sample.hist, None),
                q,
            )
        }
    }

    /// Whether a window has too few new observations for a quantile.
    pub open spec fn sparse(self, c: Choice, w: u64) -> bool {
        let e = self.window(w);
        e.len() < 2 || quantile::observed(c, e.last().sample.hist, e[0].sample.hist) < SPARSE
    }

    /// A quantile of what a window's histograms counted; of everything where
    /// the window is sparse.
    pub open spec fn quantile(self, m: Model, c: Choice, q: Num, w: u64) -> Option<Num> {
        let e = self.window(w);
        if self.sparse(c, w) {
            self.snapshot_quantile(m, c, q)
        } else {
            quantile::quantile_of(
                m,
                quantile::merged(m, c, e.last().sample.hist, Some(e[0].sample.hist)),
                q,
            )
        }
    }
}

pub proof fn lemma_window_start(e: Seq<EntryView>, now: u64, w: u64)
    ensures
        0 <= window_start(e, now, w) <= e.len(),
        forall|i: int|
            0 <= i < window_start(e, now, w) ==> graphs::elapsed((#[trigger] e[i]).t, now) > w,
        window_start(e, now, w) < e.len() ==> graphs::elapsed(
            e[window_start(e, now, w)].t,
            now,
        ) <= w,
    decreases e.len(),
{
    if e.len() > 0 && graphs::elapsed(e[0].t, now) > w {
        lemma_window_start(e.drop_first(), now, w);
        assert forall|i: int| 0 <= i < window_start(e, now, w) implies graphs::elapsed(
            (#[trigger] e[i]).t,
            now,
        ) > w by {
            if i > 0 {
                assert(e.drop_first()[i - 1] == e[i]);
            }
        }
    }
}

/// A window of a history that has entries ends with its newest entry.
pub proof fn law_window_holds_the_newest(e: Seq<EntryView>, w: u64)
    requires
        e.len() > 0,
    ensures
        window(e, w).len() > 0,
        window(e, w).last() == e.last(),
{
    lemma_window_start(e, e.last().t, w);
    let n = window_start(e, e.last().t, w);
    if n == e.len() {
        assert(graphs::elapsed(e[e.len() - 1].t, e.last().t) > w);
    }
}

/// What a longer window holds, a shorter one holds the end of.
pub proof fn law_longer_windows_hold_more(e: Seq<EntryView>, short: u64, long: u64)
    requires
        short <= long,
    ensures
        window(e, short).is_suffix_of(window(e, long)),
{
    if e.len() > 0 {
        let now = e.last().t;
        lemma_window_start(e, now, short);
        lemma_window_start(e, now, long);
        let (a, b) = (window_start(e, now, short), window_start(e, now, long));
        if a < b {
            assert(graphs::elapsed(e[a].t, now) > long);
        }
        let l = window(e, long);
        assert(window(e, short) =~= l.subrange(l.len() - window(e, short).len(), l.len() as int));
    } else {
        assert(e =~= e.subrange(0, 0));
    }
}

/// Dropping old entries changes no window.
pub proof fn law_windows_survive_dropping(e: Seq<EntryView>, w: u64)
    requires
        w <= WINDOWS@[2],
    ensures
        window(kept(e), w) == window(e, w),
{
    if e.len() > 2 {
        let now = e.last().t;
        let long = window_start(e, now, WINDOWS@[2]);
        lemma_window_start(e, now, WINDOWS@[2]);
        lemma_window_start(e, now, w);
        let n = if long <= e.len() - 2 {
            long
        } else {
            e.len() - 2
        };
        let k = kept(e);
        assert(k == e.skip(n));
        let a = window_start(e, now, w);
        if a < long {
            assert(graphs::elapsed(e[a].t, now) > WINDOWS@[2]);
        }
        lemma_window_start(k, now, w);
        let b = window_start(k, now, w);
        if b + n < a {
            assert(e[b + n] == k[b]);
            assert(graphs::elapsed(e[b + n].t, now) > w);
        }
        if a < b + n {
            assert(k[a - n] == e[a]);
        }
        assert(k.skip(b) =~= e.skip(a));
    }
}

/// A window with few new observations falls back to everything that the newest
/// scrape counted.
pub proof fn law_sparse_window_falls_back(m: Model, h: HistoryView, c: Choice, q: Num, w: u64)
    requires
        h.sparse(c, w),
    ensures
        h.quantile(m, c, q, w) == h.snapshot_quantile(m, c, q),
{
}

/// Counters that no two consecutive scrapes share move nothing, however they
/// jump from one to the next.
pub proof fn law_gaps_move_nothing(m: Model, c: Choice, e: Seq<EntryView>)
    requires
        m(Calc::Sum(num(ZERO), num(ZERO))) == num(ZERO),
        forall|i: int|
            0 < i < e.len() ==> unpaired(c, e[i - 1].sample.simple, (#[trigger] e[i]).sample.simple),
    ensures
        moved_over(m, c, e) == num(ZERO),
    decreases e.len(),
{
    if e.len() >= 2 {
        let t = e.drop_last();
        assert forall|i: int| 0 < i < t.len() implies unpaired(
            c,
            t[i - 1].sample.simple,
            (#[trigger] t[i]).sample.simple,
        ) by {
            assert(t[i] == e[i]);
        }
        law_gaps_move_nothing(m, c, t);
        let last = e[e.len() - 1];
        assert(unpaired(c, e[e.len() - 2].sample.simple, last.sample.simple));
        rate::law_new_series_move_nothing(
            m,
            c,
            e[e.len() - 2].sample.simple,
            last.sample.simple,
        );
    }
}

/// Whether the earlier scrape carries none of the selected series of the later.
pub open spec fn unpaired(c: Choice, old: Seq<(KeyView, Num)>, new: Seq<(KeyView, Num)>) -> bool {
    forall|i: int|
        0 <= i < new.len() && c.takes((#[trigger] new[i]).0) ==> keymap::lookup(old, new[i].0)
            is None
}

/// A scrape that comes in is the newest entry, and the time of the first one
/// stays.
pub proof fn law_push_appends(m: Model, h: HistoryView, t: u64, sample: SampleView)
    ensures
        h.after(m, t, sample).entries.len() > 0,
        h.after(m, t, sample).entries.last() == (EntryView { t, sample }),
        h.after(m, t, sample).entries.is_suffix_of(h.entries.push(EntryView { t, sample })),
        h.first_seen is Some ==> h.after(m, t, sample).first_seen == h.first_seen,
        h.first_seen is None ==> h.after(m, t, sample).first_seen == Some(t),
        h.entries.len() > 0 ==> h.after(m, t, sample).entries.len() >= 2,
{
    let e = h.entries.push(EntryView { t, sample });
    lemma_window_start(e, e.last().t, WINDOWS@[2]);
    let k = kept(e);
    assert(k =~= e.subrange(e.len() - k.len(), e.len() as int));
}

impl History {
    pub open spec fn wf(&self) -> bool {
        self@.wf()
    }

    pub fn new() -> (r: History)
        ensures
            r.wf(),
            r@ == (HistoryView { entries: seq![], first_seen: None, graphs: None }),
    {
        let r = History { entries: Vec::new(), first_seen: None, graphs: None };
        proof {
            assert(r@.entries =~= seq![]);
        }
        r
    }

    pub fn len(&self) -> (r: usize)
        ensures
            r == self@.entries.len(),
    {
        self.entries.len()
    }

    fn find_start(&self, w: u64) -> (r: usize)
        requires
            self@.entries.len() > 0,
        ensures
            r == window_start(self@.entries, self@.entries.last().t, w),
            r <= self@.entries.len(),
    {
        let now: u64 = self.entries[self.entries.len() - 1].t;
        let mut i: usize = 0;
        proof {
            assert(self@.entries.skip(0) =~= self@.entries);
        }
        while i < self.entries.len() && self.entries[i].t < now && now - self.entries[i].t > w
            invariant
                i <= self.entries.len(),
                window_start(self@.entries, now, w) == i + window_start(
                    self@.entries.skip(i as int),
                    now,
                    w,
                ),
            decreases self.entries.len() - i,
        {
            proof {
                assert(self@.entries.skip(i as int).drop_first() =~= self@.entries.skip(i + 1));
            }
            i = i + 1;
        }
        i
    }

    /// The entries of the trailing window.
    pub fn window_entries(&self, w: u64) -> (r: &[Entry])
        ensures
            graphs::entries_view(r@) == self@.window(w),
            forall|i: int| 0 <= i < r@.len() ==> self.entries@.contains(#[trigger] r@[i]),
    {
        if self.entries.len() == 0 {
            let r = self.entries.as_slice();
            proof {
                assert(graphs::entries_view(r@) =~= self@.window(w));
            }
            return r;
        }
        let n = self.find_start(w);
        let r = vstd::slice::slice_subrange(self.entries.as_slice(), n, self.entries.len());
        proof {
            assert(graphs::entries_view(r@) =~= self@.window(w));
            assert forall|i: int| 0 <= i < r@.len() implies self.entries@.contains(
                #[trigger] r@[i],
            ) by {
                assert(r@[i] == self.entries@[n + i]);
            }
        }
        r
    }

    /// Takes in a scrape: drops what no window reaches any more, and rebuilds
    /// the graphs.
    pub fn push<C: Fn(Calc) -> Num + Copy>(&mut self, t: u64, sample: Sample, calc: C)
        requires
            num::total(calc),
            old(self).wf(),
            sample.wf(),
        ensures
            final(self).wf(),
            forall|m: Model| #[trigger]
                num::models(calc, m) ==> final(self)@ == old(self)@.after(m, t, sample@),
    {
        let ghost before = self@;
        let ghost added = EntryView { t, sample: sample@ };
        self.entries.push(Entry { t, sample });
        let ghost full = before.entries.push(added);
        proof {
            assert(self@.entries =~= full);
        }
        if self.entries.len() > 2 {
            let n = self.find_start(WINDOWS[2]);
            let drop: usize = if n <= self.entries.len() - 2 {
                n
            } else {
                self.entries.len() - 2
            };
            let mut i: usize = 0;
            proof {
                assert(full.skip(0) =~= full);
            }
            while i < drop
                invariant
                    i <= drop,
                    drop + 2 <= full.len(),
                    self@.entries == full.skip(i as int),
                    self.entries.len() + i == full.len(),
                    self.first_seen == before.first_seen,
                decreases drop - i,
            {
                let ghost e = self.entries@;
                self.entries.remove(0);
                i = i + 1;
                proof {
                    assert(self@.entries =~= graphs::entries_view(e).drop_first());
                    assert(full.skip(i - 1).drop_first() =~= full.skip(i as int));
                }
            }
        }
        proof {
            assert(self@.entries == kept(full));
            assert forall|i: int| 0 <= i < self@.entries.len() implies (
            #[trigger] self@.entries[i]).sample.wf() by {
                let k = full.len() - self@.entries.len();
                assert(self@.entries[i] == full[i + k]);
                if i + k < before.entries.len() {
                    assert(full[i + k] == before.entries[i + k]);
                }
            }
        }
        if self.first_seen.is_none() {
            self.first_seen = Some(t);
        }
        let e = self.window_entries(WINDOWS[2]);
        proof {
            assert forall|i: int| 0 <= i < e@.len() implies (#[trigger] e@[i]).sample.wf() by {
                let k = choose|k: int| 0 <= k < self.entries@.len() && self.entries@[k] == e@[i];
                assert(self@.entries[k].sample.wf());
            }
        }
        let g = scan_entries(e, calc);
        self.graphs = Some(g);
    }

    /// The newest entry.
    pub fn last(&self) -> (r: Option<&Entry>)
        ensures
            match r {
                Some(e) => self@.entries.len() > 0 && e@ == self@.entries.last() && e
                    == self.entries@.last(),
                None => self@.entries.len() == 0,
            },
    {
        if self.entries.len() == 0 {
            None
        } else {
            Some(&self.entries[self.entries.len() - 1])
        }
    }

    /// The entry at a position, oldest first.
    pub fn get(&self, i: usize) -> (r: Option<&Entry>)
        ensures
            match r {
                Some(e) => i < self@.entries.len() && e@ == self@.entries[i as int] && e
                    == self.entries@[i as int],
                None => i >= self@.entries.len(),
            },
    {
        if i < self.entries.len() {
            Some(&self.entries[i])
        } else {
            None
        }
    }

    /// The graphs of the longest window, as of the newest scrape.
    pub fn scan(&self) -> (r: Option<&Graphs>)
        ensures
            match r {
                Some(g) => self@.graphs == Some(g@),
                None => self@.graphs is None,
            },
    {
        match &self.graphs {
            Some(g) => Some(g),
            None => None,
        }
    }

    /// The reading of the newest scrape: that of the first selected series.
    pub fn gauge_pred(&self, sel: Selector) -> (r: Option<Num>)
        ensures
            r == self@.gauge(sel@),
    {
        match self.last() {
            Some(e) => sel.first_in(&e.sample),
            None => None,
        }
    }

    /// The selected readings of the newest scrape, added up.
    pub fn sum_gauge<C: Fn(Calc) -> Num + Copy>(&self, sel: Selector, calc: C) -> (r: Option<Num>)
        requires
            num::total(calc),
        ensures
            forall|m: Model| #[trigger] num::models(calc, m) ==> r == self@.gauge_sum(m, sel@),
            r is None <==> self@.entries.len() == 0 || !sel@.in_sample(
                self@.entries.last().sample.simple,
            ),
    {
        match self.last() {
            Some(e) => {
                if !sel.is_in(&e.sample) {
                    return None;
                }
                let s = &e.sample.simple;
                let mut total = num(ZERO);
                let mut i: usize = 0;
                while i < s.entries.len()
                    invariant
                        i <= s.entries.len(),
                        num::total(calc),
                        forall|m: Model| #[trigger]
                            num::models(calc, m) ==> total == num::sum_of(
                                m,
                                selected(sel@, s@.take(i as int)),
                            ),
                    decreases s.entries.len() - i,
                {
                    proof {
                        assert(s@.take(i + 1).drop_last() =~= s@.take(i as int));
                        assert(s@.take(i + 1).last() == s@[i as int]);
                        let v = selected(sel@, s@.take(i as int));
                        assert(v.push(s@[i as int].1).drop_last() =~= v);
                    }
                    if sel.accepts(&s.entries[i].0) {
                        total = calc(Calc::Sum(total, s.entries[i].1));
                    }
                    i = i + 1;
                }
                proof {
                    assert(s@.take(s@.len() as int) =~= s@);
                }
                Some(total)
            },
            None => None,
        }
    }

    /// How fast the selected counters moved over a window, per second.
    pub fn rate_sum<C: Fn(Calc) -> Num + Copy>(&self, sel: Selector, w: u64, calc: C) -> (r: Option<
        Num,
    >)
        requires
            num::total(calc),
            self.wf(),
        ensures
            forall|m: Model| #[trigger] num::models(calc, m) ==> r == self@.rate(m, sel@, w),
            r is None <==> !self@.rated(sel@, w),
    {
        let e = self.window_entries(w);
        let ghost all = graphs::entries_view(e@);
        proof {
            assert forall|i: int| 0 <= i < e@.len() implies (#[trigger] e@[i]).sample.wf() by {
                let k = choose|k: int| 0 <= k < self.entries@.len() && self.entries@[k] == e@[i];
                assert(self@.entries[k].sample.wf());
            }
        }
        if e.len() < 2 {
            return None;
        }
        let (first, last) = (e[0].t, e[e.len() - 1].t);
        if first >= last {
            return None;
        }
        let mut carried = sel.is_in(&e[0].sample);
        proof {
            assert(all[0] == e@[0]@);
        }
        let mut total = num(ZERO);
        let mut i: usize = 1;
        while i < e.len()
            invariant
                1 <= i <= e.len(),
                num::total(calc),
                all == graphs::entries_view(e@),
                forall|j: int| 0 <= j < e@.len() ==> (#[trigger] e@[j]).sample.wf(),
                carried ==> exists|j: int|
                    0 <= j < all.len() && sel@.in_sample((#[trigger] all[j]).sample.simple),
                !carried ==> forall|j: int|
                    0 <= j < i ==> !sel@.in_sample((#[trigger] all[j]).sample.simple),
                forall|m: Model| #[trigger]
                    num::models(calc, m) ==> total == moved_over(m, sel@, all.take(i as int)),
            decreases e.len() - i,
        {
            proof {
                assert(all.take(i + 1).drop_last() =~= all.take(i as int));
                assert(all[i as int] == e@[i as int]@);
            }
            let d = interval_delta(&e[i - 1].sample, &e[i].sample, sel, calc);
            total = calc(Calc::Sum(total, d));
            carried = carried || sel.is_in(&e[i].sample);
            i = i + 1;
        }
        proof {
            assert(all.take(all.len() as int) =~= all);
        }
        if !carried {
            return None;
        }
        let span = calc(Calc::Seconds(last - first));
        Some(calc(Calc::Quotient(total, span)))
    }

    /// A quantile of everything that the newest scrape's histograms counted.
    pub fn hist_snapshot_quantile<C: Fn(Calc) -> Num + Copy>(
        &self,
        sel: Selector,
        q: Num,
        calc: C,
    ) -> (r: Option<Num>)
        requires
            num::total(calc),
        ensures
            forall|m: Model| #[trigger]
                num::models(calc, m) ==> r == self@.snapshot_quantile(m, sel@, q),
    {
        match self.last() {
            Some(e) => {
                let b = merge(&e.sample, None, sel, calc);
                quantile_from_buckets(b.as_slice(), q, calc)
            },
            None => None,
        }
    }

    /// Whether a window has too few new observations for a quantile, so that
    /// everything that was counted stands in for it.
    pub fn is_sparse(&self, sel: Selector, w: u64) -> (r: bool)
        requires
            self.wf(),
        ensures
            r == self@.sparse(sel@, w),
    {
        let e = self.window_entries(w);
        if e.len() < 2 {
            return true;
        }
        let (first, last) = (&e[0].sample, &e[e.len() - 1].sample);
        proof {
            let k = choose|k: int| 0 <= k < self.entries@.len() && self.entries@[k] == e@[0];
            assert(self@.entries[k].sample.wf());
            assert(self@.window(w)[0] == e@[0]@);
            assert(self@.window(w).last() == e@[e@.len() - 1]@);
        }
        count_observed(last, first, sel) < SPARSE
    }

    /// A quantile of what a window's histograms counted; of everything where
    /// the window is sparse.
    pub fn hist_quantile<C: Fn(Calc) -> Num + Copy>(
        &self,
        sel: Selector,
        q: Num,
        w: u64,
        calc: C,
    ) -> (r: Option<Num>)
        requires
            num::total(calc),
            self.wf(),
        ensures
            forall|m: Model| #[trigger] num::models(calc, m) ==> r == self@.quantile(m, sel@, q, w),
    {
        if self.is_sparse(sel, w) {
            return self.hist_snapshot_quantile(sel, q, calc);
        }
        let e = self.window_entries(w);
        let (first, last) = (&e[0].sample, &e[e.len() - 1].sample);
        proof {
            assert(self@.window(w)[0] == e@[0]@);
            assert(self@.window(w).last() == e@[e@.len() - 1]@);
            let k = choose|k: int| 0 <= k < self.entries@.len() && self.entries@[k] == e@[0];
            assert(self@.entries[k].sample.wf());
        }
        let b = merge(last, Some(first), sel, calc);
        quantile_from_buckets(b.as_slice(), q, calc)
    }
}

impl Default for History {
    fn default() -> (r: History)
        ensures
            r.wf(),
            r@ == (HistoryView { entries: seq![], first_seen: None, graphs: None }),
    {
        History::new()
    }
}

} // verus!
