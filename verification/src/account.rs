//! What the figures say of the scrapes that they are made from.
//!
//! The laws here speak of readings, counters and times as they came in. Where
//! arithmetic matters they are stated for arithmetic that is exact on a grid of
//! steps ([`Grid`]): counters that count whole things are on such a grid.
use crate::derive::{Peaks, PoolView, Quantiles};
use crate::graphs;
use crate::history;
use crate::history::{EntryView, HistoryView};
use crate::key;
use crate::key::KeyView;
use crate::keymap;
use crate::metrics;
use crate::metrics::{HistView, SampleView};
use crate::num::{num, Calc, Model, Num, ZERO};
use crate::quantile;
use crate::rate;
use crate::select::Choice;
use vstd::prelude::*;

verus! {

/// Numbers that stand for whole steps.
pub struct Grid {
    /// The number of so many steps.
    pub unit: spec_fn(int) -> Num,
    /// How many steps a number of the grid is.
    pub steps: spec_fn(Num) -> int,
    /// How far the grid goes.
    pub limit: int,
}

impl Grid {
    /// The arithmetic is exact on the grid.
    pub open spec fn exact(self, m: Model) -> bool {
        crate::derive::exact(m, self.unit, self.limit)
    }

    /// A number of the grid that is not negative.
    pub open spec fn holds(self, v: Num) -> bool {
        0 <= (self.steps)(v) <= self.limit && v == (self.unit)((self.steps)(v))
    }
}

/// A series of a family, with a label where one is asked for.
pub open spec fn belongs(k: KeyView, name: Seq<char>, label: Option<(Seq<char>, Seq<char>)>) -> bool {
    k.name == name && (label matches Some(l) ==> k.labels.contains(l))
}

/// The steps of all series of a selection, added up.
pub open spec fn tally(g: Grid, c: Choice, s: Seq<(KeyView, Num)>) -> int
    decreases s.len(),
{
    if s.len() == 0 {
        0
    } else {
        tally(g, c, s.drop_last()) + if belongs(s.last().0, c.name, c.label) {
            (g.steps)(s.last().1)
        } else {
            0
        }
    }
}

/// Two scrapes of the same series, none of whose selected counters fell.
pub open spec fn rising(
    g: Grid,
    c: Choice,
    old: Seq<(KeyView, Num)>,
    new: Seq<(KeyView, Num)>,
) -> bool {
    &&& old.len() == new.len()
    &&& forall|i: int| 0 <= i < new.len() ==> (#[trigger] new[i]).0 == old[i].0
    &&& forall|i: int|
        0 <= i < new.len() && belongs((#[trigger] new[i]).0, c.name, c.label) ==> g.holds(old[i].1)
            && g.holds(new[i].1) && (g.steps)(old[i].1) <= (g.steps)(new[i].1)
    &&& tally(g, c, new) <= g.limit
}

/// A selection takes the series of its family, and of these the ones that carry
/// its label.
pub proof fn law_selection(c: Choice, k: KeyView)
    ensures
        c.takes(k) <==> belongs(k, c.name, c.label),
{
}

proof fn lemma_tally_bounds(g: Grid, c: Choice, s: Seq<(KeyView, Num)>, n: int)
    requires
        0 <= n <= s.len(),
        forall|i: int|
            0 <= i < s.len() && belongs((#[trigger] s[i]).0, c.name, c.label) ==> g.holds(s[i].1),
    ensures
        0 <= tally(g, c, s.take(n)) <= tally(g, c, s),
    decreases s.len(),
{
    if n == s.len() {
        assert(s.take(n) =~= s);
        if n > 0 {
            let t = s.drop_last();
            assert forall|i: int|
                0 <= i < t.len() && belongs((#[trigger] t[i]).0, c.name, c.label) implies g.holds(
                t[i].1,
            ) by {
                assert(t[i] == s[i]);
            }
            lemma_tally_bounds(g, c, t, n - 1);
            assert(t.take(n - 1) =~= t);
            assert(s.last() == s[n - 1]);
        }
    } else {
        let t = s.drop_last();
        assert forall|i: int|
            0 <= i < t.len() && belongs((#[trigger] t[i]).0, c.name, c.label) implies g.holds(
            t[i].1,
        ) by {
            assert(t[i] == s[i]);
        }
        lemma_tally_bounds(g, c, t, n);
        assert(t.take(n) =~= s.take(n));
        assert(s.last() == s[s.len() - 1]);
    }
}

proof fn lemma_moved_is_climb(
    m: Model,
    g: Grid,
    c: Choice,
    old: Seq<(KeyView, Num)>,
    new: Seq<(KeyView, Num)>,
    n: int,
)
    requires
        g.exact(m),
        keymap::sorted(old),
        rising(g, c, old, new),
        0 <= n <= new.len(),
    ensures
        rate::moved(m, c, old, new.take(n)) == (g.unit)(
            tally(g, c, new.take(n)) - tally(g, c, old.take(n)),
        ),
        0 <= tally(g, c, old.take(n)) <= tally(g, c, new.take(n)) <= g.limit,
    decreases n,
{
    assert forall|i: int|
        0 <= i < new.len() && belongs((#[trigger] new[i]).0, c.name, c.label) implies g.holds(
        new[i].1,
    ) by {}
    lemma_tally_bounds(g, c, new, n);
    if n > 0 {
        lemma_moved_is_climb(m, g, c, old, new, n - 1);
        assert(new.take(n).drop_last() =~= new.take(n - 1));
        assert(old.take(n).drop_last() =~= old.take(n - 1));
        let k = new[n - 1].0;
        assert(k == old[n - 1].0);
        keymap::law_lookup_finds_entries(old, k);
        assert(keymap::lookup(old, k) == Some(old[n - 1].1)) by {
            assert(old[n - 1].0 == k);
        }
        if belongs(k, c.name, c.label) {
            let (a, b) = ((g.steps)(old[n - 1].1), (g.steps)(new[n - 1].1));
            assert((g.unit)(a).at_most((g.unit)(b)));
            assert(m(Calc::Difference((g.unit)(b), (g.unit)(a))) == (g.unit)(b - a));
            let d = tally(g, c, new.take(n - 1)) - tally(g, c, old.take(n - 1));
            assert(m(Calc::Sum((g.unit)(d), (g.unit)(b - a))) == (g.unit)(d + (b - a)));
        }
    }
}

/// Counters move by the difference of what they count, all selected series
/// together.
pub proof fn law_counters_move_by_their_difference(
    m: Model,
    g: Grid,
    c: Choice,
    old: Seq<(KeyView, Num)>,
    new: Seq<(KeyView, Num)>,
)
    requires
        g.exact(m),
        keymap::sorted(old),
        rising(g, c, old, new),
    ensures
        rate::moved(m, c, old, new) == (g.unit)(tally(g, c, new) - tally(g, c, old)),
{
    lemma_moved_is_climb(m, g, c, old, new, new.len() as int);
    assert(new.take(new.len() as int) =~= new);
    assert(old.take(old.len() as int) =~= old);
}

/// Scrapes of the same series, whose selected counters only rise.
pub open spec fn steady(g: Grid, c: Choice, e: Seq<EntryView>) -> bool {
    &&& forall|i: int| 0 <= i < e.len() ==> keymap::sorted((#[trigger] e[i]).sample.simple)
    &&& forall|i: int|
        0 < i < e.len() ==> rising(g, c, e[i - 1].sample.simple, (#[trigger] e[i]).sample.simple)
}

proof fn lemma_steady_prefix(g: Grid, c: Choice, e: Seq<EntryView>)
    requires
        steady(g, c, e),
        e.len() > 0,
    ensures
        steady(g, c, e.drop_last()),
{
    let t = e.drop_last();
    assert forall|i: int| 0 <= i < t.len() implies keymap::sorted(
        (#[trigger] t[i]).sample.simple,
    ) by {
        assert(t[i] == e[i]);
    }
    assert forall|i: int| 0 < i < t.len() implies rising(
        g,
        c,
        t[i - 1].sample.simple,
        (#[trigger] t[i]).sample.simple,
    ) by {
        assert(t[i] == e[i]);
    }
}

proof fn lemma_moved_over_is_climb(m: Model, g: Grid, c: Choice, e: Seq<EntryView>)
    requires
        g.exact(m),
        g.limit >= 0,
        steady(g, c, e),
        e.len() > 0,
    ensures
        history::moved_over(m, c, e) == (g.unit)(
            tally(g, c, e.last().sample.simple) - tally(g, c, e[0].sample.simple),
        ),
        e.len() >= 2 ==> 0 <= tally(g, c, e[0].sample.simple) <= tally(
            g,
            c,
            e.last().sample.simple,
        ) <= g.limit,
    decreases e.len(),
{
    if e.len() >= 2 {
        let t = e.drop_last();
        lemma_steady_prefix(g, c, e);
        lemma_moved_over_is_climb(m, g, c, t);
        let (a, b) = (e[e.len() - 2].sample.simple, e[e.len() - 1].sample.simple);
        assert(rising(g, c, a, b));
        assert(keymap::sorted(a));
        law_counters_move_by_their_difference(m, g, c, a, b);
        lemma_moved_is_climb(m, g, c, a, b, b.len() as int);
        assert(b.take(b.len() as int) =~= b);
        assert(a.take(a.len() as int) =~= a);
        let (x, y, z) = (tally(g, c, e[0].sample.simple), tally(g, c, a), tally(g, c, b));
        assert(t.last() == e[e.len() - 2]);
        assert(m(Calc::Sum((g.unit)(y - x), (g.unit)(z - y))) == (g.unit)((y - x) + (z - y)));
    }
}

/// `e` is what the history holds of the last `w` nanoseconds: everything before
/// it is older.
pub open spec fn trailing(
    all: Seq<EntryView>,
    older: Seq<EntryView>,
    e: Seq<EntryView>,
    w: u64,
) -> bool {
    &&& all == older + e
    &&& e.len() > 0
    &&& forall|i: int| 0 <= i < older.len() ==> (#[trigger] older[i]).t + w < e.last().t
    &&& e.last().t <= e[0].t + w
}

/// A window is what came in during the time that it is long.
pub proof fn law_window_is_the_trailing_time(
    all: Seq<EntryView>,
    older: Seq<EntryView>,
    e: Seq<EntryView>,
    w: u64,
)
    requires
        trailing(all, older, e, w),
    ensures
        history::window(all, w) == e,
{
    let now = all.last().t;
    let n = history::window_start(all, now, w);
    assert(all.last() == e.last());
    history::lemma_window_start(all, now, w);
    assert(all[older.len() as int] == e[0]);
    if n < older.len() {
        assert(all[n] == older[n]);
    }
    if n > older.len() {
        assert(graphs::elapsed(all[older.len() as int].t, now) > w);
    }
    assert(all.skip(n) =~= e);
}

/// The rate over a window is what the selected counters climbed in it, all
/// series together, over the seconds from its first scrape to its last.
pub proof fn law_rate_is_climb_over_time(
    m: Model,
    g: Grid,
    h: HistoryView,
    c: Choice,
    w: u64,
    older: Seq<EntryView>,
    e: Seq<EntryView>,
)
    requires
        g.exact(m),
        g.limit >= 0,
        trailing(h.entries, older, e, w),
        steady(g, c, e),
        e.len() >= 2,
        e[0].t < e.last().t,
        exists|i: int|
            0 <= i < e[0].sample.simple.len() && belongs(
                (#[trigger] e[0].sample.simple[i]).0,
                c.name,
                c.label,
            ),
    ensures
        h.rate(m, c, w) == Some(
            m(
                Calc::Quotient(
                    (g.unit)(tally(g, c, e.last().sample.simple) - tally(g, c, e[0].sample.simple)),
                    m(Calc::Seconds((e.last().t - e[0].t) as u64)),
                ),
            ),
        ),
{
    law_window_is_the_trailing_time(h.entries, older, e, w);
    lemma_moved_over_is_climb(m, g, c, e);
    let i = choose|i: int|
        0 <= i < e[0].sample.simple.len() && belongs(
            (#[trigger] e[0].sample.simple[i]).0,
            c.name,
            c.label,
        );
    assert(c.takes(e[0].sample.simple[i].0));
    assert(c.in_sample(e[0].sample.simple));
}

/// Without any series of the selection there is no rate.
pub proof fn law_no_series_no_rate(m: Model, h: HistoryView, c: Choice, w: u64)
    requires
        forall|i: int, j: int|
            0 <= i < h.entries.len() && 0 <= j < h.entries[i].sample.simple.len() ==> !belongs(
                (#[trigger] h.entries[i].sample.simple[j]).0,
                c.name,
                c.label,
            ),
    ensures
        h.rate(m, c, w) is None,
{
    let e = h.window(w);
    if h.rated(c, w) {
        let i = choose|i: int| 0 <= i < e.len() && c.in_sample((#[trigger] e[i]).sample.simple);
        history::lemma_window_start(h.entries, h.entries.last().t, w);
        let n = history::window_start(h.entries, h.entries.last().t, w);
        assert(e[i] == h.entries[n + i]);
        let s = e[i].sample.simple;
        let j = choose|j: int| 0 <= j < s.len() && c.takes((#[trigger] s[j]).0);
        assert(belongs(h.entries[n + i].sample.simple[j].0, c.name, c.label));
    }
}

// ---- figures that are read off the newest scrape -----------------------------

/// The reading of a family: that of its first series, and none where the newest
/// scrape lacks the family.
pub open spec fn tells_reading(h: HistoryView, name: Seq<char>, r: Option<Num>) -> bool {
    let s = h.entries.last().sample.simple;
    match r {
        Some(v) => exists|i: int|
            0 <= i < s.len() && (#[trigger] s[i]) == (s[i].0, v) && s[i].0.name == name && forall|
                j: int,
            |
                0 <= j < i ==> (#[trigger] s[j]).0.name != name,
        None => forall|i: int| 0 <= i < s.len() ==> (#[trigger] s[i]).0.name != name,
    }
}

proof fn lemma_first_of(c: Choice, s: Seq<(KeyView, Num)>)
    requires
        c.label is None,
    ensures
        match c.first_of(s) {
            Some(v) => exists|i: int|
                0 <= i < s.len() && (#[trigger] s[i]) == (s[i].0, v) && s[i].0.name == c.name
                    && forall|j: int| 0 <= j < i ==> (#[trigger] s[j]).0.name != c.name,
            None => forall|i: int| 0 <= i < s.len() ==> (#[trigger] s[i]).0.name != c.name,
        },
    decreases s.len(),
{
    if s.len() > 0 {
        if c.takes(s[0].0) {
            assert(s[0] == (s[0].0, s[0].1));
        } else {
            let t = s.drop_first();
            lemma_first_of(c, t);
            match c.first_of(t) {
                Some(v) => {
                    let i = choose|i: int|
                        0 <= i < t.len() && (#[trigger] t[i]) == (t[i].0, v) && t[i].0.name
                            == c.name && forall|j: int|
                            0 <= j < i ==> (#[trigger] t[j]).0.name != c.name;
                    assert(s[i + 1] == t[i]);
                    assert forall|j: int| 0 <= j < i + 1 implies (#[trigger] s[j]).0.name
                        != c.name by {
                        if j > 0 {
                            assert(s[j] == t[j - 1]);
                        }
                    }
                },
                None => {
                    assert forall|i: int| 0 <= i < s.len() implies (#[trigger] s[i]).0.name
                        != c.name by {
                        if i > 0 {
                            assert(s[i] == t[i - 1]);
                        }
                    }
                },
            }
        }
    }
}

proof fn lemma_gauge_tells(h: HistoryView, c: Choice)
    requires
        h.entries.len() > 0,
        c.label is None,
    ensures
        tells_reading(h, c.name, h.gauge(c)),
{
    lemma_first_of(c, h.entries.last().sample.simple);
}

/// Every gauge of the dashboard is the reading of its own family in the newest
/// scrape.
pub proof fn law_gauges_are_readings(m: Model, h: HistoryView, focus: usize)
    ensures
        crate::derive::derived_of(m, h, focus) matches Some(d) ==> {
            &&& tells_reading(h, "sglang:num_running_reqs"@, d.running)
            &&& tells_reading(h, "sglang:num_queue_reqs"@, d.queue)
            &&& tells_reading(h, "sglang:cache_hit_rate"@, d.cache_hit)
            &&& tells_reading(h, "sglang:spec_accept_rate"@, d.spec_accept)
            &&& tells_reading(h, "sglang:spec_accept_length"@, d.spec_accept_len)
            &&& tells_reading(h, "sglang:http_requests_active"@, d.http_active)
            &&& tells_reading(h, "sglang:gen_throughput"@, d.gen_throughput_gauge)
            &&& tells_reading(h, "sglang:new_token_ratio"@, d.new_token_ratio)
            &&& d.subqueues.len() == 5
            &&& d.subqueues[0].0 == "prefill bootstrap"@
            &&& tells_reading(
                h,
                "sglang:num_prefill_bootstrap_queue_reqs"@,
                d.subqueues[0].1,
            )
            &&& d.subqueues[1].0 == "prefill inflight"@
            &&& tells_reading(h, "sglang:num_prefill_inflight_queue_reqs"@, d.subqueues[1].1)
            &&& d.subqueues[2].0 == "decode prealloc"@
            &&& tells_reading(h, "sglang:num_decode_prealloc_queue_reqs"@, d.subqueues[2].1)
            &&& d.subqueues[3].0 == "decode transfer"@
            &&& tells_reading(h, "sglang:num_decode_transfer_queue_reqs"@, d.subqueues[3].1)
            &&& d.subqueues[4].0 == "grammar"@
            &&& tells_reading(h, "sglang:num_grammar_queue_reqs"@, d.subqueues[4].1)
        },
{
    if h.entries.len() > 0 {
        lemma_gauge_tells(h, Choice::of("sglang:num_running_reqs"));
        lemma_gauge_tells(h, Choice::of("sglang:num_queue_reqs"));
        lemma_gauge_tells(h, Choice::of("sglang:cache_hit_rate"));
        lemma_gauge_tells(h, Choice::of("sglang:spec_accept_rate"));
        lemma_gauge_tells(h, Choice::of("sglang:spec_accept_length"));
        lemma_gauge_tells(h, Choice::of("sglang:http_requests_active"));
        lemma_gauge_tells(h, Choice::of("sglang:gen_throughput"));
        lemma_gauge_tells(h, Choice::of("sglang:new_token_ratio"));
        lemma_gauge_tells(h, Choice::of("sglang:num_prefill_bootstrap_queue_reqs"));
        lemma_gauge_tells(h, Choice::of("sglang:num_prefill_inflight_queue_reqs"));
        lemma_gauge_tells(h, Choice::of("sglang:num_decode_prealloc_queue_reqs"));
        lemma_gauge_tells(h, Choice::of("sglang:num_decode_transfer_queue_reqs"));
        lemma_gauge_tells(h, Choice::of("sglang:num_grammar_queue_reqs"));
    }
}

// ---- figures that are rates --------------------------------------------------

/// A family, all of it.
pub open spec fn family(name: Seq<char>) -> Choice {
    Choice { name, label: None }
}

/// The series of a family with a label.
pub open spec fn part_of_family(name: Seq<char>, k: Seq<char>, v: Seq<char>) -> Choice {
    Choice { name, label: Some((k, v)) }
}

/// Scrapes of a window, read on a grid.
pub struct Climb {
    pub grid: Grid,
    pub older: Seq<EntryView>,
    pub e: Seq<EntryView>,
}

impl Climb {
    /// These are the scrapes of the last `w` nanoseconds; the selected counters
    /// are there from the first one on, and only rise.
    pub open spec fn covers(self, m: Model, h: HistoryView, c: Choice, w: u64) -> bool {
        &&& self.grid.exact(m)
        &&& self.grid.limit >= 0
        &&& trailing(h.entries, self.older, self.e, w)
        &&& steady(self.grid, c, self.e)
        &&& self.e.len() >= 2
        &&& self.e[0].t < self.e.last().t
        &&& exists|i: int|
            0 <= i < self.e[0].sample.simple.len() && belongs(
                (#[trigger] self.e[0].sample.simple[i]).0,
                c.name,
                c.label,
            )
    }

    /// How many steps the selected counters climbed.
    pub open spec fn height(self, c: Choice) -> int {
        tally(self.grid, c, self.e.last().sample.simple) - tally(
            self.grid,
            c,
            self.e[0].sample.simple,
        )
    }

    /// The seconds that the scrapes span.
    pub open spec fn seconds(self, m: Model) -> Num {
        m(Calc::Seconds((self.e.last().t - self.e[0].t) as u64))
    }
}

/// No scrape carries a series of the selection.
pub open spec fn nowhere(h: HistoryView, c: Choice) -> bool {
    forall|i: int, j: int|
        0 <= i < h.entries.len() && 0 <= j < h.entries[i].sample.simple.len() ==> !belongs(
            (#[trigger] h.entries[i].sample.simple[j]).0,
            c.name,
            c.label,
        )
}

/// A rate of the selected counters over the last `w` nanoseconds: what they
/// climbed over the seconds that it took, and none where they are nowhere.
pub open spec fn tells_rate(m: Model, h: HistoryView, c: Choice, w: u64, r: Option<Num>) -> bool {
    &&& nowhere(h, c) ==> r is None
    &&& forall|x: Climb| #[trigger]
        x.covers(m, h, c, w) ==> r == Some(
            m(Calc::Quotient((x.grid.unit)(x.height(c)), x.seconds(m))),
        )
}

proof fn lemma_rate_tells(m: Model, h: HistoryView, c: Choice, w: u64)
    ensures
        tells_rate(m, h, c, w, h.rate(m, c, w)),
{
    if nowhere(h, c) {
        law_no_series_no_rate(m, h, c, w);
    }
    assert forall|x: Climb| #[trigger] x.covers(m, h, c, w) implies h.rate(m, c, w) == Some(
        m(Calc::Quotient((x.grid.unit)(x.height(c)), x.seconds(m))),
    ) by {
        law_rate_is_climb_over_time(m, x.grid, h, c, w, x.older, x.e);
    }
}

/// Five, fifteen and sixty seconds.
pub open spec fn nanos(i: int) -> u64 {
    if i == 0 {
        5_000_000_000
    } else if i == 1 {
        15_000_000_000
    } else {
        60_000_000_000
    }
}

proof fn lemma_windows()
    ensures
        history::WINDOWS@.len() == 3,
        history::WINDOWS@[0] == nanos(0),
        history::WINDOWS@[1] == nanos(1),
        history::WINDOWS@[2] == nanos(2),
{
}

/// A triple of rates is over the last 5, 15 and 60 seconds, in this order.
pub open spec fn tells_rates(m: Model, h: HistoryView, c: Choice, r: Seq<Option<Num>>) -> bool {
    r.len() == 3 && forall|i: int| 0 <= i < 3 ==> tells_rate(m, h, c, nanos(i), #[trigger] r[i])
}

proof fn lemma_rates_tell(m: Model, h: HistoryView, c: Choice)
    ensures
        tells_rates(m, h, c, crate::derive::rates_of(m, h, c)),
{
    lemma_windows();
    lemma_rate_tells(m, h, c, nanos(0));
    lemma_rate_tells(m, h, c, nanos(1));
    lemma_rate_tells(m, h, c, nanos(2));
}

/// Every rate of the dashboard is that of its own counters, over its own time:
/// token rates over the last 5, 15 and 60 seconds, everything else over the
/// last 60.
pub proof fn law_rates_count_their_own(m: Model, h: HistoryView, focus: usize)
    ensures
        crate::derive::derived_of(m, h, focus) matches Some(d) ==> {
            let tokens = "sglang:realtime_tokens_total"@;
            let cpu = "sglang:process_cpu_seconds_total"@;
            let minute = 60_000_000_000u64;
            &&& tells_rates(m, h, part_of_family(tokens, "mode"@, "decode"@), d.decode_rate)
            &&& tells_rates(
                m,
                h,
                part_of_family(tokens, "mode"@, "prefill_compute"@),
                d.prefill_rate,
            )
            &&& tells_rate(m, h, family("sglang:evicted_tokens_total"@), minute, d.evict_rate)
            &&& tells_rate(m, h, family("sglang:num_retracted_reqs"@), minute, d.retract_rate)
            &&& tells_rate(
                m,
                h,
                part_of_family("sglang:http_responses_total"@, "status_code"@, "503"@),
                minute,
                d.http_503_rate,
            )
            &&& tells_rate(m, h, family("sglang:hicache_backup_tokens_total"@), minute, d.l2_wb)
            &&& tells_rate(m, h, family("sglang:load_back_tokens_total"@), minute, d.l2_rb)
            &&& tells_rate(m, h, family("sglang:hicache_dropped_tokens_total"@), minute, d.l2_drop)
            &&& tells_rate(
                m,
                h,
                part_of_family(cpu, "component"@, "tokenizer"@),
                minute,
                d.cpu_tokenizer,
            )
            &&& tells_rate(
                m,
                h,
                part_of_family(cpu, "component"@, "detokenizer"@),
                minute,
                d.cpu_detokenizer,
            )
            &&& tells_rate(
                m,
                h,
                family("sglang:scheduler_process_cpu_seconds_total"@),
                minute,
                d.cpu_scheduler,
            )
        },
{
    lemma_windows();
    let tokens = "sglang:realtime_tokens_total"@;
    let cpu = "sglang:process_cpu_seconds_total"@;
    let minute = 60_000_000_000u64;
    lemma_rates_tell(m, h, part_of_family(tokens, "mode"@, "decode"@));
    lemma_rates_tell(m, h, part_of_family(tokens, "mode"@, "prefill_compute"@));
    lemma_rate_tells(m, h, family("sglang:evicted_tokens_total"@), minute);
    lemma_rate_tells(m, h, family("sglang:num_retracted_reqs"@), minute);
    lemma_rate_tells(
        m,
        h,
        part_of_family("sglang:http_responses_total"@, "status_code"@, "503"@),
        minute,
    );
    lemma_rate_tells(m, h, family("sglang:hicache_backup_tokens_total"@), minute);
    lemma_rate_tells(m, h, family("sglang:load_back_tokens_total"@), minute);
    lemma_rate_tells(m, h, family("sglang:hicache_dropped_tokens_total"@), minute);
    lemma_rate_tells(m, h, part_of_family(cpu, "component"@, "tokenizer"@), minute);
    lemma_rate_tells(m, h, part_of_family(cpu, "component"@, "detokenizer"@), minute);
    lemma_rate_tells(m, h, family("sglang:scheduler_process_cpu_seconds_total"@), minute);
}

// ---- percentiles -------------------------------------------------------------

/// What the buckets of a histogram counted between two scrapes, in steps.
pub open spec fn counted(g: Grid, old: HistView, new: HistView, j: int) -> int {
    (g.steps)(new.counts[j]) - (g.steps)(old.counts[j])
}

/// The buckets of one histogram before and after: the same ascending bounds,
/// counts on the grid that did not fall.
pub open spec fn filled_up(g: Grid, old: HistView, new: HistView) -> bool {
    &&& new.le.len() > 0
    &&& new.le.len() == new.counts.len() == old.counts.len()
    &&& old.le == new.le
    &&& forall|i: int, j: int|
        0 <= i < j < new.le.len() ==> (#[trigger] new.le[i]).below(#[trigger] new.le[j])
    &&& forall|j: int|
        0 <= j < new.le.len() ==> g.holds(#[trigger] new.counts[j]) && g.holds(old.counts[j])
            && (g.steps)(old.counts[j]) <= (g.steps)(new.counts[j])
    &&& forall|i: int, j: int|
        0 <= i <= j < new.le.len() ==> #[trigger] counted(g, old, new, i) <= #[trigger] counted(
            g,
            old,
            new,
            j,
        )
}

/// One bucket as it comes out of a difference of two scrapes.
pub open spec fn bucket_between(g: Grid, old: HistView, new: HistView, j: int) -> (Num, Num) {
    (new.le[j], (g.unit)(counted(g, old, new, j)))
}

proof fn lemma_position(s: Seq<Num>, j: int)
    requires
        0 <= j < s.len(),
        forall|a: int, b: int|
            0 <= a < b < s.len() ==> (#[trigger] s[a]).below(#[trigger] s[b]),
    ensures
        quantile::position(s, s[j]) == j,
    decreases s.len(),
{
    if j > 0 {
        assert(s[0].below(s[j]));
        let t = s.drop_first();
        assert forall|a: int, b: int| 0 <= a < b < t.len() implies (#[trigger] t[a]).below(
            #[trigger] t[b],
        ) by {
            assert(s[a + 1].below(s[b + 1]));
        }
        lemma_position(t, j - 1);
        assert(t[j - 1] == s[j]);
    }
}

proof fn lemma_bound_is_new(b: Seq<(Num, Num)>, le: Num)
    requires
        forall|a: int| 0 <= a < b.len() ==> (#[trigger] b[a]).0.below(le),
    ensures
        quantile::bound_at(b, le) == b.len(),
        forall|x: Num| #[trigger] metrics::insert_bucket(b, (le, x)) == b.push((le, x)),
    decreases b.len(),
{
    if b.len() > 0 {
        let t = b.drop_first();
        assert forall|a: int| 0 <= a < t.len() implies (#[trigger] t[a]).0.below(le) by {
            assert(t[a] == b[a + 1]);
        }
        assert(b[0].0.below(le));
        assert(b[b.len() - 1].0.below(le));
        lemma_bound_is_new(t, le);
    }
}

proof fn lemma_ladder_between(
    m: Model,
    g: Grid,
    old: HistView,
    new: HistView,
    n: int,
)
    requires
        g.exact(m),
        filled_up(g, old, new),
        0 <= n <= new.le.len(),
    ensures
        quantile::add_hist(m, seq![], new, Some(old), n) == Seq::new(
            n as nat,
            |j: int| bucket_between(g, old, new, j),
        ),
    decreases n,
{
    let want = Seq::new(n as nat, |j: int| bucket_between(g, old, new, j));
    if n > 0 {
        lemma_ladder_between(m, g, old, new, n - 1);
        let b = quantile::add_hist(m, seq![], new, Some(old), n - 1);
        lemma_position(new.le, n - 1);
        let (x, y) = (old.counts[n - 1], new.counts[n - 1]);
        assert(g.holds(y) && g.holds(x));
        assert((g.unit)((g.steps)(x)).at_most((g.unit)((g.steps)(y))));
        assert(m(Calc::Difference(y, x)) == (g.unit)((g.steps)(y) - (g.steps)(x)));
        assert forall|a: int| 0 <= a < b.len() implies (#[trigger] b[a]).0.below(
            new.le[n - 1],
        ) by {
            assert(new.le[a].below(new.le[n - 1]));
        }
        lemma_bound_is_new(b, new.le[n - 1]);
        assert(b.push(bucket_between(g, old, new, n - 1)) =~= want);
    } else {
        assert(want =~= seq![]);
    }
}

/// Exactly one histogram of the newest scrape is of the family.
pub open spec fn only_one(s: Seq<(KeyView, HistView)>, name: Seq<char>, p: int) -> bool {
    &&& 0 <= p < s.len()
    &&& s[p].0.name == name
    &&& forall|j: int| 0 <= j < s.len() && (#[trigger] s[j]).0.name == name ==> j == p
}

proof fn lemma_merged_none(
    m: Model,
    c: Choice,
    s: Seq<(KeyView, HistView)>,
    since: Option<Seq<(KeyView, HistView)>>,
)
    requires
        forall|j: int| 0 <= j < s.len() ==> !c.takes((#[trigger] s[j]).0),
    ensures
        quantile::merged(m, c, s, since) == Seq::<(Num, Num)>::empty(),
    decreases s.len(),
{
    if s.len() > 0 {
        let t = s.drop_last();
        assert forall|j: int| 0 <= j < t.len() implies !c.takes((#[trigger] t[j]).0) by {
            assert(t[j] == s[j]);
        }
        lemma_merged_none(m, c, t, since);
        assert(!c.takes(s[s.len() - 1].0));
    }
}

proof fn lemma_merged_one(
    m: Model,
    c: Choice,
    s: Seq<(KeyView, HistView)>,
    since: Seq<(KeyView, HistView)>,
    p: int,
    old: HistView,
)
    requires
        c.label is None,
        only_one(s, c.name, p),
        keymap::lookup(since, s[p].0) == Some(old),
    ensures
        quantile::merged(m, c, s, Some(since)) == quantile::add_hist(
            m,
            seq![],
            s[p].1,
            Some(old),
            quantile::rungs(s[p].1),
        ),
        quantile::observed(c, s, since) == if s[p].1.count < old.count {
            s[p].1.count
        } else {
            (s[p].1.count - old.count) as u64
        },
    decreases s.len(),
{
    let t = s.drop_last();
    if p == s.len() - 1 {
        assert forall|j: int| 0 <= j < t.len() implies !c.takes((#[trigger] t[j]).0) by {
            assert(t[j] == s[j]);
        }
        lemma_merged_none(m, c, t, Some(since));
        lemma_observed_none(c, t, since);
    } else {
        assert(!c.takes(s[s.len() - 1].0));
        assert(t[p] == s[p]);
        assert forall|j: int| 0 <= j < t.len() && (#[trigger] t[j]).0.name == c.name implies j
            == p by {
            assert(t[j] == s[j]);
        }
        lemma_merged_one(m, c, t, since, p, old);
    }
}

proof fn lemma_observed_none(c: Choice, s: Seq<(KeyView, HistView)>, since: Seq<(KeyView, HistView)>)
    requires
        forall|j: int| 0 <= j < s.len() ==> !c.takes((#[trigger] s[j]).0),
    ensures
        quantile::observed(c, s, since) == 0,
    decreases s.len(),
{
    if s.len() > 0 {
        let t = s.drop_last();
        assert forall|j: int| 0 <= j < t.len() implies !c.takes((#[trigger] t[j]).0) by {
            assert(t[j] == s[j]);
        }
        lemma_observed_none(c, t, since);
        assert(!c.takes(s[s.len() - 1].0));
    }
}

/// Interpolation does not leave the ends that it is between, and taking nothing
/// away changes nothing.
pub open spec fn interpolates(m: Model) -> bool {
    &&& forall|lo: Num, hi: Num, a: Num, b: Num|
        #![trigger m(Calc::Difference(hi, lo)), m(Calc::Quotient(a, b))]
        lo.at_most(hi) && num(ZERO).at_most(a) && a.at_most(b) && b.positive() ==> ({
            let v = m(
                Calc::Sum(
                    lo,
                    m(Calc::Product(m(Calc::Difference(hi, lo)), m(Calc::Quotient(a, b)))),
                ),
            );
            lo.at_most(v) && v.at_most(hi)
        })
    &&& forall|a: Num| !a.nan() ==> #[trigger] m(Calc::Difference(a, num(ZERO))) == a
}

/// A window in which one histogram of a family counted a multiple of a hundred
/// observations, and where a share of them ends.
pub struct Tide {
    pub grid: Grid,
    pub older: Seq<EntryView>,
    pub e: Seq<EntryView>,
    /// Where the histogram stands in the newest scrape.
    pub p: int,
    /// The histogram as the window began.
    pub old: HistView,
    /// Hundreds of steps that were counted.
    pub hundreds: int,
    /// The bucket that the share ends in.
    pub i: int,
}

impl Tide {
    pub open spec fn new_hist(self) -> HistView {
        self.e.last().sample.hist[self.p].1
    }

    pub open spec fn at(self, j: int) -> int {
        counted(self.grid, self.old, self.new_hist(), j)
    }

    /// These are the scrapes of the last `w` nanoseconds, with enough
    /// observations, and `share` per cent of them end in the bucket `i`.
    pub open spec fn covers(
        self,
        m: Model,
        h: HistoryView,
        name: Seq<char>,
        w: u64,
        share: int,
    ) -> bool {
        let new = self.new_hist();
        let n = new.le.len();
        &&& self.grid.exact(m)
        &&& trailing(h.entries, self.older, self.e, w)
        &&& self.e.len() >= 2
        &&& only_one(self.e.last().sample.hist, name, self.p)
        &&& keymap::lookup(self.e[0].sample.hist, self.e.last().sample.hist[self.p].0) == Some(
            self.old,
        )
        &&& self.old.count + 5 <= new.count
        &&& filled_up(self.grid, self.old, new)
        &&& self.at(n - 1) == 100 * self.hundreds
        &&& self.hundreds > 0
        &&& 0 <= self.i < n
        &&& new.le[self.i].finite()
        &&& num(ZERO).at_most(new.le[0])
        &&& share * self.hundreds <= self.at(self.i)
        &&& self.i > 0 ==> self.at(self.i - 1) < share * self.hundreds
    }
}

/// A percentage of a multiple of a hundred is exact.
pub open spec fn per_cent(m: Model, g: Grid, q: Num, share: int) -> bool {
    forall|k: int|
        0 < k && 100 * k <= g.limit ==> #[trigger] m(Calc::Product(q, (g.unit)(100 * k)))
            == (g.unit)(share * k)
}

/// A percentile of a window lies in the bucket in which the observations of
/// that window reach its share; a family that the newest scrape lacks has none.
pub open spec fn tells_percentile(
    m: Model,
    h: HistoryView,
    name: Seq<char>,
    w: u64,
    q: Num,
    share: int,
    r: Option<Num>,
) -> bool {
    &&& (forall|j: int|
        0 <= j < h.entries.last().sample.hist.len() ==> (
        #[trigger] h.entries.last().sample.hist[j]).0.name != name) ==> r is None
    &&& forall|x: Tide| #[trigger]
        x.covers(m, h, name, w, share) && per_cent(m, x.grid, q, share) && interpolates(m) ==> (
        r matches Some(v) && v.at_most(x.new_hist().le[x.i]) && (if x.i > 0 {
            x.new_hist().le[x.i - 1].at_most(v)
        } else {
            num(ZERO).at_most(v)
        }))
}

proof fn lemma_quantile_tells(
    m: Model,
    h: HistoryView,
    name: Seq<char>,
    w: u64,
    q: Num,
    share: int,
    x: Tide,
)
    requires
        0 < share <= 100,
        x.covers(m, h, name, w, share),
        per_cent(m, x.grid, q, share),
        interpolates(m),
    ensures
        h.quantile(m, family(name), q, w) matches Some(v) && v.at_most(x.new_hist().le[x.i]) && (
        if x.i > 0 {
            x.new_hist().le[x.i - 1].at_most(v)
        } else {
            num(ZERO).at_most(v)
        }),
{
    let c = family(name);
    let g = x.grid;
    let new = x.new_hist();
    let n = new.le.len() as int;
    let s = x.e.last().sample.hist;
    let since = x.e[0].sample.hist;
    law_window_is_the_trailing_time(h.entries, x.older, x.e, w);
    lemma_merged_one(m, c, s, since, x.p, x.old);
    lemma_ladder_between(m, g, x.old, new, n);
    let b = quantile::merged(m, c, s, Some(since));
    assert(b =~= Seq::new(n as nat, |j: int| bucket_between(g, x.old, new, j)));
    assert(!h.sparse(c, w));
    let total = 100 * x.hundreds;
    assert(g.holds(new.counts[n - 1]) && g.holds(x.old.counts[n - 1]));
    assert(total <= g.limit);
    assert((g.unit)(0).at_most((g.unit)(total)) && !(g.unit)(total).at_most((g.unit)(0)));
    assert(b.last().1 == (g.unit)(total));
    let rank = m(Calc::Product(q, (g.unit)(100 * x.hundreds)));
    let r = share * x.hundreds;
    assert(0 < r <= total) by (nonlinear_arith)
        requires
            0 < share <= 100,
            x.hundreds > 0,
            r == share * x.hundreds,
            total == 100 * x.hundreds,
    ;
    assert(rank == (g.unit)(r));
    assert forall|j: int| 0 <= j < n implies 0 <= #[trigger] x.at(j) <= total && (rank.at_most(
        b[j].1,
    ) <==> r <= x.at(j)) by {
        assert(g.holds(new.counts[j]) && g.holds(x.old.counts[j]));
        assert(counted(g, x.old, new, j) <= counted(g, x.old, new, n - 1));
        assert((g.unit)(r).at_most((g.unit)(x.at(j))) <==> r <= x.at(j));
    }
    let i = quantile::reaching(b, rank);
    assert(x.at(x.i) >= r);
    assert(x.i > 0 ==> x.at(x.i - 1) < r);
    quantile::law_rank_falls_into_its_bucket(b, rank, x.i);
    if i < x.i {
        assert(x.at(i) >= r);
        assert(counted(g, x.old, new, i) <= counted(g, x.old, new, x.i - 1));
    }
    assert(i == x.i);
    let hi = new.le[i];
    if i == 0 {
        let inside = m(Calc::Difference(b[0].1, num(ZERO)));
        assert((g.unit)(0).at_most(b[0].1) && !b[0].1.at_most((g.unit)(0))) by {
            assert((g.unit)(0).at_most((g.unit)(x.at(0))));
            assert(!(g.unit)(x.at(0)).at_most((g.unit)(0)));
        }
        assert(inside == b[0].1);
        assert(inside.positive());
        assert((g.unit)(0).at_most(rank));
        assert(m(Calc::Difference(rank, num(ZERO))) == rank);
        assert(rank.at_most(inside));
        let _ = (m(Calc::Difference(hi, num(ZERO))), m(Calc::Quotient(rank, inside)));
        assert(num(ZERO).at_most(hi));
    } else {
        let lo = new.le[i - 1];
        let (before, here) = (x.at(i - 1), x.at(i));
        assert(0 <= before < r <= here);
        assert(m(Calc::Difference((g.unit)(here), (g.unit)(before))) == (g.unit)(here - before));
        assert(m(Calc::Difference((g.unit)(r), (g.unit)(before))) == (g.unit)(r - before));
        let inside = (g.unit)(here - before);
        let ahead = (g.unit)(r - before);
        assert((g.unit)(0).at_most(inside) && !inside.at_most((g.unit)(0)));
        assert((g.unit)(0).at_most(ahead));
        assert(ahead.at_most(inside));
        assert(lo.below(hi));
        let _ = (m(Calc::Difference(hi, lo)), m(Calc::Quotient(ahead, inside)));
    }
}

proof fn lemma_no_family_no_quantile(m: Model, h: HistoryView, name: Seq<char>, w: u64, q: Num)
    requires
        forall|j: int|
            0 <= j < h.entries.last().sample.hist.len() ==> (
            #[trigger] h.entries.last().sample.hist[j]).0.name != name,
    ensures
        h.quantile(m, family(name), q, w) is None,
{
    let c = family(name);
    if h.entries.len() > 0 {
        let s = h.entries.last().sample.hist;
        assert forall|j: int| 0 <= j < s.len() implies !c.takes((#[trigger] s[j]).0) by {}
        lemma_merged_none(m, c, s, None);
        history::law_window_holds_the_newest(h.entries, w);
        lemma_merged_none(m, c, s, Some(h.window(w)[0].sample.hist));
    }
}

proof fn lemma_percentile_tells(
    m: Model,
    h: HistoryView,
    name: Seq<char>,
    w: u64,
    q: Num,
    share: int,
)
    requires
        0 < share <= 100,
    ensures
        tells_percentile(m, h, name, w, q, share, h.quantile(m, family(name), q, w)),
{
    let r = h.quantile(m, family(name), q, w);
    if forall|j: int|
        0 <= j < h.entries.last().sample.hist.len() ==> (
        #[trigger] h.entries.last().sample.hist[j]).0.name != name {
        lemma_no_family_no_quantile(m, h, name, w, q);
    }
    assert forall|x: Tide| #[trigger]
        x.covers(m, h, name, w, share) && per_cent(m, x.grid, q, share) && interpolates(
            m,
        ) implies (r matches Some(v) && v.at_most(x.new_hist().le[x.i]) && (if x.i > 0 {
        x.new_hist().le[x.i - 1].at_most(v)
    } else {
        num(ZERO).at_most(v)
    })) by {
        lemma_quantile_tells(m, h, name, w, q, share, x);
    }
}

/// The median, the 95th and the 99th percentile of what a family observed in
/// the last `w` nanoseconds.
pub open spec fn tells_percentiles(
    m: Model,
    h: HistoryView,
    name: Seq<char>,
    w: u64,
    q: Quantiles,
) -> bool {
    &&& tells_percentile(m, h, name, w, num(0x3fe0_0000_0000_0000), 50, q.p50)
    &&& tells_percentile(m, h, name, w, num(0x3fee_6666_6666_6666), 95, q.p95)
    &&& tells_percentile(m, h, name, w, num(0x3fef_ae14_7ae1_47ae), 99, q.p99)
}

/// A latency is told for the last 5, 15 and 60 seconds, in this order.
pub open spec fn tells_latency(
    m: Model,
    h: HistoryView,
    name: Seq<char>,
    lat: Seq<Quantiles>,
) -> bool {
    lat.len() == 3 && forall|i: int|
        0 <= i < 3 ==> tells_percentiles(m, h, name, nanos(i), #[trigger] lat[i])
}

proof fn lemma_latency_tells(m: Model, h: HistoryView, name: Seq<char>)
    ensures
        tells_latency(m, h, name, crate::derive::latencies_of(m, h, family(name))),
{
    lemma_windows();
    let lat = crate::derive::latencies_of(m, h, family(name));
    assert forall|i: int| 0 <= i < 3 implies tells_percentiles(
        m,
        h,
        name,
        nanos(i),
        #[trigger] lat[i],
    ) by {
        lemma_percentile_tells(m, h, name, nanos(i), num(0x3fe0_0000_0000_0000), 50);
        lemma_percentile_tells(m, h, name, nanos(i), num(0x3fee_6666_6666_6666), 95);
        lemma_percentile_tells(m, h, name, nanos(i), num(0x3fef_ae14_7ae1_47ae), 99);
    }
}

/// Every latency of the dashboard is that of its own histogram, each of its
/// entries over its own time: the last 5, 15 and 60 seconds.
pub proof fn law_latencies_are_of_their_windows(m: Model, h: HistoryView, focus: usize)
    ensures
        crate::derive::derived_of(m, h, focus) matches Some(d) ==> {
            &&& tells_latency(m, h, "sglang:time_to_first_token_seconds"@, d.ttft)
            &&& tells_latency(m, h, "sglang:inter_token_latency_seconds"@, d.itl)
            &&& tells_latency(m, h, "sglang:e2e_request_latency_seconds"@, d.e2e)
            &&& tells_latency(m, h, "sglang:queue_time_seconds"@, d.queue_time)
            &&& tells_percentile(
                m,
                h,
                "sglang:prompt_tokens_histogram"@,
                60_000_000_000,
                num(0x3fe0_0000_0000_0000),
                50,
                d.prompt_len_p50,
            )
            &&& tells_percentile(
                m,
                h,
                "sglang:prompt_tokens_histogram"@,
                60_000_000_000,
                num(0x3fee_6666_6666_6666),
                95,
                d.prompt_len_p95,
            )
        },
{
    lemma_windows();
    lemma_latency_tells(m, h, "sglang:time_to_first_token_seconds"@);
    lemma_latency_tells(m, h, "sglang:inter_token_latency_seconds"@);
    lemma_latency_tells(m, h, "sglang:e2e_request_latency_seconds"@);
    lemma_latency_tells(m, h, "sglang:queue_time_seconds"@);
    let prompts = "sglang:prompt_tokens_histogram"@;
    lemma_percentile_tells(m, h, prompts, nanos(2), num(0x3fe0_0000_0000_0000), 50);
    lemma_percentile_tells(m, h, prompts, nanos(2), num(0x3fee_6666_6666_6666), 95);
}

proof fn lemma_same_window_same_figures(
    m: Model,
    a: HistoryView,
    b: HistoryView,
    c: Choice,
    i: int,
)
    requires
        0 <= i < 3,
        a.entries.len() > 0,
        b.entries.len() > 0,
        a.window(nanos(i)) == b.window(nanos(i)),
        a.entries.last() == b.entries.last(),
    ensures
        crate::derive::latencies_of(m, a, c)[i] == crate::derive::latencies_of(m, b, c)[i],
        crate::derive::rates_of(m, a, c)[i] == crate::derive::rates_of(m, b, c)[i],
{
    lemma_windows();
    let w = nanos(i);
    assert(a.sparse(c, w) == b.sparse(c, w));
    assert(forall|q: Num| #[trigger] a.quantile(m, c, q, w) == b.quantile(m, c, q, w));
    assert(a.rate(m, c, w) == b.rate(m, c, w));
}

/// What is older than a window has no say in its percentiles: histories that
/// agree on the last 5, 15 or 60 seconds agree on that entry of every latency,
/// and on whether it fell back.
pub proof fn law_older_scrapes_leave_a_window_alone(
    m: Model,
    a: HistoryView,
    b: HistoryView,
    older_a: Seq<EntryView>,
    older_b: Seq<EntryView>,
    e: Seq<EntryView>,
    focus: usize,
    i: int,
)
    requires
        0 <= i < 3,
        trailing(a.entries, older_a, e, nanos(i)),
        trailing(b.entries, older_b, e, nanos(i)),
    ensures
        (crate::derive::derived_of(m, a, focus), crate::derive::derived_of(m, b, focus)) matches (
            Some(x),
            Some(y),
        ) ==> {
            &&& x.ttft[i] == y.ttft[i]
            &&& x.itl[i] == y.itl[i]
            &&& x.e2e[i] == y.e2e[i]
            &&& x.queue_time[i] == y.queue_time[i]
            &&& x.decode_rate[i] == y.decode_rate[i]
            &&& x.prefill_rate[i] == y.prefill_rate[i]
        },
{
    law_window_is_the_trailing_time(a.entries, older_a, e, nanos(i));
    law_window_is_the_trailing_time(b.entries, older_b, e, nanos(i));
    assert(a.entries.last() == e.last() && b.entries.last() == e.last());
    let tokens = "sglang:realtime_tokens_total"@;
    lemma_same_window_same_figures(m, a, b, family("sglang:time_to_first_token_seconds"@), i);
    lemma_same_window_same_figures(m, a, b, family("sglang:inter_token_latency_seconds"@), i);
    lemma_same_window_same_figures(m, a, b, family("sglang:e2e_request_latency_seconds"@), i);
    lemma_same_window_same_figures(m, a, b, family("sglang:queue_time_seconds"@), i);
    lemma_same_window_same_figures(m, a, b, part_of_family(tokens, "mode"@, "decode"@), i);
    lemma_same_window_same_figures(
        m,
        a,
        b,
        part_of_family(tokens, "mode"@, "prefill_compute"@),
        i,
    );
}

// ---- pools -------------------------------------------------------------------

/// The readings of a family, added up over its series; none where the newest
/// scrape lacks the family.
pub open spec fn tells_sum(m: Model, h: HistoryView, name: Seq<char>, r: Option<Num>) -> bool {
    let s = h.entries.last().sample.simple;
    &&& (forall|i: int| 0 <= i < s.len() ==> (#[trigger] s[i]).0.name != name) ==> r is None
    &&& forall|g: Grid|
        readable_sum(m, g, name, s) ==> r == Some((g.unit)(#[trigger] tally(g, family(name), s)))
}

/// A scrape carries the family, and its readings can be added on the grid.
pub open spec fn readable_sum(m: Model, g: Grid, name: Seq<char>, s: Seq<(KeyView, Num)>) -> bool {
    &&& g.exact(m)
    &&& forall|i: int| 0 <= i < s.len() && (#[trigger] s[i]).0.name == name ==> g.holds(s[i].1)
    &&& tally(g, family(name), s) <= g.limit
    &&& exists|i: int| 0 <= i < s.len() && (#[trigger] s[i]).0.name == name
}

proof fn lemma_sum_is_tally(m: Model, g: Grid, name: Seq<char>, s: Seq<(KeyView, Num)>)
    requires
        g.exact(m),
        forall|i: int| 0 <= i < s.len() && (#[trigger] s[i]).0.name == name ==> g.holds(s[i].1),
        tally(g, family(name), s) <= g.limit,
    ensures
        crate::num::sum_of(m, history::selected(family(name), s)) == (g.unit)(
            tally(g, family(name), s),
        ),
        0 <= tally(g, family(name), s),
    decreases s.len(),
{
    let c = family(name);
    if s.len() > 0 {
        let t = s.drop_last();
        assert forall|i: int| 0 <= i < t.len() && (#[trigger] t[i]).0.name == name implies g.holds(
            t[i].1,
        ) by {
            assert(t[i] == s[i]);
        }
        assert(s.last() == s[s.len() - 1]);
        lemma_sum_is_tally(m, g, name, t);
        if c.takes(s.last().0) {
            let x = tally(g, c, t);
            let y = (g.steps)(s.last().1);
            assert(g.holds(s[s.len() - 1].1));
            assert(m(Calc::Sum((g.unit)(x), (g.unit)(y))) == (g.unit)(x + y));
            let sel = history::selected(c, t);
            assert(sel.push(s.last().1).drop_last() =~= sel);
        }
    }
}

proof fn lemma_sum_tells(m: Model, h: HistoryView, name: Seq<char>)
    requires
        h.entries.len() > 0,
    ensures
        tells_sum(m, h, name, h.gauge_sum(m, family(name))),
{
    let s = h.entries.last().sample.simple;
    let c = family(name);
    assert forall|g: Grid| readable_sum(m, g, name, s) implies h.gauge_sum(m, c) == Some(
        (g.unit)(#[trigger] tally(g, c, s)),
    ) by {
        lemma_sum_is_tally(m, g, name, s);
        let i = choose|i: int| 0 <= i < s.len() && (#[trigger] s[i]).0.name == name;
        assert(c.takes(s[i].0));
    }
    if forall|i: int| 0 <= i < s.len() ==> (#[trigger] s[i]).0.name != name {
        assert(!c.in_sample(s));
    }
}

/// A usage backed by counts is their quotient, kept between nothing and all.
pub open spec fn tells_usage(m: Model, p: PoolView) -> bool {
    (p.used, p.total) matches (Some(u), Some(t)) ==> t.positive() ==> {
        let q = m(Calc::Quotient(u, t));
        &&& num(ZERO).at_most(q) && q.at_most(num(0x3ff0_0000_0000_0000)) ==> p.usage == q
        &&& q.below(num(ZERO)) ==> p.usage == num(ZERO)
    }
}

/// A pool of state slots: its counts are those of all ranks together, and its
/// total is what is used and what is free.
pub open spec fn tells_slots(
    m: Model,
    h: HistoryView,
    used: Seq<char>,
    free: Seq<char>,
    p: PoolView,
) -> bool {
    let s = h.entries.last().sample.simple;
    &&& p.unit == "slots"@
    &&& tells_sum(m, h, used, p.used)
    &&& forall|g: Grid|
        readable_sum(m, g, used, s) && readable_sum(m, g, free, s) && tally(g, family(used), s)
            + tally(g, family(free), s) <= g.limit ==> p.total == Some(
            (g.unit)(#[trigger] tally(g, family(used), s) + #[trigger] tally(g, family(free), s)),
        )
    &&& p.total is Some ==> p.used is Some
}

/// What a pool of the dashboard tells of the newest scrape. Every rank reports
/// the one KV pool, so its counts are readings; every other pool's counts are
/// those of all ranks together.
pub open spec fn tells_pool(m: Model, h: HistoryView, p: PoolView) -> bool {
    if p.name == "KV"@ {
        &&& p.unit == "tokens"@
        &&& tells_reading(h, "sglang:kv_used_tokens"@, p.used)
        &&& tells_reading(h, "sglang:max_total_num_tokens"@, p.total)
        &&& tells_usage(m, p)
        &&& p.used is None || p.total is None ==> tells_reading(
            h,
            "sglang:token_usage"@,
            Some(p.usage),
        )
    } else if p.name == "mamba"@ {
        &&& tells_slots(
            m,
            h,
            "sglang:mamba_used_tokens"@,
            "sglang:mamba_available_tokens"@,
            p,
        )
        &&& tells_usage(m, p)
    } else if p.name == "SWA"@ {
        &&& tells_slots(m, h, "sglang:swa_used_tokens"@, "sglang:swa_available_tokens"@, p)
        &&& tells_usage(m, p)
    } else {
        &&& p.name == "host"@
        &&& p.unit == "tokens"@
        &&& tells_sum(m, h, "sglang:hicache_host_total_tokens"@, p.total)
        &&& p.total matches Some(t) && !t.at_most(num(ZERO))
        &&& p.used matches Some(u) && p.usage == m(Calc::Quotient(u, p.total->0))
        &&& (exists|i: int|
            0 <= i < h.entries.last().sample.simple.len() && (
            #[trigger] h.entries.last().sample.simple[i]).0.name
                == "sglang:hicache_host_used_tokens"@) ==> tells_sum(
            m,
            h,
            "sglang:hicache_host_used_tokens"@,
            p.used,
        )
    }
}

proof fn lemma_present(s: Seq<Option<PoolView>>, p: PoolView)
    ensures
        crate::derive::present(s).contains(p) <==> s.contains(Some(p)),
    decreases s.len(),
{
    let all = crate::derive::present(s);
    if s.len() > 0 {
        let t = s.drop_last();
        lemma_present(t, p);
        let few = crate::derive::present(t);
        if s.contains(Some(p)) {
            let i = choose|i: int| 0 <= i < s.len() && s[i] == Some(p);
            if i < t.len() {
                assert(t[i] == Some(p));
                assert(t.contains(Some(p)));
                let k = choose|k: int| 0 <= k < few.len() && few[k] == p;
                assert(all[k] == p);
            } else {
                assert(all[few.len() as int] == p);
            }
        }
        if all.contains(p) {
            let k = choose|k: int| 0 <= k < all.len() && all[k] == p;
            if k < few.len() {
                assert(few[k] == p);
                assert(few.contains(p));
                let i = choose|i: int| 0 <= i < t.len() && t[i] == Some(p);
                assert(s[i] == Some(p));
            } else {
                assert(s[s.len() - 1] == Some(p));
            }
        }
    }
}

proof fn lemma_slots_tell(
    m: Model,
    h: HistoryView,
    name: &str,
    avail: &str,
    used: &str,
    usage: &str,
    p: PoolView,
)
    requires
        h.entries.len() > 0,
        crate::derive::slot_pool_of(m, h, name, avail, used, usage) == Some(p),
    ensures
        p.name == name@,
        tells_slots(m, h, used@, avail@, p),
        tells_usage(m, p),
{
    let s = h.entries.last().sample.simple;
    lemma_sum_tells(m, h, used@);
    lemma_sum_tells(m, h, avail@);
    assert forall|g: Grid|
        readable_sum(m, g, used@, s) && readable_sum(m, g, avail@, s) && tally(
            g,
            family(used@),
            s,
        ) + tally(g, family(avail@), s) <= g.limit implies p.total == Some(
        (g.unit)(#[trigger] tally(g, family(used@), s) + #[trigger] tally(g, family(avail@), s)),
    ) by {
        lemma_sum_is_tally(m, g, used@, s);
        lemma_sum_is_tally(m, g, avail@, s);
        let (x, y) = (tally(g, family(used@), s), tally(g, family(avail@), s));
        assert(m(Calc::Sum((g.unit)(x), (g.unit)(y))) == (g.unit)(x + y));
    }
}

/// Every pool of the dashboard tells its own counts, and the KV pool is there
/// exactly where the engine reports its usage.
#[verifier::spinoff_prover]
pub proof fn law_pools_tell_their_counts(m: Model, h: HistoryView, focus: usize)
    ensures
        crate::derive::derived_of(m, h, focus) matches Some(d) ==> {
            &&& forall|p: PoolView| #[trigger] d.pools.contains(p) ==> tells_pool(m, h, p)
            &&& (exists|p: PoolView| #[trigger] d.pools.contains(p) && p.name == "KV"@) <==> exists|
                i: int,
            |
                0 <= i < h.entries.last().sample.simple.len() && (
                #[trigger] h.entries.last().sample.simple[i]).0.name == "sglang:token_usage"@
        },
{
    reveal_strlit("KV");
    reveal_strlit("mamba");
    reveal_strlit("SWA");
    reveal_strlit("host");
    if let Some(d) = crate::derive::derived_of(m, h, focus) {
        let kv = crate::derive::kv_pool_of(m, h);
        let mamba = crate::derive::slot_pool_of(
            m,
            h,
            "mamba",
            "sglang:mamba_available_tokens",
            "sglang:mamba_used_tokens",
            "sglang:mamba_usage",
        );
        let swa = crate::derive::slot_pool_of(
            m,
            h,
            "SWA",
            "sglang:swa_available_tokens",
            "sglang:swa_used_tokens",
            "sglang:swa_token_usage",
        );
        let host = crate::derive::host_pool_of(m, h);
        let all = seq![kv, mamba, swa, host];
        assert(d.pools == crate::derive::present(all));
        lemma_gauge_tells(h, family("sglang:kv_used_tokens"@));
        lemma_gauge_tells(h, family("sglang:max_total_num_tokens"@));
        lemma_gauge_tells(h, family("sglang:token_usage"@));
        lemma_sum_tells(m, h, "sglang:hicache_host_total_tokens"@);
        lemma_sum_tells(m, h, "sglang:hicache_host_used_tokens"@);
        assert forall|p: PoolView| #[trigger] d.pools.contains(p) implies tells_pool(m, h, p)
            && (p.name == "KV"@ ==> kv == Some(p)) by {
            lemma_present(all, p);
            let i = choose|i: int| 0 <= i < all.len() && all[i] == Some(p);
            if i == 0 {
            } else if i == 1 {
                lemma_slots_tell(
                    m,
                    h,
                    "mamba",
                    "sglang:mamba_available_tokens",
                    "sglang:mamba_used_tokens",
                    "sglang:mamba_usage",
                    p,
                );
                assert("mamba"@.len() != "KV"@.len());
            } else if i == 2 {
                lemma_slots_tell(
                    m,
                    h,
                    "SWA",
                    "sglang:swa_available_tokens",
                    "sglang:swa_used_tokens",
                    "sglang:swa_token_usage",
                    p,
                );
                assert("SWA"@.len() != "KV"@.len() && "SWA"@.len() != "mamba"@.len());
            } else {
                assert("host"@.len() != "KV"@.len() && "host"@.len() != "mamba"@.len()
                    && "host"@.len() != "SWA"@.len());
                let s = h.entries.last().sample.simple;
                if exists|i: int|
                    0 <= i < s.len() && (#[trigger] s[i]).0.name
                        == "sglang:hicache_host_used_tokens"@ {
                    let i = choose|i: int|
                        0 <= i < s.len() && (#[trigger] s[i]).0.name
                            == "sglang:hicache_host_used_tokens"@;
                    assert(family("sglang:hicache_host_used_tokens"@).takes(s[i].0));
                }
            }
        }
        if let Some(p) = kv {
            lemma_present(all, p);
            assert(all[0] == Some(p));
            assert(d.pools.contains(p));
        }
    }
}

/// Where every rank reports the same KV counts, the pool reports them, however
/// many ranks there are.
pub proof fn law_ranks_share_one_kv_pool(
    m: Model,
    h: HistoryView,
    focus: usize,
    used: Num,
    total: Num,
)
    requires
        ({
            let s = h.entries.last().sample.simple;
            &&& forall|i: int|
                0 <= i < s.len() && (#[trigger] s[i]).0.name == "sglang:kv_used_tokens"@ ==> s[i].1
                    == used
            &&& forall|i: int|
                0 <= i < s.len() && (#[trigger] s[i]).0.name == "sglang:max_total_num_tokens"@
                    ==> s[i].1 == total
            &&& exists|i: int|
                0 <= i < s.len() && (#[trigger] s[i]).0.name == "sglang:kv_used_tokens"@
            &&& exists|i: int|
                0 <= i < s.len() && (#[trigger] s[i]).0.name == "sglang:max_total_num_tokens"@
        }),
    ensures
        crate::derive::derived_of(m, h, focus) matches Some(d) ==> forall|p: PoolView| #[trigger]
            d.pools.contains(p) && p.name == "KV"@ ==> p.used == Some(used) && p.total == Some(
                total,
            ),
{
    law_pools_tell_their_counts(m, h, focus);
    if let Some(d) = crate::derive::derived_of(m, h, focus) {
        assert forall|p: PoolView| #[trigger] d.pools.contains(p) && p.name == "KV"@ implies p.used
            == Some(used) && p.total == Some(total) by {
            assert(tells_pool(m, h, p));
        }
    }
}

// ---- cache tiers ---------------------------------------------------------------

/// All prefill tokens, however they were served.
pub open spec fn prefilled() -> Choice {
    family("sglang:prefill_effective_tokens_total"@)
}

/// The prefill tokens that a tier served.
pub open spec fn served_by(tier: Seq<char>) -> Choice {
    part_of_family("sglang:prefill_effective_tokens_total"@, "mode"@, tier)
}

/// So many steps in so many seconds.
pub open spec fn speed(m: Model, g: Grid, seconds: Num, k: int) -> Num {
    m(Calc::Quotient((g.unit)(k), seconds))
}

/// Division as far as shares need it: nothing over time is nothing, something
/// is positive, a number over itself is one, and a part over its whole is
/// between nothing and one.
pub open spec fn divides(m: Model, g: Grid, seconds: Num) -> bool {
    &&& speed(m, g, seconds, 0) == num(ZERO)
    &&& forall|k: int| 0 < k <= g.limit ==> (#[trigger] speed(m, g, seconds, k)).positive()
    &&& forall|y: Num|
        y.positive() ==> #[trigger] m(Calc::Quotient(num(ZERO), y)) == num(ZERO) && m(
            Calc::Quotient(y, y),
        ) == num(0x3ff0_0000_0000_0000)
    &&& forall|a: int, b: int|
        0 <= a <= b <= g.limit && 0 < b ==> ({
            let q = #[trigger] m(
                Calc::Quotient(speed(m, g, seconds, a), speed(m, g, seconds, b)),
            );
            num(ZERO).at_most(q) && q.at_most(num(0x3ff0_0000_0000_0000))
        })
}

/// Fractions of speeds are in the order of the steps that they are made of.
pub open spec fn orders_fractions(m: Model, g: Grid, s: Num, f: Grid, t: Num) -> bool {
    forall|a: int, b: int, c: int, d: int|
        #![trigger m(Calc::Quotient(speed(m, g, s, a), speed(m, g, s, b))), m(Calc::Quotient(speed(m, f, t, c), speed(m, f, t, d)))]
        0 <= a <= b <= g.limit && 0 < b && 0 <= c <= d <= f.limit && 0 < d && a * d <= c * b ==> m(
            Calc::Quotient(speed(m, g, s, a), speed(m, g, s, b)),
        ).at_most(m(Calc::Quotient(speed(m, f, t, c), speed(m, f, t, d))))
}

impl Climb {
    /// A minute of prefill counters, of which the tier's are a part.
    pub open spec fn shows_tier(self, m: Model, h: HistoryView, tier: Seq<char>) -> bool {
        &&& self.covers(m, h, prefilled(), 60_000_000_000)
        &&& self.covers(m, h, served_by(tier), 60_000_000_000)
        &&& divides(m, self.grid, self.seconds(m))
        &&& 0 < self.height(prefilled())
    }
}

/// The share of the prefill tokens that a tier served in the last minute:
/// nothing where its counters stood still, all where only they moved.
pub open spec fn tells_tier(m: Model, h: HistoryView, tier: Seq<char>, r: Option<Num>) -> bool {
    &&& nowhere(h, served_by(tier)) ==> r is None
    &&& forall|x: Climb| #[trigger]
        x.shows_tier(m, h, tier) ==> {
            let (a, b) = (x.height(served_by(tier)), x.height(prefilled()));
            &&& r matches Some(v)
            &&& num(ZERO).at_most(v)
            &&& v.at_most(num(0x3ff0_0000_0000_0000))
            &&& a == 0 ==> v == num(ZERO)
            &&& a == b ==> v == num(0x3ff0_0000_0000_0000)
        }
}

proof fn lemma_part_is_less(g: Grid, tier: Seq<char>, s: Seq<(KeyView, Num)>, t: Seq<(KeyView, Num)>)
    requires
        rising(g, prefilled(), s, t),
    ensures
        tally(g, served_by(tier), t) - tally(g, served_by(tier), s) <= tally(g, prefilled(), t)
            - tally(g, prefilled(), s),
        0 <= tally(g, served_by(tier), t) - tally(g, served_by(tier), s),
{
    lemma_part_is_less_upto(g, tier, s, t, s.len() as int);
    assert(s.take(s.len() as int) =~= s);
    assert(t.take(t.len() as int) =~= t);
}

proof fn lemma_part_is_less_upto(
    g: Grid,
    tier: Seq<char>,
    s: Seq<(KeyView, Num)>,
    t: Seq<(KeyView, Num)>,
    n: int,
)
    requires
        rising(g, prefilled(), s, t),
        0 <= n <= s.len(),
    ensures
        tally(g, served_by(tier), t.take(n)) - tally(g, served_by(tier), s.take(n)) <= tally(
            g,
            prefilled(),
            t.take(n),
        ) - tally(g, prefilled(), s.take(n)),
        0 <= tally(g, served_by(tier), t.take(n)) - tally(g, served_by(tier), s.take(n)),
    decreases n,
{
    if n > 0 {
        lemma_part_is_less_upto(g, tier, s, t, n - 1);
        assert(s.take(n).drop_last() =~= s.take(n - 1));
        assert(t.take(n).drop_last() =~= t.take(n - 1));
        assert(t[n - 1].0 == s[n - 1].0);
    }
}

proof fn lemma_part_climbs_less(g: Grid, tier: Seq<char>, e: Seq<EntryView>)
    requires
        steady(g, prefilled(), e),
        e.len() > 0,
    ensures
        0 <= tally(g, served_by(tier), e.last().sample.simple) - tally(
            g,
            served_by(tier),
            e[0].sample.simple,
        ) <= tally(g, prefilled(), e.last().sample.simple) - tally(
            g,
            prefilled(),
            e[0].sample.simple,
        ),
    decreases e.len(),
{
    if e.len() >= 2 {
        lemma_steady_prefix(g, prefilled(), e);
        lemma_part_climbs_less(g, tier, e.drop_last());
        assert(e.drop_last().last() == e[e.len() - 2]);
        assert(rising(
            g,
            prefilled(),
            e[e.len() - 2].sample.simple,
            e[e.len() - 1].sample.simple,
        ));
        lemma_part_is_less(
            g,
            tier,
            e[e.len() - 2].sample.simple,
            e[e.len() - 1].sample.simple,
        );
    }
}

proof fn lemma_share_is_fraction(m: Model, h: HistoryView, tier: &str, x: Climb)
    requires
        x.shows_tier(m, h, tier@),
    ensures
        ({
            let (a, b) = (x.height(served_by(tier@)), x.height(prefilled()));
            let s = x.seconds(m);
            &&& 0 <= a <= b <= x.grid.limit
            &&& crate::derive::tier_share(m, h, tier) == Some(
                m(Calc::Quotient(speed(m, x.grid, s, a), speed(m, x.grid, s, b))),
            )
        }),
{
    lemma_windows();
    let (a, b) = (x.height(served_by(tier@)), x.height(prefilled()));
    let s = x.seconds(m);
    law_rate_is_climb_over_time(m, x.grid, h, prefilled(), 60_000_000_000, x.older, x.e);
    law_rate_is_climb_over_time(m, x.grid, h, served_by(tier@), 60_000_000_000, x.older, x.e);
    lemma_moved_over_is_climb(m, x.grid, prefilled(), x.e);
    lemma_part_climbs_less(x.grid, tier@, x.e);
    assert(speed(m, x.grid, s, b).positive());
    let q = m(Calc::Quotient(speed(m, x.grid, s, a), speed(m, x.grid, s, b)));
    assert(num(ZERO).at_most(q) && q.at_most(num(0x3ff0_0000_0000_0000)));
}

proof fn lemma_tier_tells(m: Model, h: HistoryView, tier: &str)
    ensures
        tells_tier(m, h, tier@, crate::derive::tier_share(m, h, tier)),
{
    lemma_windows();
    let r = crate::derive::tier_share(m, h, tier);
    if nowhere(h, served_by(tier@)) {
        law_no_series_no_rate(m, h, served_by(tier@), 60_000_000_000);
    }
    assert forall|x: Climb| #[trigger] x.shows_tier(m, h, tier@) implies ({
        let (a, b) = (x.height(served_by(tier@)), x.height(prefilled()));
        &&& r matches Some(v)
        &&& num(ZERO).at_most(v)
        &&& v.at_most(num(0x3ff0_0000_0000_0000))
        &&& a == 0 ==> v == num(ZERO)
        &&& a == b ==> v == num(0x3ff0_0000_0000_0000)
    }) by {
        lemma_share_is_fraction(m, h, tier, x);
        let (a, b) = (x.height(served_by(tier@)), x.height(prefilled()));
        let s = x.seconds(m);
        let y = speed(m, x.grid, s, b);
        assert(y.positive());
        assert(m(Calc::Quotient(num(ZERO), y)) == num(ZERO));
    }
}

/// The hit rates of the dashboard are the shares that their tiers served.
pub proof fn law_hit_rates_are_shares_served(m: Model, h: HistoryView, focus: usize)
    ensures
        crate::derive::derived_of(m, h, focus) matches Some(d) ==> tells_tier(
            m,
            h,
            "device_hit"@,
            d.l2_device,
        ) && tells_tier(m, h, "host_hit"@, d.l2_host),
{
    lemma_tier_tells(m, h, "device_hit");
    lemma_tier_tells(m, h, "host_hit");
}

/// A tier that served a larger part of the prefill tokens has no lower hit rate.
pub proof fn law_hit_rate_grows_with_the_share(
    m: Model,
    a: HistoryView,
    b: HistoryView,
    x: Climb,
    y: Climb,
    focus: usize,
)
    requires
        orders_fractions(m, x.grid, x.seconds(m), y.grid, y.seconds(m)),
    ensures
        (crate::derive::derived_of(m, a, focus), crate::derive::derived_of(m, b, focus)) matches (
            Some(d),
            Some(f),
        ) ==> {
            &&& x.shows_tier(m, a, "device_hit"@) && y.shows_tier(m, b, "device_hit"@) && x.height(
                served_by("device_hit"@),
            ) * y.height(prefilled()) <= y.height(served_by("device_hit"@)) * x.height(prefilled())
                ==> d.l2_device->0.at_most(f.l2_device->0)
            &&& x.shows_tier(m, a, "host_hit"@) && y.shows_tier(m, b, "host_hit"@) && x.height(
                served_by("host_hit"@),
            ) * y.height(prefilled()) <= y.height(served_by("host_hit"@)) * x.height(prefilled())
                ==> d.l2_host->0.at_most(f.l2_host->0)
        },
{
    if x.shows_tier(m, a, "device_hit"@) && y.shows_tier(m, b, "device_hit"@) {
        lemma_share_is_fraction(m, a, "device_hit", x);
        lemma_share_is_fraction(m, b, "device_hit", y);
    }
    if x.shows_tier(m, a, "host_hit"@) && y.shows_tier(m, b, "host_hit"@) {
        lemma_share_is_fraction(m, a, "host_hit", x);
        lemma_share_is_fraction(m, b, "host_hit", y);
    }
}

// ---- intervals -----------------------------------------------------------------

/// Every scrape came in after the one before it.
pub open spec fn in_time(e: Seq<EntryView>) -> bool {
    forall|i: int| 0 < i < e.len() ==> e[i - 1].t < (#[trigger] e[i]).t
}

/// The token counters of one kind of work.
pub open spec fn work(mode: Seq<char>) -> Choice {
    part_of_family("sglang:realtime_tokens_total"@, "mode"@, mode)
}

/// Whether a scrape carries a series of the selection.
pub open spec fn carries(s: SampleView, c: Choice) -> bool {
    exists|i: int| 0 <= i < s.simple.len() && belongs((#[trigger] s.simple[i]).0, c.name, c.label)
}

/// What a lane tells of the interval between two scrapes: how fast the counters
/// climbed, and whether either scrape lacks them.
pub open spec fn tells_interval(
    m: Model,
    c: Choice,
    a: EntryView,
    b: EntryView,
    lane: graphs::LaneView,
    i: int,
) -> bool {
    &&& lane.absent_old[i] <==> !carries(a.sample, c)
    &&& lane.absent_new[i] <==> !carries(b.sample, c)
    &&& forall|g: Grid|
        g.exact(m) && #[trigger] rising(g, c, a.sample.simple, b.sample.simple) && keymap::sorted(
            a.sample.simple,
        ) ==> lane.vals[i] == m(
            Calc::Quotient(
                (g.unit)(tally(g, c, b.sample.simple) - tally(g, c, a.sample.simple)),
                m(Calc::Seconds((b.t - a.t) as u64)),
            ),
        )
}

#[verifier::spinoff_prover]
proof fn lemma_rows(m: Model, e: Seq<EntryView>, i: int)
    requires
        in_time(e),
        0 <= i < e.len() - 1,
    ensures
        ({
            let p = graphs::pass_over(m, e);
            let (a, b) = (e[i], e[i + 1]);
            let dt = m(Calc::Seconds((b.t - a.t) as u64));
            &&& p.parallel()
            &&& p.dt.len() == e.len() - 1
            &&& p.dt[i] == dt
            &&& p.decode.vals[i] == m(
                Calc::Quotient(
                    rate::moved(m, work("decode"@), a.sample.simple, b.sample.simple),
                    dt,
                ),
            )
            &&& p.prefill.vals[i] == m(
                Calc::Quotient(
                    rate::moved(m, work("prefill_compute"@), a.sample.simple, b.sample.simple),
                    dt,
                ),
            )
            &&& p.decode.absent_old[i] == !work("decode"@).in_sample(a.sample.simple)
            &&& p.decode.absent_new[i] == !work("decode"@).in_sample(b.sample.simple)
            &&& p.prefill.absent_old[i] == !work("prefill_compute"@).in_sample(a.sample.simple)
            &&& p.prefill.absent_new[i] == !work("prefill_compute"@).in_sample(b.sample.simple)
            &&& p.running[i] == graphs::running_at(b.sample)
            &&& p.pool_kv[i] == graphs::kv_share(m, b.sample)
            &&& p.pool_mamba[i] == graphs::mamba_share(m, b.sample)
            &&& p.pool_swa[i] == graphs::swa_share(m, b.sample)
            &&& p.pool_host[i] == graphs::host_share(m, b.sample)
            &&& p.per_stream[i] == if p.running[i].positive() && !p.decode.absent_old[i]
                && !p.decode.absent_new[i] {
                Some(m(Calc::Quotient(p.decode.vals[i], p.running[i])))
            } else {
                None
            }
        }),
    decreases e.len(),
{
    graphs::lemma_pass_is_parallel(m, e);
    let t = e.drop_last();
    assert forall|j: int| 0 < j < t.len() implies t[j - 1].t < (#[trigger] t[j]).t by {
        assert(t[j] == e[j]);
    }
    assert(e[e.len() - 2].t < e[e.len() - 1].t);
    graphs::lemma_pass_is_parallel(m, t);
    lemma_row_count(m, t);
    if i < e.len() - 2 {
        lemma_rows(m, t, i);
        assert(t[i] == e[i] && t[i + 1] == e[i + 1]);
    }
}

proof fn lemma_row_count(m: Model, e: Seq<EntryView>)
    requires
        in_time(e),
    ensures
        e.len() > 0 ==> graphs::pass_over(m, e).dt.len() == e.len() - 1,
        e.len() == 0 ==> graphs::pass_over(m, e).dt.len() == 0,
    decreases e.len(),
{
    if e.len() >= 2 {
        let t = e.drop_last();
        assert forall|j: int| 0 < j < t.len() implies t[j - 1].t < (#[trigger] t[j]).t by {
            assert(t[j] == e[j]);
        }
        assert(e[e.len() - 2].t < e[e.len() - 1].t);
        lemma_row_count(m, t);
    }
}

/// The lanes hold one value per interval between consecutive scrapes: its
/// length, and how fast its own counters climbed.
pub proof fn law_lanes_tell_their_intervals(m: Model, e: Seq<EntryView>, i: int)
    requires
        in_time(e),
        0 <= i < e.len() - 1,
    ensures
        ({
            let g = graphs::graphs_of(m, e);
            &&& g.dt.len() == e.len() - 1
            &&& g.dt[i] == m(Calc::Seconds((e[i + 1].t - e[i].t) as u64))
            &&& tells_interval(m, work("decode"@), e[i], e[i + 1], g.decode, i)
            &&& tells_interval(m, work("prefill_compute"@), e[i], e[i + 1], g.prefill, i)
        }),
{
    lemma_rows(m, e, i);
    let g = graphs::graphs_of(m, e);
    lemma_interval_tells(m, work("decode"@), e[i], e[i + 1], g.decode, i);
    lemma_interval_tells(m, work("prefill_compute"@), e[i], e[i + 1], g.prefill, i);
}

proof fn lemma_interval_tells(
    m: Model,
    c: Choice,
    a: EntryView,
    b: EntryView,
    lane: graphs::LaneView,
    i: int,
)
    requires
        lane.vals[i] == m(
            Calc::Quotient(
                rate::moved(m, c, a.sample.simple, b.sample.simple),
                m(Calc::Seconds((b.t - a.t) as u64)),
            ),
        ),
        lane.absent_old[i] == !c.in_sample(a.sample.simple),
        lane.absent_new[i] == !c.in_sample(b.sample.simple),
    ensures
        tells_interval(m, c, a, b, lane, i),
{
    lemma_carries(a.sample, c);
    lemma_carries(b.sample, c);
    assert forall|g: Grid|
        g.exact(m) && #[trigger] rising(g, c, a.sample.simple, b.sample.simple) && keymap::sorted(
            a.sample.simple,
        ) implies lane.vals[i] == m(
        Calc::Quotient(
            (g.unit)(tally(g, c, b.sample.simple) - tally(g, c, a.sample.simple)),
            m(Calc::Seconds((b.t - a.t) as u64)),
        ),
    ) by {
        law_counters_move_by_their_difference(m, g, c, a.sample.simple, b.sample.simple);
    }
}

proof fn lemma_carries(s: SampleView, c: Choice)
    ensures
        c.in_sample(s.simple) <==> carries(s, c),
{
    if c.in_sample(s.simple) {
        let i = choose|i: int| 0 <= i < s.simple.len() && c.takes((#[trigger] s.simple[i]).0);
        assert(belongs(s.simple[i].0, c.name, c.label));
    }
    if carries(s, c) {
        let i = choose|i: int|
            0 <= i < s.simple.len() && belongs((#[trigger] s.simple[i]).0, c.name, c.label);
        assert(c.takes(s.simple[i].0));
    }
}

/// The reading of a family in one scrape, zero where it lacks the family.
pub open spec fn reads(s: SampleView, name: Seq<char>, v: Num) -> bool {
    ||| exists|i: int|
        0 <= i < s.simple.len() && (#[trigger] s.simple[i]) == (s.simple[i].0, v)
            && s.simple[i].0.name == name && forall|j: int|
            0 <= j < i ==> (#[trigger] s.simple[j]).0.name != name
    ||| v == num(ZERO) && forall|i: int|
        0 <= i < s.simple.len() ==> (#[trigger] s.simple[i]).0.name != name
}

proof fn lemma_reads(s: SampleView, name: Seq<char>)
    ensures
        reads(s, name, crate::derive::or_zero(s.gauge(name))),
        forall|v: Num| #[trigger]
            reads(s, name, v) ==> v == crate::derive::or_zero(s.gauge(name)),
{
    lemma_first_named(s.simple, name);
    lemma_first_of(family(name), s.simple);
    assert forall|v: Num| #[trigger] reads(s, name, v) implies v == crate::derive::or_zero(
        s.gauge(name),
    ) by {
        match family(name).first_of(s.simple) {
            Some(x) => {
                let i = choose|i: int|
                    0 <= i < s.simple.len() && (#[trigger] s.simple[i]) == (s.simple[i].0, x)
                        && s.simple[i].0.name == name && forall|j: int|
                        0 <= j < i ==> (#[trigger] s.simple[j]).0.name != name;
                if exists|k: int|
                    0 <= k < s.simple.len() && (#[trigger] s.simple[k]) == (s.simple[k].0, v)
                        && s.simple[k].0.name == name && forall|j: int|
                        0 <= j < k ==> (#[trigger] s.simple[j]).0.name != name {
                    let k = choose|k: int|
                        0 <= k < s.simple.len() && (#[trigger] s.simple[k]) == (s.simple[k].0, v)
                            && s.simple[k].0.name == name && forall|j: int|
                            0 <= j < k ==> (#[trigger] s.simple[j]).0.name != name;
                    assert(i == k);
                }
            },
            None => {},
        }
    }
}

proof fn lemma_first_named(s: Seq<(KeyView, Num)>, name: Seq<char>)
    ensures
        metrics::first_named(s, name) == family(name).first_of(s),
    decreases s.len(),
{
    if s.len() > 0 {
        lemma_first_named(s.drop_first(), name);
    }
}

/// The speed of a stream in an interval is its decode rate shared among the
/// requests that run at its end; there is none while nothing runs, or where
/// either scrape lacks the decode counters.
pub proof fn law_streams_share_the_decode_rate(
    m: Model,
    e: Seq<EntryView>,
    i: int,
    running: Num,
)
    requires
        in_time(e),
        0 <= i < e.len() - 1,
        reads(e[i + 1].sample, "sglang:num_running_reqs"@, running),
    ensures
        ({
            let g = graphs::graphs_of(m, e);
            &&& g.per_stream[i] is Some <==> running.positive() && carries(
                e[i].sample,
                work("decode"@),
            ) && carries(e[i + 1].sample, work("decode"@))
            &&& g.per_stream[i] matches Some(v) ==> v == m(
                Calc::Quotient(g.decode.vals[i], running),
            )
        }),
{
    lemma_rows(m, e, i);
    lemma_reads(e[i + 1].sample, "sglang:num_running_reqs"@);
    lemma_carries(e[i].sample, work("decode"@));
    lemma_carries(e[i + 1].sample, work("decode"@));
}

/// A share of a pool: the used part of the whole, kept between nothing and all.
pub open spec fn is_share(m: Model, used: Num, size: Num, v: Num) -> bool {
    let q = m(Calc::Quotient(used, size));
    &&& !size.positive() ==> v == num(ZERO)
    &&& size.positive() && num(ZERO).at_most(q) && q.at_most(num(0x3ff0_0000_0000_0000)) ==> v == q
    &&& size.positive() && q.below(num(ZERO)) ==> v == num(ZERO)
    &&& size.positive() && num(0x3ff0_0000_0000_0000).below(q) ==> v == num(
        0x3ff0_0000_0000_0000,
    )
}

/// Each pool lane tells the share of its own pool at the end of the interval.
/// What a scrape does not report reads as nothing.
pub proof fn law_pool_lanes_tell_their_pools(
    m: Model,
    e: Seq<EntryView>,
    i: int,
    used: Num,
    size: Num,
)
    requires
        in_time(e),
        0 <= i < e.len() - 1,
    ensures
        ({
            let g = graphs::graphs_of(m, e);
            let s = e[i + 1].sample;
            &&& reads(s, "sglang:kv_used_tokens"@, used) && reads(
                s,
                "sglang:max_total_num_tokens"@,
                size,
            ) && size.positive() && carries(s, family("sglang:kv_used_tokens"@)) ==> is_share(
                m,
                used,
                size,
                g.pool_kv[i],
            )
            &&& reads(s, "sglang:hicache_host_used_tokens"@, used) && reads(
                s,
                "sglang:hicache_host_total_tokens"@,
                size,
            ) && size.positive() && carries(s, family("sglang:hicache_host_used_tokens"@))
                ==> is_share(m, used, size, g.pool_host[i])
            &&& reads(s, "sglang:mamba_used_tokens"@, used) && reads(
                s,
                "sglang:mamba_available_tokens"@,
                size,
            ) && carries(s, family("sglang:mamba_used_tokens"@)) ==> is_share(
                m,
                used,
                m(Calc::Sum(used, size)),
                g.pool_mamba[i],
            )
            &&& reads(s, "sglang:swa_used_tokens"@, used) && reads(
                s,
                "sglang:swa_available_tokens"@,
                size,
            ) && carries(s, family("sglang:swa_used_tokens"@)) ==> is_share(
                m,
                used,
                m(Calc::Sum(used, size)),
                g.pool_swa[i],
            )
        }),
{
    let s = e[i + 1].sample;
    lemma_rows(m, e, i);
    lemma_reads(s, "sglang:kv_used_tokens"@);
    lemma_reads(s, "sglang:max_total_num_tokens"@);
    lemma_reads(s, "sglang:hicache_host_used_tokens"@);
    lemma_reads(s, "sglang:hicache_host_total_tokens"@);
    lemma_reads(s, "sglang:mamba_used_tokens"@);
    lemma_reads(s, "sglang:mamba_available_tokens"@);
    lemma_reads(s, "sglang:swa_used_tokens"@);
    lemma_reads(s, "sglang:swa_available_tokens"@);
    lemma_gauge_there(s, "sglang:kv_used_tokens"@);
    lemma_gauge_there(s, "sglang:hicache_host_used_tokens"@);
    lemma_gauge_there(s, "sglang:mamba_used_tokens"@);
    lemma_gauge_there(s, "sglang:swa_used_tokens"@);
}

proof fn lemma_gauge_there(s: SampleView, name: Seq<char>)
    ensures
        s.gauge(name) is Some <==> carries(s, family(name)),
{
    lemma_first_named(s.simple, name);
    lemma_carries(s, family(name));
    crate::select::law_first_where_carried(family(name), s.simple);
}

// ---- stalls --------------------------------------------------------------------

/// How many numbers have a property.
pub open spec fn how_many(v: Seq<Num>, p: spec_fn(Num) -> bool) -> nat
    decreases v.len(),
{
    if v.len() == 0 {
        0
    } else {
        how_many(v.drop_last(), p) + if p(v.last()) {
            1nat
        } else {
            0
        }
    }
}

/// One of the numbers, with at most half of them below it and fewer than the
/// rest above it.
pub open spec fn is_middle(v: Seq<Num>, x: Num) -> bool {
    &&& v.contains(x)
    &&& how_many(v, |y: Num| y.below(x)) <= v.len() / 2
    &&& how_many(v, |y: Num| x.below(y)) < v.len() - v.len() / 2
}

spec fn firsts(s: Seq<(Num, Num)>) -> Seq<Num> {
    Seq::new(s.len(), |i: int| s[i].0)
}

proof fn lemma_how_many_push(v: Seq<Num>, x: Num, p: spec_fn(Num) -> bool)
    ensures
        how_many(v.push(x), p) == how_many(v, p) + if p(x) {
            1nat
        } else {
            0
        },
{
    assert(v.push(x).drop_last() =~= v);
}

proof fn lemma_how_many_insert(s: Seq<(Num, Num)>, b: (Num, Num), p: spec_fn(Num) -> bool)
    ensures
        how_many(firsts(metrics::insert_bucket(s, b)), p) == how_many(firsts(s), p) + if p(b.0) {
            1nat
        } else {
            0
        },
    decreases s.len(),
{
    if s.len() > 0 && b.0.below(s.last().0) {
        let t = s.drop_last();
        lemma_how_many_insert(t, b, p);
        let u = metrics::insert_bucket(t, b);
        assert(firsts(u.push(s.last())) =~= firsts(u).push(s.last().0));
        lemma_how_many_push(firsts(u), s.last().0, p);
        assert(firsts(s) =~= firsts(t).push(s.last().0));
        lemma_how_many_push(firsts(t), s.last().0, p);
    } else {
        assert(firsts(s.push(b)) =~= firsts(s).push(b.0));
        lemma_how_many_push(firsts(s), b.0, p);
    }
}

proof fn lemma_how_many_ladder(s: Seq<(Num, Num)>, p: spec_fn(Num) -> bool)
    ensures
        how_many(firsts(metrics::ladder(s)), p) == how_many(firsts(s), p),
    decreases s.len(),
{
    if s.len() > 0 {
        let t = s.drop_last();
        lemma_how_many_ladder(t, p);
        lemma_how_many_insert(metrics::ladder(t), s.last(), p);
        assert(firsts(s) =~= firsts(t).push(s.last().0));
        lemma_how_many_push(firsts(t), s.last().0, p);
    } else {
        assert(firsts(metrics::ladder(s)) =~= firsts(s));
    }
}

proof fn lemma_how_many_at_most(v: Seq<Num>, p: spec_fn(Num) -> bool, lo: int, hi: int)
    requires
        0 <= lo <= hi <= v.len(),
        forall|j: int| 0 <= j < v.len() && !(lo <= j < hi) ==> !p(#[trigger] v[j]),
    ensures
        how_many(v, p) <= hi - lo,
    decreases v.len(),
{
    if v.len() > 0 {
        let t = v.drop_last();
        let top = if hi == v.len() {
            hi - 1
        } else {
            hi
        };
        let low = if lo > top {
            top
        } else {
            lo
        };
        assert forall|j: int| 0 <= j < t.len() && !(low <= j < top) implies !p(
            #[trigger] t[j],
        ) by {
            assert(t[j] == v[j]);
        }
        lemma_how_many_at_most(t, p, low, top);
        assert(v.last() == v[v.len() - 1]);
    }
}

proof fn lemma_below_or_above(v: Seq<Num>, x: Num, y: Num)
    requires
        x.below(y),
        forall|j: int| 0 <= j < v.len() ==> !(#[trigger] v[j]).nan(),
    ensures
        how_many(v, |z: Num| z.below(y)) + how_many(v, |z: Num| x.below(z)) >= v.len(),
    decreases v.len(),
{
    if v.len() > 0 {
        let t = v.drop_last();
        assert forall|j: int| 0 <= j < t.len() implies !(#[trigger] t[j]).nan() by {
            assert(t[j] == v[j]);
        }
        lemma_below_or_above(t, x, y);
        assert(!v[v.len() - 1].nan());
    }
}

/// The median is the middle of the numbers.
pub proof fn law_median_is_the_middle(v: Seq<Num>)
    requires
        v.len() > 0,
        forall|j: int| 0 <= j < v.len() ==> !(#[trigger] v[j]).nan(),
    ensures
        is_middle(v, graphs::median(v)),
{
    let pairs = graphs::paired(v);
    let t = metrics::ladder(pairs);
    let x = graphs::median(v);
    let k = (v.len() / 2) as int;
    assert forall|j: int| 0 <= j < pairs.len() implies !(#[trigger] pairs[j]).0.nan() by {
        assert(!v[j].nan());
    }
    metrics::law_ladder_is_sorted(pairs);
    assert(firsts(pairs) =~= v);
    let below = |y: Num| y.below(x);
    let above = |y: Num| x.below(y);
    lemma_how_many_ladder(pairs, below);
    lemma_how_many_ladder(pairs, above);
    let f = firsts(t);
    assert(f[k] == x);
    assert forall|j: int| 0 <= j < f.len() && !(0 <= j < k) implies !below(#[trigger] f[j]) by {
        if j > k {
            assert(t[k].0.at_most(t[j].0));
        }
    }
    lemma_how_many_at_most(f, below, 0, k);
    assert forall|j: int| 0 <= j < f.len() && !(k + 1 <= j < f.len()) implies !above(
        #[trigger] f[j],
    ) by {
        if j < k {
            assert(t[j].0.at_most(t[k].0));
        }
    }
    lemma_how_many_at_most(f, above, k + 1, f.len() as int);
    assert(t.contains(t[k]));
    let j = choose|j: int| 0 <= j < pairs.len() && pairs[j] == t[k];
    assert(v[j] == x);
}

proof fn lemma_one_middle(v: Seq<Num>, x: Num, y: Num)
    requires
        is_middle(v, x),
        is_middle(v, y),
        forall|j: int| 0 <= j < v.len() ==> !(#[trigger] v[j]).nan(),
    ensures
        x.at_most(y) && y.at_most(x),
{
    let i = choose|i: int| 0 <= i < v.len() && v[i] == x;
    let j = choose|j: int| 0 <= j < v.len() && v[j] == y;
    assert(!v[i].nan() && !v[j].nan());
    if x.below(y) {
        lemma_below_or_above(v, x, y);
    }
    if y.below(x) {
        lemma_below_or_above(v, y, x);
    }
}

/// An interval whose decode counters are there at both ends is stalled exactly
/// if requests run, prefill is positive, and four times its decode rate is below
/// the median of the window's decode rates.
pub proof fn law_stall_is_a_collapse_below_a_quarter(
    m: Model,
    g: Grid,
    e: Seq<EntryView>,
    i: int,
    running: Num,
    median: Num,
    k: int,
)
    requires
        in_time(e),
        0 <= i < e.len() - 1,
        g.exact(m),
        forall|j: int|
            0 <= j < graphs::graphs_of(m, e).decode.vals.len() ==> g.holds(
                #[trigger] graphs::graphs_of(m, e).decode.vals[j],
            ),
        is_middle(graphs::graphs_of(m, e).decode.vals, median),
        (g.steps)(median) == 4 * k,
        m(Calc::Product(num(0x3fd0_0000_0000_0000), median)) == (g.unit)(k),
        reads(e[i + 1].sample, "sglang:num_running_reqs"@, running),
        carries(e[i].sample, work("decode"@)),
        carries(e[i + 1].sample, work("decode"@)),
    ensures
        ({
            let w = graphs::graphs_of(m, e);
            w.stall[i] <==> running.positive() && w.prefill.vals[i].positive() && 4 * (g.steps)(
                w.decode.vals[i],
            ) < (g.steps)(median)
        }),
{
    let w = graphs::graphs_of(m, e);
    let p = graphs::pass_over(m, e);
    let v = w.decode.vals;
    lemma_rows(m, e, i);
    lemma_reads(e[i + 1].sample, "sglang:num_running_reqs"@);
    lemma_carries(e[i].sample, work("decode"@));
    lemma_carries(e[i + 1].sample, work("decode"@));
    assert forall|j: int| 0 <= j < v.len() implies !(#[trigger] v[j]).nan() by {
        assert(g.holds(v[j]));
        let s = (g.steps)(v[j]);
        assert((g.unit)(s).at_most((g.unit)(s)));
    }
    graphs::lemma_gaps_have_evidence(m, e);
    assert(!p.gap[i]);
    let mid = graphs::median(v);
    law_median_is_the_middle(v);
    lemma_one_middle(v, mid, median);
    let a = choose|a: int| 0 <= a < v.len() && v[a] == mid;
    let b = choose|b: int| 0 <= b < v.len() && v[b] == median;
    assert(g.holds(v[a]) && g.holds(v[b]));
    let (x, y) = ((g.steps)(mid), (g.steps)(median));
    assert((g.unit)(x).at_most((g.unit)(y)) && (g.unit)(y).at_most((g.unit)(x)));
    assert(x == y);
    assert(mid == median);
    assert(graphs::stall_bar(m, p) == (g.unit)(k));
    assert(g.holds(v[i]));
    let r = (g.steps)(v[i]);
    assert((g.unit)(k).at_most((g.unit)(r)) <==> k <= r);
    assert((g.unit)(r).at_most((g.unit)(r)));
    assert((g.unit)(k).at_most((g.unit)(k)));
    assert(v[i].below((g.unit)(k)) <==> r < k);
}

// ---- the newest interval ---------------------------------------------------------

/// A scrape that comes in has the graphs made of the last minute of scrapes, it
/// included.
pub proof fn law_graphs_are_of_the_last_minute(
    m: Model,
    h: HistoryView,
    t: u64,
    sample: SampleView,
    older: Seq<EntryView>,
    e: Seq<EntryView>,
)
    requires
        trailing(h.entries.push(EntryView { t, sample }), older, e, 60_000_000_000),
    ensures
        h.after(m, t, sample).graphs == Some(graphs::graphs_of(m, e)),
        forall|focus: usize|
            (#[trigger] crate::derive::derived_of(m, h.after(m, t, sample), focus)) matches Some(d)
                ==> d.graphs == graphs::graphs_of(m, e),
{
    lemma_windows();
    let all = h.entries.push(EntryView { t, sample });
    history::law_windows_survive_dropping(all, 60_000_000_000);
    law_window_is_the_trailing_time(all, older, e, 60_000_000_000);
}

/// The instantaneous rates are those of the newest interval.
pub proof fn law_instants_are_of_the_newest_interval(
    m: Model,
    h: HistoryView,
    focus: usize,
    e: Seq<EntryView>,
)
    requires
        in_time(e),
        e.len() >= 2,
        h.graphs == Some(graphs::graphs_of(m, e)),
    ensures
        crate::derive::derived_of(m, h, focus) matches Some(d) ==> {
            let (a, b) = (e[e.len() - 2], e[e.len() - 1]);
            &&& d.decode_instant is Some
            &&& d.prefill_instant is Some
            &&& tells_speed(m, work("decode"@), a, b, d.decode_instant->0)
            &&& tells_speed(m, work("prefill_compute"@), a, b, d.prefill_instant->0)
        },
{
    let i = e.len() - 2;
    lemma_rows(m, e, i);
    law_lanes_tell_their_intervals(m, e, i);
    if let Some(d) = crate::derive::derived_of(m, h, focus) {
        let g = graphs::graphs_of(m, e);
        assert(d.decode_instant == Some(g.decode.vals[i]));
        assert(d.prefill_instant == Some(g.prefill.vals[i]));
        assert(tells_interval(m, work("decode"@), e[i], e[i + 1], g.decode, i));
        assert(tells_interval(m, work("prefill_compute"@), e[i], e[i + 1], g.prefill, i));
    }
}

/// How fast counters climbed from one scrape to the next.
pub open spec fn tells_speed(m: Model, c: Choice, a: EntryView, b: EntryView, v: Num) -> bool {
    forall|g: Grid|
        g.exact(m) && #[trigger] rising(g, c, a.sample.simple, b.sample.simple) && keymap::sorted(
            a.sample.simple,
        ) ==> v == m(
            Calc::Quotient(
                (g.unit)(tally(g, c, b.sample.simple) - tally(g, c, a.sample.simple)),
                m(Calc::Seconds((b.t - a.t) as u64)),
            ),
        )
}

proof fn lemma_moved_tells_speed(m: Model, c: Choice, a: EntryView, b: EntryView)
    ensures
        tells_speed(
            m,
            c,
            a,
            b,
            m(
                Calc::Quotient(
                    rate::moved(m, c, a.sample.simple, b.sample.simple),
                    m(Calc::Seconds((b.t - a.t) as u64)),
                ),
            ),
        ),
{
    let v = m(
        Calc::Quotient(
            rate::moved(m, c, a.sample.simple, b.sample.simple),
            m(Calc::Seconds((b.t - a.t) as u64)),
        ),
    );
    assert forall|g: Grid|
        g.exact(m) && #[trigger] rising(g, c, a.sample.simple, b.sample.simple) && keymap::sorted(
            a.sample.simple,
        ) implies v == m(
        Calc::Quotient(
            (g.unit)(tally(g, c, b.sample.simple) - tally(g, c, a.sample.simple)),
            m(Calc::Seconds((b.t - a.t) as u64)),
        ),
    ) by {
        law_counters_move_by_their_difference(m, g, c, a.sample.simple, b.sample.simple);
    }
}

/// A counter of the selection reads less than in the scrape before.
pub open spec fn fell(c: Choice, a: SampleView, b: SampleView) -> bool {
    exists|i: int, j: int|
        0 <= i < a.simple.len() && 0 <= j < b.simple.len() && (#[trigger] a.simple[i]).0 == (
        #[trigger] b.simple[j]).0 && belongs(a.simple[i].0, c.name, c.label) && b.simple[j].1.below(
            a.simple[i].1,
        )
}

proof fn lemma_reset_is_fall(c: Choice, a: SampleView, b: SampleView)
    requires
        keymap::sorted(b.simple),
    ensures
        crate::derive::reset(c, a.simple, b.simple) <==> fell(c, a, b),
{
    if crate::derive::reset(c, a.simple, b.simple) {
        let i = choose|i: int|
            0 <= i < a.simple.len() && c.takes((#[trigger] a.simple[i]).0)
                && crate::derive::dropped(b.simple, a.simple[i]);
        keymap::law_lookup_finds_entries(b.simple, a.simple[i].0);
        let k = keymap::slot(b.simple, a.simple[i].0);
        assert(b.simple[k].0 == a.simple[i].0);
    }
    if fell(c, a, b) {
        let (i, j) = choose|i: int, j: int|
            0 <= i < a.simple.len() && 0 <= j < b.simple.len() && (#[trigger] a.simple[i]).0 == (
            #[trigger] b.simple[j]).0 && belongs(a.simple[i].0, c.name, c.label)
                && b.simple[j].1.below(a.simple[i].1);
        keymap::law_lookup_finds_entries(b.simple, a.simple[i].0);
        assert(keymap::lookup(b.simple, a.simple[i].0) == Some(b.simple[j].1));
        assert(c.takes(a.simple[i].0) && crate::derive::dropped(b.simple, a.simple[i]));
    }
}

/// The larger of a peak and a rate; a rate that is not above zero is no peak.
pub open spec fn outdone(peak: Option<Num>, v: Num) -> Option<Num> {
    match peak {
        Some(p) => if p.below(v) {
            Some(v)
        } else {
            Some(p)
        },
        None => if num(ZERO).below(v) {
            Some(v)
        } else {
            None
        },
    }
}

/// After an interval the peaks are the fastest rates so far: of decode, of
/// prefill, and of decode shared among the running requests. A decode or prefill
/// counter that fell clears all of them.
pub proof fn law_peaks_are_the_fastest_so_far(
    m: Model,
    p: Peaks,
    h: HistoryView,
    running: Num,
)
    requires
        h.entries.len() >= 2,
        h.entries[h.entries.len() - 2].t < h.entries[h.entries.len() - 1].t,
        keymap::sorted(h.entries[h.entries.len() - 1].sample.simple),
        reads(
            h.entries[h.entries.len() - 1].sample,
            "sglang:num_running_reqs"@,
            running,
        ),
    ensures
        ({
            let (a, b) = (h.entries[h.entries.len() - 2], h.entries[h.entries.len() - 1]);
            let q = crate::derive::peaks_after(m, p, h);
            if fell(work("decode"@), a.sample, b.sample) || fell(
                work("prefill_compute"@),
                a.sample,
                b.sample,
            ) {
                q.decode is None && q.prefill is None && q.decode_single is None
            } else {
                exists|x: Num, y: Num| #[trigger]
                    are_speeds(m, a, b, x, y) && {
                        &&& q.decode == outdone(p.decode, x)
                        &&& q.prefill == outdone(p.prefill, y)
                        &&& q.decode_single == if running.positive() {
                            outdone(p.decode_single, m(Calc::Quotient(x, running)))
                        } else {
                            p.decode_single
                        }
                    }
            }
        }),
{
    let (a, b) = (h.entries[h.entries.len() - 2], h.entries[h.entries.len() - 1]);
    lemma_reset_is_fall(work("decode"@), a.sample, b.sample);
    lemma_reset_is_fall(work("prefill_compute"@), a.sample, b.sample);
    lemma_moved_tells_speed(m, work("decode"@), a, b);
    lemma_moved_tells_speed(m, work("prefill_compute"@), a, b);
    lemma_reads(b.sample, "sglang:num_running_reqs"@);
    let dt = m(Calc::Seconds((b.t - a.t) as u64));
    let x = m(
        Calc::Quotient(rate::moved(m, work("decode"@), a.sample.simple, b.sample.simple), dt),
    );
    let y = m(
        Calc::Quotient(
            rate::moved(m, work("prefill_compute"@), a.sample.simple, b.sample.simple),
            dt,
        ),
    );
    assert(are_speeds(m, a, b, x, y));
}

/// The decode and the prefill rate of an interval.
pub open spec fn are_speeds(m: Model, a: EntryView, b: EntryView, decode: Num, prefill: Num) -> bool {
    &&& tells_speed(m, work("decode"@), a, b, decode)
    &&& tells_speed(m, work("prefill_compute"@), a, b, prefill)
}

/// How far the running requests are is the sum of their lengths, shared among
/// them.
pub proof fn law_progress_is_shared_among_the_running(
    m: Model,
    h: HistoryView,
    focus: usize,
    running: Num,
    lengths: Num,
)
    requires
        h.entries.len() > 0,
        reads(h.entries.last().sample, "sglang:num_running_reqs"@, running),
        reads(h.entries.last().sample, "sglang:decode_sum_seq_lens"@, lengths),
    ensures
        crate::derive::derived_of(m, h, focus) matches Some(d) ==> {
            &&& d.gen_progress is Some <==> running.positive() && carries(
                h.entries.last().sample,
                family("sglang:decode_sum_seq_lens"@),
            )
            &&& d.gen_progress matches Some(v) ==> v == m(Calc::Quotient(lengths, running))
        },
{
    let s = h.entries.last().sample;
    lemma_reads(s, "sglang:num_running_reqs"@);
    lemma_reads(s, "sglang:decode_sum_seq_lens"@);
    lemma_first_named(s.simple, "sglang:num_running_reqs"@);
    lemma_first_named(s.simple, "sglang:decode_sum_seq_lens"@);
    lemma_gauge_there(s, "sglang:decode_sum_seq_lens"@);
}

/// The model and the engine are named by the labels of the first series of
/// running requests.
pub proof fn law_engine_is_named_by_its_labels(
    m: Model,
    h: HistoryView,
    focus: usize,
    i: int,
    model: Seq<char>,
    engine: Seq<char>,
)
    requires
        h.entries.len() > 0,
        ({
            let s = h.entries.last().sample.simple;
            &&& 0 <= i < s.len()
            &&& s[i].0.name == "sglang:num_running_reqs"@
            &&& forall|j: int| 0 <= j < i ==> (#[trigger] s[j]).0.name != "sglang:num_running_reqs"@
        }),
    ensures
        crate::derive::derived_of(m, h, focus) matches Some(d) ==> {
            let labels = h.entries.last().sample.simple[i].0.labels;
            &&& only_value(labels, "model_name"@, model) ==> d.model == model
            &&& only_value(labels, "engine_type"@, engine) ==> d.engine == engine
        },
{
    let s = h.entries.last().sample.simple;
    lemma_first_labels(s, "sglang:num_running_reqs"@, i);
    let labels = s[i].0.labels;
    if only_value(labels, "model_name"@, model) {
        lemma_only_label(labels, "model_name"@, model);
    }
    if only_value(labels, "engine_type"@, engine) {
        lemma_only_label(labels, "engine_type"@, engine);
    }
}

/// A label is there, and has one value.
pub open spec fn only_value(labels: key::Labels, name: Seq<char>, v: Seq<char>) -> bool {
    &&& labels.contains((name, v))
    &&& forall|i: int| 0 <= i < labels.len() && (#[trigger] labels[i]).0 == name ==> labels[i].1 == v
}

proof fn lemma_only_label(labels: key::Labels, name: Seq<char>, v: Seq<char>)
    requires
        only_value(labels, name, v),
    ensures
        crate::derive::last_label(labels, name) == Some(v),
    decreases labels.len(),
{
    let i = choose|i: int| 0 <= i < labels.len() && labels[i] == (name, v);
    assert(labels[labels.len() - 1].0 == name ==> labels.last().1 == v);
    if labels.last().0 != name {
        let t = labels.drop_last();
        assert(t[i] == (name, v));
        assert(t.contains((name, v)));
        assert forall|j: int| 0 <= j < t.len() && (#[trigger] t[j]).0 == name implies t[j].1 == v by {
            assert(t[j] == labels[j]);
        }
        lemma_only_label(t, name, v);
    }
}

proof fn lemma_first_labels(s: Seq<(KeyView, Num)>, name: Seq<char>, i: int)
    requires
        0 <= i < s.len(),
        s[i].0.name == name,
        forall|j: int| 0 <= j < i ==> (#[trigger] s[j]).0.name != name,
    ensures
        crate::derive::first_labels(s, name) == s[i].0.labels,
    decreases s.len(),
{
    if i > 0 {
        assert(s[0].0.name != name);
        let t = s.drop_first();
        assert forall|j: int| 0 <= j < i - 1 implies (#[trigger] t[j]).0.name != name by {
            assert(t[j] == s[j + 1]);
        }
        lemma_first_labels(t, name, i - 1);
    }
}

proof fn lemma_few_are_flagged(
    m: Model,
    h: HistoryView,
    older: Seq<EntryView>,
    e: Seq<EntryView>,
    i: int,
    p: int,
    old: HistView,
    name: Seq<char>,
)
    requires
        0 <= i < 3,
        trailing(h.entries, older, e, nanos(i)),
        e.len() >= 2,
        only_one(e.last().sample.hist, name, p),
        keymap::lookup(e[0].sample.hist, e.last().sample.hist[p].0) == Some(old),
    ensures
        ({
            let now = e.last().sample.hist[p].1.count;
            let few = if now < old.count {
                now < 5
            } else {
                now - old.count < 5
            };
            crate::derive::latencies_of(m, h, family(name))[i].cumulative == few
        }),
{
    lemma_windows();
    law_window_is_the_trailing_time(h.entries, older, e, nanos(i));
    lemma_merged_one(m, family(name), e.last().sample.hist, e[0].sample.hist, p, old);
    let lat = crate::derive::latencies_of(m, h, family(name));
    assert(lat[i].cumulative == h.sparse(family(name), nanos(i)));
}

/// A latency entry falls back exactly where its window saw fewer than five
/// observations. A histogram that counts less than before was restarted, and all
/// that it counts is new.
#[verifier::spinoff_prover]
pub proof fn law_five_observations_are_enough(
    m: Model,
    h: HistoryView,
    focus: usize,
    older: Seq<EntryView>,
    e: Seq<EntryView>,
    i: int,
    p: int,
    old: HistView,
    name: Seq<char>,
)
    requires
        0 <= i < 3,
        trailing(h.entries, older, e, nanos(i)),
        e.len() >= 2,
        only_one(e.last().sample.hist, name, p),
        keymap::lookup(e[0].sample.hist, e.last().sample.hist[p].0) == Some(old),
    ensures
        crate::derive::derived_of(m, h, focus) matches Some(d) ==> {
            let now = e.last().sample.hist[p].1.count;
            let few = if now < old.count {
                now < 5
            } else {
                now - old.count < 5
            };
            &&& name == "sglang:time_to_first_token_seconds"@ ==> d.ttft[i].cumulative == few
            &&& name == "sglang:inter_token_latency_seconds"@ ==> d.itl[i].cumulative == few
            &&& name == "sglang:e2e_request_latency_seconds"@ ==> d.e2e[i].cumulative == few
            &&& name == "sglang:queue_time_seconds"@ ==> d.queue_time[i].cumulative == few
        },
{
    lemma_few_are_flagged(m, h, older, e, i, p, old, name);
}

// ---- histograms of several ranks ---------------------------------------------------

/// What the buckets of all histograms of a family counted since an earlier
/// scrape, in steps.
pub open spec fn counted_by_all(
    g: Grid,
    name: Seq<char>,
    s: Seq<(KeyView, HistView)>,
    since: Seq<(KeyView, HistView)>,
    j: int,
) -> int
    decreases s.len(),
{
    if s.len() == 0 {
        0
    } else {
        counted_by_all(g, name, s.drop_last(), since, j) + if s.last().0.name == name {
            counted(g, keymap::lookup(since, s.last().0)->0, s.last().1, j)
        } else {
            0
        }
    }
}

/// All histograms of the family were there before, with the same bounds.
pub open spec fn all_filled_up(
    g: Grid,
    name: Seq<char>,
    le: Seq<Num>,
    s: Seq<(KeyView, HistView)>,
    since: Seq<(KeyView, HistView)>,
) -> bool {
    forall|i: int|
        0 <= i < s.len() && (#[trigger] s[i]).0.name == name ==> keymap::lookup(since, s[i].0)
            is Some && filled_up(g, keymap::lookup(since, s[i].0)->0, s[i].1) && s[i].1.le == le
}

proof fn lemma_bound_at(b: Seq<(Num, Num)>, le: Seq<Num>, j: int)
    requires
        b.len() == le.len(),
        forall|i: int| 0 <= i < b.len() ==> (#[trigger] b[i]).0 == le[i],
        forall|a: int, c: int|
            0 <= a < c < le.len() ==> (#[trigger] le[a]).below(#[trigger] le[c]),
        0 <= j < b.len(),
    ensures
        quantile::bound_at(b, le[j]) == j,
    decreases j,
{
    if j > 0 {
        assert(le[0].below(le[j]));
        assert(b[0].0 == le[0]);
        let (t, u) = (b.drop_first(), le.drop_first());
        assert forall|i: int| 0 <= i < t.len() implies (#[trigger] t[i]).0 == u[i] by {
            assert(b[i + 1].0 == le[i + 1]);
        }
        assert forall|a: int, c: int| 0 <= a < c < u.len() implies (#[trigger] u[a]).below(
            #[trigger] u[c],
        ) by {
            assert(le[a + 1].below(le[c + 1]));
        }
        lemma_bound_at(t, u, j - 1);
        assert(u[j - 1] == le[j]);
    } else {
        assert(b[0].0 == le[0]);
    }
}

proof fn lemma_ladder_on_top(
    m: Model,
    g: Grid,
    base: Seq<(Num, Num)>,
    counts: Seq<int>,
    old: HistView,
    new: HistView,
    n: int,
)
    requires
        g.exact(m),
        filled_up(g, old, new),
        0 <= n <= new.le.len(),
        base.len() == new.le.len() == counts.len(),
        forall|j: int|
            0 <= j < base.len() ==> (#[trigger] base[j]) == (new.le[j], (g.unit)(counts[j])),
        forall|j: int|
            0 <= j < counts.len() ==> 0 <= #[trigger] counts[j] && counts[j] + counted(
                g,
                old,
                new,
                j,
            ) <= g.limit,
    ensures
        quantile::add_hist(m, base, new, Some(old), n) == Seq::new(
            base.len(),
            |j: int|
                (
                    new.le[j],
                    (g.unit)(
                        if j < n {
                            counts[j] + counted(g, old, new, j)
                        } else {
                            counts[j]
                        },
                    ),
                ),
        ),
    decreases n,
{
    let want = Seq::new(
        base.len(),
        |j: int|
            (
                new.le[j],
                (g.unit)(
                    if j < n {
                        counts[j] + counted(g, old, new, j)
                    } else {
                        counts[j]
                    },
                ),
            ),
    );
    if n > 0 {
        lemma_ladder_on_top(m, g, base, counts, old, new, n - 1);
        let b = quantile::add_hist(m, base, new, Some(old), n - 1);
        lemma_position(new.le, n - 1);
        lemma_bound_at(b, new.le, n - 1);
        let (x, y) = (old.counts[n - 1], new.counts[n - 1]);
        assert(g.holds(y) && g.holds(x));
        assert((g.unit)((g.steps)(x)).at_most((g.unit)((g.steps)(y))));
        assert(m(Calc::Difference(y, x)) == (g.unit)((g.steps)(y) - (g.steps)(x)));
        let (c, k) = (counts[n - 1], counted(g, old, new, n - 1));
        assert(m(Calc::Sum((g.unit)(c), (g.unit)(k))) == (g.unit)(c + k));
        assert(quantile::add_hist(m, base, new, Some(old), n) =~= want);
    } else {
        assert(base =~= want);
    }
}

/// The histograms of all ranks add up: bucket by bucket, what they counted since
/// an earlier scrape is what each of them counted, together.
pub proof fn law_histograms_of_all_ranks_add_up(
    m: Model,
    g: Grid,
    name: Seq<char>,
    le: Seq<Num>,
    s: Seq<(KeyView, HistView)>,
    since: Seq<(KeyView, HistView)>,
)
    requires
        g.exact(m),
        all_filled_up(g, name, le, s, since),
        forall|j: int| 0 <= j < le.len() ==> #[trigger] counted_by_all(g, name, s, since, j) <= g.limit,
        exists|i: int| 0 <= i < s.len() && (#[trigger] s[i]).0.name == name,
    ensures
        quantile::merged(m, family(name), s, Some(since)) == Seq::new(
            le.len(),
            |j: int| (le[j], (g.unit)(counted_by_all(g, name, s, since, j))),
        ),
        forall|j: int| 0 <= j < le.len() ==> 0 <= #[trigger] counted_by_all(g, name, s, since, j),
    decreases s.len(),
{
    let c = family(name);
    let t = s.drop_last();
    let want = Seq::new(
        le.len(),
        |j: int| (le[j], (g.unit)(counted_by_all(g, name, s, since, j))),
    );
    assert forall|i: int| 0 <= i < t.len() && (#[trigger] t[i]).0.name == name implies keymap::lookup(
        since,
        t[i].0,
    ) is Some && filled_up(g, keymap::lookup(since, t[i].0)->0, t[i].1) && t[i].1.le == le by {
        assert(t[i] == s[i]);
    }
    let last = s[s.len() - 1];
    if last.0.name == name {
        let old = keymap::lookup(since, last.0)->0;
        let new = last.1;
        assert(filled_up(g, old, new) && new.le == le);
        assert forall|j: int| 0 <= j < le.len() implies 0 <= #[trigger] counted(g, old, new, j) by {
            assert(g.holds(new.counts[j]) && g.holds(old.counts[j]));
        }
        if exists|i: int| 0 <= i < t.len() && (#[trigger] t[i]).0.name == name {
            assert forall|j: int| 0 <= j < le.len() implies #[trigger] counted_by_all(
                g,
                name,
                t,
                since,
                j,
            ) <= g.limit by {
                assert(counted_by_all(g, name, s, since, j) <= g.limit);
                assert(0 <= counted(g, old, new, j));
            }
            law_histograms_of_all_ranks_add_up(m, g, name, le, t, since);
            let base = quantile::merged(m, c, t, Some(since));
            let counts = Seq::new(le.len(), |j: int| counted_by_all(g, name, t, since, j));
            assert forall|j: int| 0 <= j < counts.len() implies 0 <= #[trigger] counts[j]
                && counts[j] + counted(g, old, new, j) <= g.limit by {
                assert(counted_by_all(g, name, s, since, j) <= g.limit);
            }
            lemma_ladder_on_top(m, g, base, counts, old, new, le.len() as int);
            assert forall|j: int| 0 <= j < le.len() implies 0 <= #[trigger] counted_by_all(
                g,
                name,
                s,
                since,
                j,
            ) by {
                assert(0 <= counted_by_all(g, name, t, since, j));
                assert(0 <= counted(g, old, new, j));
            }
        } else {
            assert forall|j: int| 0 <= j < t.len() implies !c.takes((#[trigger] t[j]).0) by {}
            lemma_merged_none(m, c, t, Some(since));
            lemma_ladder_between(m, g, old, new, le.len() as int);
            assert forall|j: int| 0 <= j < le.len() implies #[trigger] counted_by_all(
                g,
                name,
                s,
                since,
                j,
            ) == counted(g, old, new, j) by {
                lemma_counted_none(g, name, t, since, j);
            }
            assert forall|j: int| 0 <= j < le.len() implies 0 <= #[trigger] counted_by_all(
                g,
                name,
                s,
                since,
                j,
            ) by {
                assert(0 <= counted(g, old, new, j));
            }
        }
        assert(quantile::merged(m, c, s, Some(since)) =~= want);
    } else {
        let i = choose|i: int| 0 <= i < s.len() && (#[trigger] s[i]).0.name == name;
        assert(t[i].0.name == name);
        assert forall|j: int| 0 <= j < le.len() implies #[trigger] counted_by_all(
            g,
            name,
            t,
            since,
            j,
        ) <= g.limit by {
            assert(counted_by_all(g, name, s, since, j) <= g.limit);
        }
        law_histograms_of_all_ranks_add_up(m, g, name, le, t, since);
        assert forall|j: int| 0 <= j < le.len() implies #[trigger] counted_by_all(
            g,
            name,
            s,
            since,
            j,
        ) == counted_by_all(g, name, t, since, j) by {}
        assert(quantile::merged(m, c, s, Some(since)) =~= want);
    }
}

proof fn lemma_counted_none(
    g: Grid,
    name: Seq<char>,
    s: Seq<(KeyView, HistView)>,
    since: Seq<(KeyView, HistView)>,
    j: int,
)
    requires
        forall|i: int| 0 <= i < s.len() ==> (#[trigger] s[i]).0.name != name,
    ensures
        counted_by_all(g, name, s, since, j) == 0,
    decreases s.len(),
{
    if s.len() > 0 {
        let t = s.drop_last();
        assert forall|i: int| 0 <= i < t.len() implies (#[trigger] t[i]).0.name != name by {
            assert(t[i] == s[i]);
        }
        lemma_counted_none(g, name, t, since, j);
        assert(s[s.len() - 1].0.name != name);
    }
}

/// The stalls of a dashboard are the flagged intervals of its graphs, for the
/// last 5, 15 and 60 seconds.
pub proof fn law_stalls_are_the_flagged_intervals(
    m: Model,
    h: HistoryView,
    focus: usize,
    unit: spec_fn(int) -> Num,
    limit: int,
    steps: Seq<int>,
    i: int,
    budget: int,
)
    requires
        0 <= i < 3,
        crate::derive::exact(m, unit, limit),
        m(Calc::Seconds(nanos(i))) == unit(budget),
        0 <= budget <= limit,
    ensures
        crate::derive::derived_of(m, h, focus) matches Some(d) ==> {
            let f = d.graphs.stall;
            crate::derive::measured(d.graphs.dt, steps, unit, limit) && f.len()
                == d.graphs.dt.len() < u32::MAX ==> d.stalls.len() == 3 && d.stalls[i].count
                == crate::derive::reaching(f, steps, budget, steps.len() as int)
                && d.stalls[i].seconds == unit(
                crate::derive::covered(f, steps, budget, steps.len() as int),
            )
        },
{
    lemma_windows();
    if let Some(d) = crate::derive::derived_of(m, h, focus) {
        let (f, dt) = (d.graphs.stall, d.graphs.dt);
        if crate::derive::measured(dt, steps, unit, limit) && f.len() == dt.len() < u32::MAX {
            crate::derive::law_stalls_are_those_of_the_window(
                m,
                unit,
                limit,
                f,
                dt,
                steps,
                nanos(i),
                budget,
            );
        }
    }
}

// ---- windows with few observations -------------------------------------------------

/// A histogram whose bounds ascend, as a ladder of buckets.
pub open spec fn rungs_of(h: HistView) -> Seq<(Num, Num)> {
    Seq::new(h.le.len(), |j: int| (h.le[j], h.counts[j]))
}

proof fn lemma_ladder_alone(m: Model, h: HistView, n: int)
    requires
        h.le.len() == h.counts.len(),
        0 <= n <= h.le.len(),
        forall|i: int, j: int|
            0 <= i < j < h.le.len() ==> (#[trigger] h.le[i]).below(#[trigger] h.le[j]),
    ensures
        quantile::add_hist(m, seq![], h, None, n) == rungs_of(h).take(n),
    decreases n,
{
    if n > 0 {
        lemma_ladder_alone(m, h, n - 1);
        let b = quantile::add_hist(m, seq![], h, None, n - 1);
        assert forall|a: int| 0 <= a < b.len() implies (#[trigger] b[a]).0.below(h.le[n - 1]) by {
            assert(h.le[a].below(h.le[n - 1]));
        }
        lemma_bound_is_new(b, h.le[n - 1]);
        assert(b.push((h.le[n - 1], h.counts[n - 1])) =~= rungs_of(h).take(n));
    } else {
        assert(rungs_of(h).take(0) =~= seq![]);
    }
}

proof fn lemma_merged_alone(m: Model, c: Choice, s: Seq<(KeyView, HistView)>, p: int)
    requires
        c.label is None,
        only_one(s, c.name, p),
    ensures
        quantile::merged(m, c, s, None) == quantile::add_hist(
            m,
            seq![],
            s[p].1,
            None,
            quantile::rungs(s[p].1),
        ),
    decreases s.len(),
{
    let t = s.drop_last();
    if p == s.len() - 1 {
        assert forall|j: int| 0 <= j < t.len() implies !c.takes((#[trigger] t[j]).0) by {
            assert(t[j] == s[j]);
        }
        lemma_merged_none(m, c, t, None);
    } else {
        assert(!c.takes(s[s.len() - 1].0));
        assert(t[p] == s[p]);
        assert forall|j: int| 0 <= j < t.len() && (#[trigger] t[j]).0.name == c.name implies j
            == p by {
            assert(t[j] == s[j]);
        }
        lemma_merged_alone(m, c, t, p);
    }
}

/// Where a window saw fewer than five observations, its percentiles are those of
/// everything that the newest scrape's histogram counted.
pub proof fn law_few_observations_fall_back_to_all(
    m: Model,
    h: HistoryView,
    older: Seq<EntryView>,
    e: Seq<EntryView>,
    name: Seq<char>,
    w: u64,
    q: Num,
    p: int,
    old: HistView,
)
    requires
        trailing(h.entries, older, e, w),
        e.len() >= 2,
        only_one(e.last().sample.hist, name, p),
        keymap::lookup(e[0].sample.hist, e.last().sample.hist[p].0) == Some(old),
        old.count <= e.last().sample.hist[p].1.count < old.count + 5,
        ({
            let new = e.last().sample.hist[p].1;
            &&& new.le.len() == new.counts.len()
            &&& forall|i: int, j: int|
                0 <= i < j < new.le.len() ==> (#[trigger] new.le[i]).below(#[trigger] new.le[j])
        }),
    ensures
        h.quantile(m, family(name), q, w) == quantile::quantile_of(
            m,
            rungs_of(e.last().sample.hist[p].1),
            q,
        ),
{
    let c = family(name);
    let s = e.last().sample.hist;
    law_window_is_the_trailing_time(h.entries, older, e, w);
    lemma_merged_one(m, c, s, e[0].sample.hist, p, old);
    lemma_merged_alone(m, c, s, p);
    let new = s[p].1;
    lemma_ladder_alone(m, new, new.le.len() as int);
    assert(rungs_of(new).take(new.le.len() as int) =~= rungs_of(new));
    assert(h.entries.last() == e.last());
}

} // verus!
