//! The figures of the dashboard, computed from the ring of scrapes.
use crate::graphs;
use crate::graphs::{scan_entries, GraphsView};
use crate::history::{EntryView, History, HistoryView};
use crate::key::{KeyView, Labels};
use crate::key;
use crate::keymap;
use crate::metrics::Sample;
use crate::num;
use crate::num::{num, Calc, Model, Num, HALF, ONE, P95, P99, ZERO};
use crate::rate;
use crate::rate::interval_rate;
use crate::select::{fam, fam_labeled, Choice, Selector};
use crate::text::same;
use vstd::prelude::*;

pub use crate::graphs::{Graphs, Lane};
pub use crate::history::WINDOWS;

verus! {

/// What the windows are called.
pub const WIN_LABELS: [&'static str; 3] = ["5s", "15s", "60s"];

/// One cache pool (KV / mamba / SWA / host) with its current usage ratio.
#[derive(Clone, Copy, Debug)]
pub struct Pool {
    pub name: &'static str,
    pub usage: Num,
    /// Absolute counts backing the usage ratio, when the engine exposes them
    /// (engine-wide, summed across ranks).
    pub used: Option<Num>,
    pub total: Option<Num>,
    /// What the counts count: "tokens" for KV/host, "slots" for state pools
    /// (mamba, SWA).
    pub unit: &'static str,
}

#[verifier::ext_equal]
pub struct PoolView {
    pub name: Seq<char>,
    pub usage: Num,
    pub used: Option<Num>,
    pub total: Option<Num>,
    pub unit: Seq<char>,
}

impl View for Pool {
    type V = PoolView;

    open spec fn view(&self) -> PoolView {
        PoolView {
            name: self.name@,
            usage: self.usage,
            used: self.used,
            total: self.total,
            unit: self.unit@,
        }
    }
}

/// Rate values indexed by window (5s / 15s / 60s).
pub type Triple = [Option<Num>; 3];

/// p50/p95/p99 for one metric.
#[derive(Clone, Copy, Debug)]
pub struct Quantiles {
    pub p50: Option<Num>,
    pub p95: Option<Num>,
    pub p99: Option<Num>,
    /// The window is sparse: these are the percentiles of everything that was
    /// counted so far.
    pub cumulative: bool,
}

impl Quantiles {
    /// Whether there are percentiles, and not of the window itself.
    pub open spec fn fell_back(self) -> bool {
        self.cumulative && self.p50 is Some
    }

    pub fn is_fallback(&self) -> (r: bool)
        ensures
            r == self.fell_back(),
    {
        self.cumulative && self.p50.is_some()
    }
}

/// Quantiles for each window (5s / 15s / 60s).
pub type LatencyTriple = [Quantiles; 3];

/// Stalled intervals of a window, and the seconds that they cover in it.
#[derive(Clone, Copy, Debug)]
pub struct Stalls {
    /// Up to the largest 32-bit count.
    pub count: u32,
    pub seconds: Num,
}

/// Session peak rates, accumulated across the whole run. `decode_single` is
/// the fastest per-stream rate seen: an interval's decode rate divided by the
/// requests that were running during it.
#[derive(Clone, Copy, Debug)]
pub struct Peaks {
    pub decode: Option<Num>,
    pub prefill: Option<Num>,
    pub decode_single: Option<Num>,
}

/// No peaks yet.
pub open spec fn no_peaks() -> Peaks {
    Peaks { decode: None, prefill: None, decode_single: None }
}

impl Default for Peaks {
    fn default() -> (r: Peaks)
        ensures
            r == no_peaks(),
    {
        Peaks { decode: None, prefill: None, decode_single: None }
    }
}

/// A reading, or zero where there is none.
pub open spec fn or_zero(v: Option<Num>) -> Num {
    match v {
        Some(x) => x,
        None => num(ZERO),
    }
}

// ---- peaks ------------------------------------------------------------------

/// Whether a selected counter is below its earlier value: the engine restarted.
pub open spec fn reset(c: Choice, old: Seq<(KeyView, Num)>, new: Seq<(KeyView, Num)>) -> bool {
    exists|i: int|
        0 <= i < old.len() && c.takes((#[trigger] old[i]).0) && dropped(new, old[i])
}

/// Whether a series reads less than before.
pub open spec fn dropped(new: Seq<(KeyView, Num)>, e: (KeyView, Num)) -> bool {
    match keymap::lookup(new, e.0) {
        Some(v) => v.below(e.1),
        None => false,
    }
}

/// A peak after one more reading.
pub open spec fn raised(peak: Option<Num>, v: Num) -> Option<Num> {
    if or_zero(peak).below(v) {
        Some(v)
    } else {
        peak
    }
}

/// Whether the newest interval shows a restart of the engine.
pub open spec fn restarted(h: HistoryView) -> bool {
    let n = h.entries.len();
    let (old, new) = (h.entries[n - 2].sample.simple, h.entries[n - 1].sample.simple);
    reset(rate::tokens("decode"@), old, new) || reset(rate::tokens("prefill_compute"@), old, new)
}

/// Whether the ring ends with an interval.
pub open spec fn has_interval(h: HistoryView) -> bool {
    let n = h.entries.len();
    n >= 2 && h.entries[n - 2].t < h.entries[n - 1].t
}

/// The session peaks after the newest scrape interval. A counter reset (engine
/// restart) clears all of them: the old process's peaks are not this engine's.
pub open spec fn peaks_after(m: Model, p: Peaks, h: HistoryView) -> Peaks {
    if !has_interval(h) {
        p
    } else if restarted(h) {
        no_peaks()
    } else {
        let n = h.entries.len();
        let (a, b) = (h.entries[n - 2], h.entries[n - 1]);
        let dt = m(Calc::Seconds(graphs::elapsed(a.t, b.t)));
        let decode = m(
            Calc::Quotient(
                rate::moved(m, rate::tokens("decode"@), a.sample.simple, b.sample.simple),
                dt,
            ),
        );
        let prefill = m(
            Calc::Quotient(
                rate::moved(m, rate::tokens("prefill_compute"@), a.sample.simple, b.sample.simple),
                dt,
            ),
        );
        let running = graphs::running_at(b.sample);
        Peaks {
            decode: raised(p.decode, decode),
            prefill: raised(p.prefill, prefill),
            decode_single: if running.positive() {
                raised(p.decode_single, m(Calc::Quotient(decode, running)))
            } else {
                p.decode_single
            },
        }
    }
}

fn raise(peak: Option<Num>, v: Num) -> (r: Option<Num>)
    ensures
        r == raised(peak, v),
{
    if peak.unwrap_or(num(ZERO)).is_below(v) {
        Some(v)
    } else {
        peak
    }
}

fn has_reset(prev: &Sample, cur: &Sample, sel: Selector) -> (r: bool)
    requires
        cur.wf(),
    ensures
        r == reset(sel@, prev@.simple, cur@.simple),
{
    let mut i: usize = 0;
    while i < prev.simple.entries.len()
        invariant
            i <= prev.simple.entries.len(),
            cur.wf(),
            forall|j: int|
                0 <= j < i ==> !(sel@.takes((#[trigger] prev@.simple[j]).0) && dropped(
                    cur@.simple,
                    prev@.simple[j],
                )),
        decreases prev.simple.entries.len() - i,
    {
        let ghost e = prev@.simple[i as int];
        if sel.accepts(&prev.simple.entries[i].0) {
            if let Some(v) = cur.simple.get(&prev.simple.entries[i].0) {
                if v.is_below(prev.simple.entries[i].1) {
                    proof {
                        assert(dropped(cur@.simple, e));
                    }
                    return true;
                }
            }
        }
        i = i + 1;
    }
    false
}

/// Folds the newest scrape interval into the session peaks.
pub fn update_peaks<C: Fn(Calc) -> Num + Copy>(peaks: &mut Peaks, h: &History, calc: C)
    requires
        num::total(calc),
        h.wf(),
    ensures
        forall|m: Model| #[trigger]
            num::models(calc, m) ==> *final(peaks) == peaks_after(m, *old(peaks), h@),
        has_interval(h@) && restarted(h@) ==> *final(peaks) == no_peaks(),
        !has_interval(h@) ==> *final(peaks) == *old(peaks),
{
    let n: usize = h.len();
    if n < 2 {
        return;
    }
    let (prev, cur) = (&h.entries[n - 2], &h.entries[n - 1]);
    proof {
        assert(h@.entries[n - 2] == prev@);
        assert(h@.entries[n - 1] == cur@);
    }
    if prev.t >= cur.t {
        return;
    }
    if has_reset(
        &prev.sample,
        &cur.sample,
        fam_labeled("sglang:realtime_tokens_total", "mode", "decode"),
    ) || has_reset(
        &prev.sample,
        &cur.sample,
        fam_labeled("sglang:realtime_tokens_total", "mode", "prefill_compute"),
    ) {
        *peaks = Peaks::default();
        return;
    }
    let dt = calc(Calc::Seconds(cur.t - prev.t));
    let decode = calc(
        Calc::Quotient(interval_rate(&prev.sample, &cur.sample, "decode", calc), dt),
    );
    let prefill = calc(
        Calc::Quotient(interval_rate(&prev.sample, &cur.sample, "prefill_compute", calc), dt),
    );
    let running = cur.sample.gauge("sglang:num_running_reqs").unwrap_or(num(ZERO));
    let single = if running.is_positive() {
        raise(peaks.decode_single, calc(Calc::Quotient(decode, running)))
    } else {
        peaks.decode_single
    };
    *peaks = Peaks {
        decode: raise(peaks.decode, decode),
        prefill: raise(peaks.prefill, prefill),
        decode_single: single,
    };
}

/// A reading never lowers a peak, and a raised peak is the reading.
pub proof fn law_peaks_never_fall(peak: Option<Num>, v: Num)
    ensures
        raised(peak, v) == peak || (raised(peak, v) == Some(v) && or_zero(peak).below(v)),
        !v.nan() && !or_zero(peak).nan() ==> v.at_most(or_zero(raised(peak, v))),
{
}

/// Without a restart no peak falls over an interval: each stays, or gives way
/// to a higher one.
pub proof fn law_session_peaks_never_fall(m: Model, p: Peaks, h: HistoryView)
    requires
        has_interval(h) ==> !restarted(h),
    ensures
        ({
            let q = peaks_after(m, p, h);
            &&& q.decode == p.decode || or_zero(p.decode).below(or_zero(q.decode))
            &&& q.prefill == p.prefill || or_zero(p.prefill).below(or_zero(q.prefill))
            &&& q.decode_single == p.decode_single || or_zero(p.decode_single).below(
                or_zero(q.decode_single),
            )
        }),
{
}

/// A restart clears every peak, whatever it was.
pub proof fn law_restart_clears_peaks(m: Model, p: Peaks, h: HistoryView)
    requires
        has_interval(h),
        restarted(h),
    ensures
        peaks_after(m, p, h) == no_peaks(),
{
}

// ---- stalls -----------------------------------------------------------------

/// The stalled intervals in the last `budget` seconds, on top of `acc`. The
/// oldest interval may be cut off mid-way.
pub open spec fn stalls_within(
    m: Model,
    flags: Seq<bool>,
    dt: Seq<Num>,
    budget: Num,
    acc: Stalls,
) -> Stalls
    decreases dt.len(),
{
    if dt.len() == 0 || budget.at_most(num(ZERO)) {
        acc
    } else {
        let next = if flags.last() {
            Stalls {
                count: one_more(acc.count),
                seconds: m(Calc::Sum(acc.seconds, dt.last().smaller(budget))),
            }
        } else {
            acc
        };
        stalls_within(
            m,
            flags.drop_last(),
            dt.drop_last(),
            m(Calc::Difference(budget, dt.last())),
            next,
        )
    }
}

/// The next count; the largest one stays.
pub open spec fn one_more(count: u32) -> u32 {
    if count < u32::MAX {
        (count + 1) as u32
    } else {
        count
    }
}

pub open spec fn no_stalls() -> Stalls {
    Stalls { count: 0, seconds: num(ZERO) }
}

/// The stalled intervals of a window of `w` nanoseconds.
pub open spec fn stalls_of(m: Model, flags: Seq<bool>, dt: Seq<Num>, w: u64) -> Stalls {
    stalls_within(m, flags, dt, m(Calc::Seconds(w)), no_stalls())
}

fn fold_window<C: Fn(Calc) -> Num + Copy>(flags: &[bool], dt: &[Num], w: u64, calc: C) -> (r:
    Stalls)
    requires
        num::total(calc),
        flags@.len() >= dt@.len(),
    ensures
        forall|m: Model| #[trigger]
            num::models(calc, m) ==> r == stalls_of(m, flags@.take(dt@.len() as int), dt@, w),
{
    let mut budget = calc(Calc::Seconds(w));
    let mut acc = Stalls { count: 0, seconds: num(ZERO) };
    let mut j: usize = dt.len();
    proof {
        assert(dt@.take(j as int) =~= dt@);
    }
    while j > 0 && !budget.is_at_most(num(ZERO))
        invariant
            j <= dt.len(),
            flags@.len() >= dt@.len(),
            num::total(calc),
            forall|m: Model| #[trigger]
                num::models(calc, m) ==> stalls_of(
                    m,
                    flags@.take(dt@.len() as int),
                    dt@,
                    w,
                ) == stalls_within(
                    m,
                    flags@.take(j as int),
                    dt@.take(j as int),
                    budget,
                    acc,
                ),
        decreases j,
    {
        proof {
            assert(flags@.take(j as int).drop_last() =~= flags@.take(j - 1));
            assert(dt@.take(j as int).drop_last() =~= dt@.take(j - 1));
        }
        j = j - 1;
        if flags[j] {
            let take = dt[j].min(budget);
            acc = Stalls {
                count: acc.count.saturating_add(1),
                seconds: calc(Calc::Sum(acc.seconds, take)),
            };
        }
        budget = calc(Calc::Difference(budget, dt[j]));
    }
    acc
}

/// Folds the stall flags into the 5s/15s/60s time budgets: each window's
/// trailing span counts the flagged intervals and their frozen seconds. Flags
/// behind the last interval stand for nothing.
pub fn fold_stalls<C: Fn(Calc) -> Num + Copy>(flags: &[bool], dt: &[Num], calc: C) -> (r: [Stalls;
    3])
    requires
        num::total(calc),
        flags@.len() >= dt@.len(),
    ensures
        forall|m: Model| #[trigger]
            num::models(calc, m) ==> r@ == all_stalls(m, flags@.take(dt@.len() as int), dt@),
{
    let r = [
        fold_window(flags, dt, WINDOWS[0], calc),
        fold_window(flags, dt, WINDOWS[1], calc),
        fold_window(flags, dt, WINDOWS[2], calc),
    ];
    proof {
        assert forall|m: Model| #[trigger] num::models(calc, m) implies r@ == all_stalls(
            m,
            flags@.take(dt@.len() as int),
            dt@,
        ) by {
            assert(r@ =~= all_stalls(m, flags@.take(dt@.len() as int), dt@));
        }
    }
    r
}

/// The stalled intervals of each window.
pub open spec fn all_stalls(m: Model, flags: Seq<bool>, dt: Seq<Num>) -> Seq<Stalls> {
    seq![
        stalls_of(m, flags, dt, WINDOWS@[0]),
        stalls_of(m, flags, dt, WINDOWS@[1]),
        stalls_of(m, flags, dt, WINDOWS@[2]),
    ]
}

/// How many flags are set.
pub open spec fn flagged(flags: Seq<bool>) -> nat
    decreases flags.len(),
{
    if flags.len() == 0 {
        0
    } else {
        flagged(flags.drop_last()) + if flags.last() {
            1nat
        } else {
            0
        }
    }
}

proof fn lemma_stalls_within(m: Model, flags: Seq<bool>, dt: Seq<Num>, budget: Num, acc: Stalls)
    requires
        flags.len() == dt.len(),
    ensures
        acc.count <= stalls_within(m, flags, dt, budget, acc).count <= acc.count + flagged(flags),
        flagged(flags) == 0 ==> stalls_within(m, flags, dt, budget, acc) == acc,
    decreases dt.len(),
{
    if dt.len() > 0 && !budget.at_most(num(ZERO)) {
        let next = if flags.last() {
            Stalls {
                count: one_more(acc.count),
                seconds: m(Calc::Sum(acc.seconds, dt.last().smaller(budget))),
            }
        } else {
            acc
        };
        lemma_stalls_within(
            m,
            flags.drop_last(),
            dt.drop_last(),
            m(Calc::Difference(budget, dt.last())),
            next,
        );
    }
}

/// A window counts no more stalls than there are flagged intervals; without
/// any, it counts none and no frozen second.
pub proof fn law_stalls_come_from_flags(m: Model, flags: Seq<bool>, dt: Seq<Num>, w: u64)
    requires
        flags.len() == dt.len(),
    ensures
        stalls_of(m, flags, dt, w).count <= flagged(flags),
        flagged(flags) == 0 ==> stalls_of(m, flags, dt, w) == no_stalls(),
{
    lemma_stalls_within(m, flags, dt, m(Calc::Seconds(w)), no_stalls());
}

/// Durations on a grid of `unit` steps, on which the arithmetic is exact as far
/// as `limit` steps.
pub open spec fn exact(m: Model, unit: spec_fn(int) -> Num, limit: int) -> bool {
    &&& unit(0) == num(ZERO)
    &&& forall|a: int, b: int|
        -limit <= a <= limit && -limit <= b <= limit ==> (#[trigger] unit(a).at_most(unit(b))
            <==> a <= b)
    &&& forall|a: int, b: int|
        -limit <= a <= limit && -limit <= b <= limit && -limit <= a + b <= limit
            ==> #[trigger] m(Calc::Sum(unit(a), unit(b))) == unit(a + b)
    &&& forall|a: int, b: int|
        -limit <= a <= limit && -limit <= b <= limit && -limit <= a - b <= limit
            ==> #[trigger] m(Calc::Difference(unit(a), unit(b))) == unit(a - b)
}

/// Each duration is so many steps of the grid, and none is negative.
pub open spec fn measured(
    dt: Seq<Num>,
    steps: Seq<int>,
    unit: spec_fn(int) -> Num,
    limit: int,
) -> bool {
    &&& dt.len() == steps.len()
    &&& forall|i: int|
        0 <= i < dt.len() ==> #[trigger] dt[i] == unit(steps[i]) && 0 <= steps[i] <= limit
}

/// Flagged intervals that reach into the last `budget` steps, and the steps of
/// these that they cover.
spec fn frozen(flags: Seq<bool>, steps: Seq<int>, budget: int) -> (nat, int)
    decreases steps.len(),
{
    if steps.len() == 0 || budget <= 0 {
        (0, 0)
    } else {
        let last = steps.last();
        let before = frozen(flags.drop_last(), steps.drop_last(), budget - last);
        if flags.last() {
            (
                before.0 + 1,
                before.1 + if last <= budget {
                    last
                } else {
                    budget
                },
            )
        } else {
            before
        }
    }
}

proof fn lemma_frozen_fits(flags: Seq<bool>, steps: Seq<int>, budget: int)
    requires
        forall|i: int| 0 <= i < steps.len() ==> 0 <= #[trigger] steps[i],
    ensures
        0 <= frozen(flags, steps, budget).1,
        frozen(flags, steps, budget).1 <= budget || frozen(flags, steps, budget).1 == 0,
    decreases steps.len(),
{
    if steps.len() > 0 && budget > 0 {
        assert(0 <= steps[steps.len() - 1]);
        lemma_frozen_fits(flags.drop_last(), steps.drop_last(), budget - steps.last());
    }
}

proof fn lemma_frozen_grows(flags: Seq<bool>, steps: Seq<int>, a: int, b: int)
    requires
        a <= b,
        forall|i: int| 0 <= i < steps.len() ==> 0 <= #[trigger] steps[i],
    ensures
        frozen(flags, steps, a).0 <= frozen(flags, steps, b).0,
        frozen(flags, steps, a).1 <= frozen(flags, steps, b).1,
    decreases steps.len(),
{
    lemma_frozen_fits(flags, steps, b);
    if steps.len() > 0 && a > 0 {
        lemma_frozen_grows(
            flags.drop_last(),
            steps.drop_last(),
            a - steps.last(),
            b - steps.last(),
        );
    }
}

/// A count, or the largest one.
spec fn capped_count(n: nat) -> u32 {
    if n < u32::MAX {
        n as u32
    } else {
        u32::MAX
    }
}

proof fn lemma_stalls_are_frozen(
    m: Model,
    unit: spec_fn(int) -> Num,
    limit: int,
    flags: Seq<bool>,
    dt: Seq<Num>,
    steps: Seq<int>,
    budget: int,
    n: nat,
    done: int,
)
    requires
        exact(m, unit, limit),
        measured(dt, steps, unit, limit),
        flags.len() == dt.len(),
        -limit <= budget <= limit,
        0 <= done <= limit,
        done + budget <= limit,
    ensures
        stalls_within(
            m,
            flags,
            dt,
            unit(budget),
            Stalls { count: capped_count(n), seconds: unit(done) },
        ) == (Stalls {
            count: capped_count(n + frozen(flags, steps, budget).0),
            seconds: unit(done + frozen(flags, steps, budget).1),
        }),
    decreases dt.len(),
{
    assert(unit(budget).at_most(unit(0)) <==> budget <= 0);
    if dt.len() > 0 && budget > 0 {
        let last = steps.last();
        assert(dt[dt.len() - 1] == unit(last));
        let take = if last <= budget {
            last
        } else {
            budget
        };
        assert(unit(last).at_most(unit(budget)) <==> last <= budget);
        assert(unit(budget).at_most(unit(last)) <==> budget <= last);
        assert(unit(last).at_most(unit(last)));
        assert(unit(budget).at_most(unit(budget)));
        assert(unit(last).smaller(unit(budget)) == unit(take));
        assert(m(Calc::Sum(unit(done), unit(take))) == unit(done + take));
        assert(m(Calc::Difference(unit(budget), unit(last))) == unit(budget - last));
        assert forall|i: int| 0 <= i < dt.drop_last().len() implies #[trigger] dt.drop_last()[i]
            == unit(steps.drop_last()[i]) && 0 <= steps.drop_last()[i] <= limit by {
            assert(dt[i] == unit(steps[i]));
        }
        let (k, s) = if flags.last() {
            (n + 1, done + take)
        } else {
            (n, done)
        };
        lemma_stalls_are_frozen(
            m,
            unit,
            limit,
            flags.drop_last(),
            dt.drop_last(),
            steps.drop_last(),
            budget - last,
            k,
            s,
        );
    }
}

/// Where the durations can be added exactly, no window has more frozen seconds
/// than it is long, and a longer window has neither fewer stalls nor fewer
/// frozen seconds than a shorter one.
pub proof fn law_stalls_fit_their_windows(
    m: Model,
    unit: spec_fn(int) -> Num,
    limit: int,
    flags: Seq<bool>,
    dt: Seq<Num>,
    steps: Seq<int>,
    budgets: Seq<int>,
)
    requires
        exact(m, unit, limit),
        measured(dt, steps, unit, limit),
        flags.len() == dt.len(),
        budgets.len() == 3,
        forall|i: int|
            0 <= i < 3 ==> m(Calc::Seconds(WINDOWS@[i])) == unit(#[trigger] budgets[i]) && 0
                <= budgets[i] <= limit,
        budgets[0] <= budgets[1] <= budgets[2],
    ensures
        ({
            let s = all_stalls(m, flags, dt);
            &&& forall|i: int|
                0 <= i < 3 ==> (#[trigger] s[i]).seconds.at_most(m(Calc::Seconds(WINDOWS@[i])))
            &&& s[0].count <= s[1].count <= s[2].count
            &&& s[0].seconds.at_most(s[1].seconds)
            &&& s[1].seconds.at_most(s[2].seconds)
        }),
{
    let s = all_stalls(m, flags, dt);
    assert forall|i: int| 0 <= i < steps.len() implies 0 <= #[trigger] steps[i] by {
        assert(dt[i] == unit(steps[i]));
    }
    assert forall|i: int| 0 <= i < 3 implies (#[trigger] s[i]).seconds == unit(
        frozen(flags, steps, budgets[i]).1,
    ) && s[i].count == capped_count(frozen(flags, steps, budgets[i]).0) && 0 <= frozen(
        flags,
        steps,
        budgets[i],
    ).1 <= budgets[i] <= limit && m(Calc::Seconds(WINDOWS@[i])) == unit(budgets[i]) by {
        lemma_stalls_are_frozen(m, unit, limit, flags, dt, steps, budgets[i], 0, 0);
        lemma_frozen_fits(flags, steps, budgets[i]);
        assert(s[i] == stalls_of(m, flags, dt, WINDOWS@[i]));
    }
    lemma_frozen_grows(flags, steps, budgets[0], budgets[1]);
    lemma_frozen_grows(flags, steps, budgets[1], budgets[2]);
}

/// The steps from the end of the `i`-th interval to the present.
pub open spec fn behind(steps: Seq<int>, i: int) -> int
    decreases steps.len() - i,
{
    if i + 1 >= steps.len() {
        0
    } else {
        steps[i + 1] + behind(steps, i + 1)
    }
}

/// How many of the first `n` intervals are flagged and reach into the last
/// `budget` steps.
pub open spec fn reaching(flags: Seq<bool>, steps: Seq<int>, budget: int, n: int) -> nat
    decreases n,
{
    if n <= 0 {
        0
    } else {
        reaching(flags, steps, budget, n - 1) + if flags[n - 1] && behind(steps, n - 1) < budget {
            1nat
        } else {
            0
        }
    }
}

/// How many of the last `budget` steps the first `n` intervals cover with
/// flagged ones.
pub open spec fn covered(flags: Seq<bool>, steps: Seq<int>, budget: int, n: int) -> int
    decreases n,
{
    if n <= 0 {
        0
    } else {
        let room = budget - behind(steps, n - 1);
        covered(flags, steps, budget, n - 1) + if !flags[n - 1] || room <= 0 {
            0
        } else if steps[n - 1] <= room {
            steps[n - 1]
        } else {
            room
        }
    }
}

proof fn lemma_behind_drop(steps: Seq<int>, i: int)
    requires
        0 <= i < steps.len() - 1,
    ensures
        behind(steps, i) == behind(steps.drop_last(), i) + steps.last(),
    decreases steps.len() - i,
{
    if i + 1 < steps.len() - 1 {
        lemma_behind_drop(steps, i + 1);
        assert(steps.drop_last()[i + 1] == steps[i + 1]);
    } else {
        assert(behind(steps, i + 1) == 0);
    }
}

proof fn lemma_behind_grows(steps: Seq<int>, i: int)
    requires
        0 <= i < steps.len(),
        forall|j: int| 0 <= j < steps.len() ==> 0 <= #[trigger] steps[j],
    ensures
        0 <= behind(steps, i),
    decreases steps.len() - i,
{
    if i + 1 < steps.len() {
        lemma_behind_grows(steps, i + 1);
        assert(0 <= steps[i + 1]);
    }
}

proof fn lemma_reaching_drop(flags: Seq<bool>, steps: Seq<int>, budget: int, n: int)
    requires
        0 <= n < steps.len(),
        flags.len() == steps.len(),
    ensures
        reaching(flags, steps, budget, n) == reaching(
            flags.drop_last(),
            steps.drop_last(),
            budget - steps.last(),
            n,
        ),
        covered(flags, steps, budget, n) == covered(
            flags.drop_last(),
            steps.drop_last(),
            budget - steps.last(),
            n,
        ),
    decreases n,
{
    if n > 0 {
        lemma_reaching_drop(flags, steps, budget, n - 1);
        lemma_behind_drop(steps, n - 1);
        assert(flags.drop_last()[n - 1] == flags[n - 1]);
        assert(steps.drop_last()[n - 1] == steps[n - 1]);
    }
}

proof fn lemma_reaching_nothing(flags: Seq<bool>, steps: Seq<int>, budget: int, n: int)
    requires
        0 <= n <= steps.len(),
        flags.len() == steps.len(),
        budget <= 0,
        forall|j: int| 0 <= j < steps.len() ==> 0 <= #[trigger] steps[j],
    ensures
        reaching(flags, steps, budget, n) == 0,
        covered(flags, steps, budget, n) == 0,
    decreases n,
{
    if n > 0 {
        lemma_reaching_nothing(flags, steps, budget, n - 1);
        lemma_behind_grows(steps, n - 1);
    }
}

proof fn lemma_frozen_is_covered(flags: Seq<bool>, steps: Seq<int>, budget: int)
    requires
        flags.len() == steps.len(),
        forall|j: int| 0 <= j < steps.len() ==> 0 <= #[trigger] steps[j],
    ensures
        frozen(flags, steps, budget).0 == reaching(flags, steps, budget, steps.len() as int),
        frozen(flags, steps, budget).1 == covered(flags, steps, budget, steps.len() as int),
    decreases steps.len(),
{
    let n = steps.len() as int;
    if budget <= 0 {
        lemma_reaching_nothing(flags, steps, budget, n);
    } else if n > 0 {
        let (f, s) = (flags.drop_last(), steps.drop_last());
        assert forall|j: int| 0 <= j < s.len() implies 0 <= #[trigger] s[j] by {
            assert(s[j] == steps[j]);
        }
        lemma_frozen_is_covered(f, s, budget - steps.last());
        lemma_reaching_drop(flags, steps, budget, n - 1);
        assert(behind(steps, n - 1) == 0);
    }
}

/// A window counts the flagged intervals that end within it, and adds up their
/// time, of the oldest one only what is within the window.
pub proof fn law_stalls_are_those_of_the_window(
    m: Model,
    unit: spec_fn(int) -> Num,
    limit: int,
    flags: Seq<bool>,
    dt: Seq<Num>,
    steps: Seq<int>,
    w: u64,
    budget: int,
)
    requires
        exact(m, unit, limit),
        measured(dt, steps, unit, limit),
        flags.len() == dt.len(),
        flags.len() < u32::MAX,
        m(Calc::Seconds(w)) == unit(budget),
        0 <= budget <= limit,
    ensures
        stalls_of(m, flags, dt, w).count == reaching(flags, steps, budget, steps.len() as int),
        stalls_of(m, flags, dt, w).seconds == unit(
            covered(flags, steps, budget, steps.len() as int),
        ),
{
    assert forall|i: int| 0 <= i < steps.len() implies 0 <= #[trigger] steps[i] by {
        assert(dt[i] == unit(steps[i]));
    }
    lemma_stalls_are_frozen(m, unit, limit, flags, dt, steps, budget, 0, 0);
    lemma_frozen_is_covered(flags, steps, budget);
    lemma_reaching_at_most(flags, steps, budget, steps.len() as int);
}

proof fn lemma_reaching_at_most(flags: Seq<bool>, steps: Seq<int>, budget: int, n: int)
    requires
        0 <= n,
    ensures
        reaching(flags, steps, budget, n) <= n,
    decreases n,
{
    if n > 0 {
        lemma_reaching_at_most(flags, steps, budget, n - 1);
    }
}

// ---- windows ----------------------------------------------------------------

/// One pass over the longest window of the ring.
pub fn scan_window<C: Fn(Calc) -> Num + Copy>(h: &History, calc: C) -> (r: Graphs)
    requires
        num::total(calc),
        h.wf(),
    ensures
        forall|m: Model| #[trigger]
            num::models(calc, m) ==> r@ == graphs::graphs_of(m, h@.window(WINDOWS@[2])),
        r@.parallel(),
{
    let e = h.window_entries(WINDOWS[2]);
    proof {
        assert forall|i: int| 0 <= i < e@.len() implies (#[trigger] e@[i]).sample.wf() by {
            let k = choose|k: int| 0 <= k < h.entries@.len() && h.entries@[k] == e@[i];
            assert(h@.entries[k].sample.wf());
        }
    }
    scan_entries(e, calc)
}

/// The rate of the selected counters over each window.
pub open spec fn rates_of(m: Model, h: HistoryView, c: Choice) -> Seq<Option<Num>> {
    seq![h.rate(m, c, WINDOWS@[0]), h.rate(m, c, WINDOWS@[1]), h.rate(m, c, WINDOWS@[2])]
}

fn rate_triple<C: Fn(Calc) -> Num + Copy>(h: &History, sel: Selector, calc: C) -> (r: Triple)
    requires
        num::total(calc),
        h.wf(),
    ensures
        forall|m: Model| #[trigger] num::models(calc, m) ==> r@ == rates_of(m, h@, sel@),
{
    let r = [
        h.rate_sum(sel, WINDOWS[0], calc),
        h.rate_sum(sel, WINDOWS[1], calc),
        h.rate_sum(sel, WINDOWS[2], calc),
    ];
    proof {
        assert forall|m: Model| #[trigger] num::models(calc, m) implies r@ == rates_of(
            m,
            h@,
            sel@,
        ) by {
            assert(r@ =~= rates_of(m, h@, sel@));
        }
    }
    r
}

/// The percentiles of a histogram family over a window.
pub open spec fn percentiles(m: Model, h: HistoryView, c: Choice, w: u64) -> Quantiles {
    Quantiles {
        p50: h.quantile(m, c, num(HALF), w),
        p95: h.quantile(m, c, num(P95), w),
        p99: h.quantile(m, c, num(P99), w),
        cumulative: h.sparse(c, w),
    }
}

/// The percentiles of a histogram family over each window.
pub open spec fn latencies_of(m: Model, h: HistoryView, c: Choice) -> Seq<Quantiles> {
    seq![
        percentiles(m, h, c, WINDOWS@[0]),
        percentiles(m, h, c, WINDOWS@[1]),
        percentiles(m, h, c, WINDOWS@[2]),
    ]
}

fn find_percentiles<C: Fn(Calc) -> Num + Copy>(h: &History, sel: Selector, w: u64, calc: C) -> (r:
    Quantiles)
    requires
        num::total(calc),
        h.wf(),
    ensures
        forall|m: Model| #[trigger] num::models(calc, m) ==> r == percentiles(m, h@, sel@, w),
{
    Quantiles {
        p50: h.hist_quantile(sel, num(HALF), w, calc),
        p95: h.hist_quantile(sel, num(P95), w, calc),
        p99: h.hist_quantile(sel, num(P99), w, calc),
        cumulative: h.is_sparse(sel, w),
    }
}

fn latency_triple<C: Fn(Calc) -> Num + Copy>(h: &History, name: &str, calc: C) -> (r: LatencyTriple)
    requires
        num::total(calc),
        h.wf(),
    ensures
        forall|m: Model| #[trigger]
            num::models(calc, m) ==> r@ == latencies_of(m, h@, Choice::of(name)),
{
    let sel = fam(name);
    let r = [
        find_percentiles(h, sel, WINDOWS[0], calc),
        find_percentiles(h, sel, WINDOWS[1], calc),
        find_percentiles(h, sel, WINDOWS[2], calc),
    ];
    proof {
        assert forall|m: Model| #[trigger] num::models(calc, m) implies r@ == latencies_of(
            m,
            h@,
            sel@,
        ) by {
            assert(r@ =~= latencies_of(m, h@, sel@));
        }
    }
    r
}

/// The share of prefill tokens that a cache tier served: its rate over the rate
/// of all of them, over the longest window. The engine updates these counters
/// on its log interval (tens of seconds), so shorter windows say nothing.
pub open spec fn tier_share(m: Model, h: HistoryView, tier: &str) -> Option<Num> {
    let hit = h.rate(
        m,
        Choice::labeled("sglang:prefill_effective_tokens_total", "mode", tier),
        WINDOWS@[2],
    );
    let total = h.rate(m, Choice::of("sglang:prefill_effective_tokens_total"), WINDOWS@[2]);
    match (hit, total) {
        (Some(a), Some(b)) => if b.at_most(num(ZERO)) {
            None
        } else {
            Some(m(Calc::Quotient(a, b)).between(num(ZERO), num(ONE)))
        },
        _ => None,
    }
}

fn l2_hit_rate<C: Fn(Calc) -> Num + Copy>(h: &History, tier: &str, calc: C) -> (r: Option<Num>)
    requires
        num::total(calc),
        h.wf(),
    ensures
        forall|m: Model| #[trigger] num::models(calc, m) ==> r == tier_share(m, h@, tier),
{
    let hit = h.rate_sum(
        fam_labeled("sglang:prefill_effective_tokens_total", "mode", tier),
        WINDOWS[2],
        calc,
    );
    let total = h.rate_sum(fam("sglang:prefill_effective_tokens_total"), WINDOWS[2], calc);
    match (hit, total) {
        (Some(a), Some(b)) => if b.is_at_most(num(ZERO)) {
            None
        } else {
            Some(calc(Calc::Quotient(a, b)).clamp(num(ZERO), num(ONE)))
        },
        _ => None,
    }
}

// ---- pools ------------------------------------------------------------------

/// A ratio of counts where the whole is known and not empty.
pub open spec fn ratio(m: Model, used: Option<Num>, total: Option<Num>) -> Option<Num> {
    match (used, total) {
        (Some(u), Some(t)) => if t.positive() {
            Some(m(Calc::Quotient(u, t)).between(num(ZERO), num(ONE)))
        } else {
            None
        },
        _ => None,
    }
}

fn find_ratio<C: Fn(Calc) -> Num + Copy>(used: Option<Num>, total: Option<Num>, calc: C) -> (r:
    Option<Num>)
    requires
        num::total(calc),
    ensures
        forall|m: Model| #[trigger] num::models(calc, m) ==> r == ratio(m, used, total),
{
    match (used, total) {
        (Some(u), Some(t)) => if t.is_positive() {
            Some(calc(Calc::Quotient(u, t)).clamp(num(ZERO), num(ONE)))
        } else {
            None
        },
        _ => None,
    }
}

/// The KV pool, once the engine reports its usage. Every rank reports the same
/// logical pool, so the counts are those of one rank. The ratio of the counts
/// goes before the usage gauge, which the engine updates less often.
pub open spec fn kv_pool_of(m: Model, h: HistoryView) -> Option<PoolView> {
    let used = h.gauge(Choice::of("sglang:kv_used_tokens"));
    let total = h.gauge(Choice::of("sglang:max_total_num_tokens"));
    match h.gauge(Choice::of("sglang:token_usage")) {
        Some(u) => Some(
            PoolView {
                name: "KV"@,
                usage: match ratio(m, used, total) {
                    Some(x) => x,
                    None => u,
                },
                used,
                total,
                unit: "tokens"@,
            },
        ),
        None => None,
    }
}

fn kv_pool<C: Fn(Calc) -> Num + Copy>(h: &History, calc: C) -> (r: Option<Pool>)
    requires
        num::total(calc),
    ensures
        forall|m: Model| #[trigger]
            num::models(calc, m) ==> pool_view(r) == kv_pool_of(m, h@),
{
    let used = h.gauge_pred(fam("sglang:kv_used_tokens"));
    let total = h.gauge_pred(fam("sglang:max_total_num_tokens"));
    match h.gauge_pred(fam("sglang:token_usage")) {
        Some(u) => {
            let usage = find_ratio(used, total, calc).unwrap_or(u);
            Some(Pool { name: "KV", usage, used, total, unit: "tokens" })
        },
        None => None,
    }
}

pub open spec fn pool_view(p: Option<Pool>) -> Option<PoolView> {
    match p {
        Some(x) => Some(x@),
        None => None,
    }
}

/// Whether a scrape of the window had a nonzero free or used reading. A pool at
/// exactly 100% (nothing free) still has data.
pub open spec fn ever_live(e: Seq<EntryView>, avail: Seq<char>, used: Seq<char>) -> bool {
    exists|i: int| 0 <= i < e.len() && live(#[trigger] e[i], avail, used)
}

pub open spec fn live(e: EntryView, avail: Seq<char>, used: Seq<char>) -> bool {
    or_zero(e.sample.gauge(avail)).positive() || or_zero(e.sample.gauge(used)).positive()
}

/// The latest reading of a gauge in the window.
pub open spec fn latest(e: Seq<EntryView>, name: Seq<char>) -> Option<Num>
    decreases e.len(),
{
    if e.len() == 0 {
        None
    } else {
        match e.last().sample.gauge(name) {
            Some(u) => Some(u),
            None => latest(e.drop_last(), name),
        }
    }
}

fn is_ever_live(h: &History, avail: &str, used: &str) -> (r: bool)
    ensures
        r == ever_live(h@.window(WINDOWS@[2]), avail@, used@),
{
    let e = h.window_entries(WINDOWS[2]);
    let ghost all = graphs::entries_view(e@);
    let mut i: usize = 0;
    while i < e.len()
        invariant
            i <= e.len(),
            all == graphs::entries_view(e@),
            all == h@.window(WINDOWS@[2]),
            forall|j: int| 0 <= j < i ==> !live(#[trigger] all[j], avail@, used@),
        decreases e.len() - i,
    {
        proof {
            assert(all[i as int] == e@[i as int]@);
        }
        if e[i].sample.gauge(avail).unwrap_or(num(ZERO)).is_positive() || e[i].sample.gauge(
            used,
        ).unwrap_or(num(ZERO)).is_positive() {
            proof {
                assert(live(all[i as int], avail@, used@));
            }
            return true;
        }
        i = i + 1;
    }
    false
}

fn find_latest(h: &History, name: &str) -> (r: Option<Num>)
    ensures
        r == latest(h@.window(WINDOWS@[2]), name@),
{
    let e = h.window_entries(WINDOWS[2]);
    let ghost all = graphs::entries_view(e@);
    let mut n: usize = e.len();
    proof {
        assert(all.take(n as int) =~= all);
    }
    while n > 0
        invariant
            n <= e.len(),
            all == graphs::entries_view(e@),
            all == h@.window(WINDOWS@[2]),
            latest(all, name@) == latest(all.take(n as int), name@),
        decreases n,
    {
        proof {
            assert(all.take(n as int).drop_last() =~= all.take(n - 1));
            assert(all.take(n as int).last() == e@[n - 1]@);
        }
        n = n - 1;
        if let Some(u) = e[n].sample.gauge(name) {
            return Some(u);
        }
    }
    None
}

/// A pool of state slots, once it had data inside the longest window: idle
/// lapses do not make it vanish. Its counts are summed across ranks. Where they
/// give no ratio, the latest usage reading of the window is shown.
pub open spec fn slot_pool_of(
    m: Model,
    h: HistoryView,
    name: &str,
    avail: &str,
    used: &str,
    usage: &str,
) -> Option<PoolView> {
    let e = h.window(WINDOWS@[2]);
    if ever_live(e, avail@, used@) {
        let u = h.gauge_sum(m, Choice::of(used));
        let total = match (u, h.gauge_sum(m, Choice::of(avail))) {
            (Some(x), Some(y)) => Some(m(Calc::Sum(x, y))),
            _ => None,
        };
        Some(
            PoolView {
                name: name@,
                usage: match ratio(m, u, total) {
                    Some(x) => x,
                    None => or_zero(latest(e, usage@)),
                },
                used: u,
                total,
                unit: "slots"@,
            },
        )
    } else {
        None
    }
}

fn slot_pool<C: Fn(Calc) -> Num + Copy>(
    h: &History,
    name: &'static str,
    avail: &str,
    used: &str,
    usage: &str,
    calc: C,
) -> (r: Option<Pool>)
    requires
        num::total(calc),
    ensures
        forall|m: Model| #[trigger]
            num::models(calc, m) ==> pool_view(r) == slot_pool_of(m, h@, name, avail, used, usage),
        r is Some <==> ever_live(h@.window(WINDOWS@[2]), avail@, used@),
{
    if !is_ever_live(h, avail, used) {
        return None;
    }
    let u = h.sum_gauge(fam(used), calc);
    let total = match (u, h.sum_gauge(fam(avail), calc)) {
        (Some(x), Some(y)) => Some(calc(Calc::Sum(x, y))),
        _ => None,
    };
    let share = match find_ratio(u, total, calc) {
        Some(x) => x,
        None => find_latest(h, usage).unwrap_or(num(ZERO)),
    };
    Some(Pool { name, usage: share, used: u, total, unit: "slots" })
}

/// The host (L2) tier, once the engine reports capacity for it.
pub open spec fn host_pool_of(m: Model, h: HistoryView) -> Option<PoolView> {
    match h.gauge_sum(m, Choice::of("sglang:hicache_host_total_tokens")) {
        Some(total) => if total.at_most(num(ZERO)) {
            None
        } else {
            let used = or_zero(h.gauge_sum(m, Choice::of("sglang:hicache_host_used_tokens")));
            Some(
                PoolView {
                    name: "host"@,
                    usage: m(Calc::Quotient(used, total)),
                    used: Some(used),
                    total: Some(total),
                    unit: "tokens"@,
                },
            )
        },
        None => None,
    }
}

fn host_pool<C: Fn(Calc) -> Num + Copy>(h: &History, calc: C) -> (r: Option<Pool>)
    requires
        num::total(calc),
    ensures
        forall|m: Model| #[trigger] num::models(calc, m) ==> pool_view(r) == host_pool_of(m, h@),
{
    match h.sum_gauge(fam("sglang:hicache_host_total_tokens"), calc) {
        Some(total) => {
            if total.is_at_most(num(ZERO)) {
                return None;
            }
            let used = h.sum_gauge(fam("sglang:hicache_host_used_tokens"), calc).unwrap_or(
                num(ZERO),
            );
            Some(
                Pool {
                    name: "host",
                    usage: calc(Calc::Quotient(used, total)),
                    used: Some(used),
                    total: Some(total),
                    unit: "tokens",
                },
            )
        },
        None => None,
    }
}

/// The pools that are there, in order.
pub open spec fn present(s: Seq<Option<PoolView>>) -> Seq<PoolView>
    decreases s.len(),
{
    if s.len() == 0 {
        seq![]
    } else {
        match s.last() {
            Some(p) => present(s.drop_last()).push(p),
            None => present(s.drop_last()),
        }
    }
}

/// The pools of the dashboard: KV, mamba, SWA and host, as far as there is data.
pub open spec fn pools_of(m: Model, h: HistoryView) -> Seq<PoolView> {
    present(
        seq![
            kv_pool_of(m, h),
            slot_pool_of(
                m,
                h,
                "mamba",
                "sglang:mamba_available_tokens",
                "sglang:mamba_used_tokens",
                "sglang:mamba_usage",
            ),
            slot_pool_of(
                m,
                h,
                "SWA",
                "sglang:swa_available_tokens",
                "sglang:swa_used_tokens",
                "sglang:swa_token_usage",
            ),
            host_pool_of(m, h),
        ],
    )
}

pub open spec fn pools_view(s: Seq<Pool>) -> Seq<PoolView> {
    Seq::new(s.len(), |i: int| s[i]@)
}

fn find_pools<C: Fn(Calc) -> Num + Copy>(h: &History, calc: C) -> (r: Vec<Pool>)
    requires
        num::total(calc),
    ensures
        forall|m: Model| #[trigger]
            num::models(calc, m) ==> pools_view(r@) == pools_of(m, h@),
{
    let all = [
        kv_pool(h, calc),
        slot_pool(
            h,
            "mamba",
            "sglang:mamba_available_tokens",
            "sglang:mamba_used_tokens",
            "sglang:mamba_usage",
            calc,
        ),
        slot_pool(
            h,
            "SWA",
            "sglang:swa_available_tokens",
            "sglang:swa_used_tokens",
            "sglang:swa_token_usage",
            calc,
        ),
        host_pool(h, calc),
    ];
    let ghost s = Seq::new(4, |i: int| pool_view(all@[i]));
    let mut out: Vec<Pool> = Vec::new();
    let mut i: usize = 0;
    while i < 4
        invariant
            i <= 4,
            all@.len() == 4,
            s == Seq::new(4, |i: int| pool_view(all@[i])),
            pools_view(out@) == present(s.take(i as int)),
        decreases 4 - i,
    {
        proof {
            assert(s.take(i + 1).drop_last() =~= s.take(i as int));
        }
        let ghost before = out@;
        if let Some(p) = all[i] {
            out.push(p);
            proof {
                assert(pools_view(out@) =~= pools_view(before).push(p@));
            }
        }
        i = i + 1;
    }
    proof {
        assert(s.take(4) =~= s);
        assert forall|m: Model| #[trigger] num::models(calc, m) implies pools_view(out@)
            == pools_of(m, h@) by {
            assert(s =~= seq![
                kv_pool_of(m, h@),
                slot_pool_of(
                    m,
                    h@,
                    "mamba",
                    "sglang:mamba_available_tokens",
                    "sglang:mamba_used_tokens",
                    "sglang:mamba_usage",
                ),
                slot_pool_of(
                    m,
                    h@,
                    "SWA",
                    "sglang:swa_available_tokens",
                    "sglang:swa_used_tokens",
                    "sglang:swa_token_usage",
                ),
                host_pool_of(m, h@),
            ]);
        }
    }
    out
}

/// A ratio of counts lies between nothing and all, unless the quotient is not
/// a number.
pub proof fn law_ratio_is_a_share(m: Model, used: Option<Num>, total: Option<Num>)
    ensures
        ratio(m, used, total) matches Some(x) ==> x.nan() || (num(ZERO).at_most(x) && x.at_most(
            num(ONE),
        )),
{
}

/// A pool is listed exactly while a scrape of the longest window had data for
/// it, whatever its usage gauge reads. In particular a full pool stays listed.
pub proof fn law_pools_with_data_stay_listed(
    m: Model,
    h: HistoryView,
    name: &str,
    avail: &str,
    used: &str,
    usage: &str,
    i: int,
)
    ensures
        slot_pool_of(m, h, name, avail, used, usage) is Some <==> ever_live(
            h.window(WINDOWS@[2]),
            avail@,
            used@,
        ),
        0 <= i < h.window(WINDOWS@[2]).len() && or_zero(
            h.window(WINDOWS@[2])[i].sample.gauge(used@),
        ).positive() ==> slot_pool_of(m, h, name, avail, used, usage) is Some,
{
    let e = h.window(WINDOWS@[2]);
    if 0 <= i < e.len() && or_zero(e[i].sample.gauge(used@)).positive() {
        assert(live(e[i], avail@, used@));
    }
}

// ---- everything -------------------------------------------------------------

/// Everything that one draw needs: rates, quantiles, and pools computed per
/// call, plus the graphs and stall flags of the cached window scan.
#[derive(Debug)]
pub struct Derived {
    pub model: String,
    pub engine: String,
    pub running: Option<Num>,
    pub queue: Option<Num>,
    pub subqueues: Vec<(&'static str, Option<Num>)>,
    pub decode_rate: Triple,
    /// Decode rate of the most recent scrape interval.
    pub decode_instant: Option<Num>,
    /// Prefill-compute rate of the most recent scrape interval.
    pub prefill_instant: Option<Num>,
    pub prefill_rate: Triple,
    pub pools: Vec<Pool>,
    pub cache_hit: Option<Num>,
    pub spec_accept: Option<Num>,
    pub spec_accept_len: Option<Num>,
    pub ttft: LatencyTriple,
    pub itl: LatencyTriple,
    pub e2e: LatencyTriple,
    pub queue_time: LatencyTriple,
    pub prompt_len_p50: Option<Num>,
    pub prompt_len_p95: Option<Num>,
    pub stalls: [Stalls; 3],
    pub evict_rate: Option<Num>,
    pub retract_rate: Option<Num>,
    pub http_503_rate: Option<Num>,
    pub http_active: Option<Num>,
    pub gen_throughput_gauge: Option<Num>,
    /// Share of prefill tokens served from the device tier.
    pub l2_device: Option<Num>,
    /// Share of prefill tokens served from the host tier.
    pub l2_host: Option<Num>,
    /// Tokens/s written to the host tier.
    pub l2_wb: Option<Num>,
    /// Tokens/s read back from the host tier.
    pub l2_rb: Option<Num>,
    /// Device KV tokens/s destroyed without a host backup (should be 0).
    pub l2_drop: Option<Num>,
    pub new_token_ratio: Option<Num>,
    /// Average generation length (tokens) of currently running requests.
    pub gen_progress: Option<Num>,
    pub cpu_tokenizer: Option<Num>,
    pub cpu_detokenizer: Option<Num>,
    pub cpu_scheduler: Option<Num>,
    pub graphs: Graphs,
    pub window_focus: usize,
}

#[verifier::ext_equal]
pub struct DerivedView {
    pub model: Seq<char>,
    pub engine: Seq<char>,
    pub running: Option<Num>,
    pub queue: Option<Num>,
    pub subqueues: Seq<(Seq<char>, Option<Num>)>,
    pub decode_rate: Seq<Option<Num>>,
    pub decode_instant: Option<Num>,
    pub prefill_instant: Option<Num>,
    pub prefill_rate: Seq<Option<Num>>,
    pub pools: Seq<PoolView>,
    pub cache_hit: Option<Num>,
    pub spec_accept: Option<Num>,
    pub spec_accept_len: Option<Num>,
    pub ttft: Seq<Quantiles>,
    pub itl: Seq<Quantiles>,
    pub e2e: Seq<Quantiles>,
    pub queue_time: Seq<Quantiles>,
    pub prompt_len_p50: Option<Num>,
    pub prompt_len_p95: Option<Num>,
    pub stalls: Seq<Stalls>,
    pub evict_rate: Option<Num>,
    pub retract_rate: Option<Num>,
    pub http_503_rate: Option<Num>,
    pub http_active: Option<Num>,
    pub gen_throughput_gauge: Option<Num>,
    pub l2_device: Option<Num>,
    pub l2_host: Option<Num>,
    pub l2_wb: Option<Num>,
    pub l2_rb: Option<Num>,
    pub l2_drop: Option<Num>,
    pub new_token_ratio: Option<Num>,
    pub gen_progress: Option<Num>,
    pub cpu_tokenizer: Option<Num>,
    pub cpu_detokenizer: Option<Num>,
    pub cpu_scheduler: Option<Num>,
    pub graphs: GraphsView,
    pub window_focus: usize,
}

impl View for Derived {
    type V = DerivedView;

    open spec fn view(&self) -> DerivedView {
        DerivedView {
            model: self.model@,
            engine: self.engine@,
            running: self.running,
            queue: self.queue,
            subqueues: subqueues_view(self.subqueues@),
            decode_rate: self.decode_rate@,
            decode_instant: self.decode_instant,
            prefill_instant: self.prefill_instant,
            prefill_rate: self.prefill_rate@,
            pools: pools_view(self.pools@),
            cache_hit: self.cache_hit,
            spec_accept: self.spec_accept,
            spec_accept_len: self.spec_accept_len,
            ttft: self.ttft@,
            itl: self.itl@,
            e2e: self.e2e@,
            queue_time: self.queue_time@,
            prompt_len_p50: self.prompt_len_p50,
            prompt_len_p95: self.prompt_len_p95,
            stalls: self.stalls@,
            evict_rate: self.evict_rate,
            retract_rate: self.retract_rate,
            http_503_rate: self.http_503_rate,
            http_active: self.http_active,
            gen_throughput_gauge: self.gen_throughput_gauge,
            l2_device: self.l2_device,
            l2_host: self.l2_host,
            l2_wb: self.l2_wb,
            l2_rb: self.l2_rb,
            l2_drop: self.l2_drop,
            new_token_ratio: self.new_token_ratio,
            gen_progress: self.gen_progress,
            cpu_tokenizer: self.cpu_tokenizer,
            cpu_detokenizer: self.cpu_detokenizer,
            cpu_scheduler: self.cpu_scheduler,
            graphs: self.graphs@,
            window_focus: self.window_focus,
        }
    }
}

pub open spec fn subqueues_view(s: Seq<(&'static str, Option<Num>)>) -> Seq<
    (Seq<char>, Option<Num>),
> {
    Seq::new(s.len(), |i: int| (s[i].0@, s[i].1))
}

/// The stages that requests wait in before they run.
pub open spec fn subqueues_of(h: HistoryView) -> Seq<(Seq<char>, Option<Num>)> {
    seq![
        ("prefill bootstrap"@, h.gauge(Choice::of("sglang:num_prefill_bootstrap_queue_reqs"))),
        ("prefill inflight"@, h.gauge(Choice::of("sglang:num_prefill_inflight_queue_reqs"))),
        ("decode prealloc"@, h.gauge(Choice::of("sglang:num_decode_prealloc_queue_reqs"))),
        ("decode transfer"@, h.gauge(Choice::of("sglang:num_decode_transfer_queue_reqs"))),
        ("grammar"@, h.gauge(Choice::of("sglang:num_grammar_queue_reqs"))),
    ]
}

fn find_subqueues(h: &History) -> (r: Vec<(&'static str, Option<Num>)>)
    ensures
        subqueues_view(r@) == subqueues_of(h@),
{
    let r = vec![
        ("prefill bootstrap", h.gauge_pred(fam("sglang:num_prefill_bootstrap_queue_reqs"))),
        ("prefill inflight", h.gauge_pred(fam("sglang:num_prefill_inflight_queue_reqs"))),
        ("decode prealloc", h.gauge_pred(fam("sglang:num_decode_prealloc_queue_reqs"))),
        ("decode transfer", h.gauge_pred(fam("sglang:num_decode_transfer_queue_reqs"))),
        ("grammar", h.gauge_pred(fam("sglang:num_grammar_queue_reqs"))),
    ];
    proof {
        assert(subqueues_view(r@) =~= subqueues_of(h@));
    }
    r
}

/// The value of the last label of a name.
pub open spec fn last_label(labels: Labels, name: Seq<char>) -> Option<Seq<char>>
    decreases labels.len(),
{
    if labels.len() == 0 {
        None
    } else if labels.last().0 == name {
        Some(labels.last().1)
    } else {
        last_label(labels.drop_last(), name)
    }
}

/// The labels of the first series of a family.
pub open spec fn first_labels(s: Seq<(KeyView, Num)>, name: Seq<char>) -> Labels
    decreases s.len(),
{
    if s.len() == 0 {
        seq![]
    } else if s[0].0.name == name {
        s[0].0.labels
    } else {
        first_labels(s.drop_first(), name)
    }
}

/// What the newest scrape's running-requests series says of a label.
pub open spec fn label_or_unknown(h: HistoryView, name: Seq<char>) -> Seq<char> {
    match last_label(
        first_labels(h.entries.last().sample.simple, "sglang:num_running_reqs"@),
        name,
    ) {
        Some(v) => v,
        None => "?"@,
    }
}

fn find_label(labels: &Vec<(String, String)>, name: &str) -> (r: String)
    ensures
        r@ == (match last_label(key::labels_view(labels@), name@) {
            Some(v) => v,
            None => "?"@,
        }),
{
    let ghost all = key::labels_view(labels@);
    let mut n: usize = labels.len();
    proof {
        assert(all.take(n as int) =~= all);
    }
    while n > 0
        invariant
            n <= labels.len(),
            all == key::labels_view(labels@),
            last_label(all, name@) == last_label(all.take(n as int), name@),
        decreases n,
    {
        proof {
            assert(all.take(n as int).drop_last() =~= all.take(n - 1));
        }
        n = n - 1;
        if same(labels[n].0.as_str(), name) {
            return labels[n].1.clone();
        }
    }
    String::from_str("?")
}

fn find_label_in(s: &Sample, name: &str) -> (r: String)
    ensures
        r@ == (match last_label(first_labels(s@.simple, "sglang:num_running_reqs"@), name@) {
            Some(v) => v,
            None => "?"@,
        }),
{
    let mut i: usize = 0;
    proof {
        assert(s@.simple.skip(0) =~= s@.simple);
    }
    while i < s.simple.entries.len()
        invariant
            i <= s.simple.entries.len(),
            first_labels(s@.simple, "sglang:num_running_reqs"@) == first_labels(
                s@.simple.skip(i as int),
                "sglang:num_running_reqs"@,
            ),
        decreases s.simple.entries.len() - i,
    {
        if same(s.simple.entries[i].0.name.as_str(), "sglang:num_running_reqs") {
            return find_label(&s.simple.entries[i].0.labels, name);
        }
        proof {
            assert(s@.simple.skip(i as int).drop_first() =~= s@.simple.skip(i + 1));
        }
        i = i + 1;
    }
    String::from_str("?")
}

/// The last value, if there is one.
pub open spec fn last_value(s: Seq<Num>) -> Option<Num> {
    if s.len() == 0 {
        None
    } else {
        Some(s.last())
    }
}

fn last_of(v: &[Num]) -> (r: Option<Num>)
    ensures
        r == last_value(v@),
{
    if v.len() == 0 {
        None
    } else {
        Some(v[v.len() - 1])
    }
}

/// How far into their answers the running requests are, on average.
pub open spec fn progress_of(m: Model, h: HistoryView) -> Option<Num> {
    let running = or_zero(h.gauge(Choice::of("sglang:num_running_reqs")));
    match h.gauge(Choice::of("sglang:decode_sum_seq_lens")) {
        Some(s) => if running.positive() {
            Some(m(Calc::Quotient(s, running)))
        } else {
            None
        },
        None => None,
    }
}

/// The figures of the dashboard. `g` is the cached window scan.
pub open spec fn figures(
    m: Model,
    h: HistoryView,
    g: GraphsView,
    window_focus: usize,
) -> DerivedView {
    DerivedView {
        model: label_or_unknown(h, "model_name"@),
        engine: label_or_unknown(h, "engine_type"@),
        running: h.gauge(Choice::of("sglang:num_running_reqs")),
        queue: h.gauge(Choice::of("sglang:num_queue_reqs")),
        subqueues: subqueues_of(h),
        decode_rate: rates_of(m, h, rate::tokens("decode"@)),
        decode_instant: last_value(g.decode.vals),
        prefill_instant: last_value(g.prefill.vals),
        prefill_rate: rates_of(m, h, rate::tokens("prefill_compute"@)),
        pools: pools_of(m, h),
        cache_hit: h.gauge(Choice::of("sglang:cache_hit_rate")),
        spec_accept: h.gauge(Choice::of("sglang:spec_accept_rate")),
        spec_accept_len: h.gauge(Choice::of("sglang:spec_accept_length")),
        ttft: latencies_of(m, h, Choice::of("sglang:time_to_first_token_seconds")),
        itl: latencies_of(m, h, Choice::of("sglang:inter_token_latency_seconds")),
        e2e: latencies_of(m, h, Choice::of("sglang:e2e_request_latency_seconds")),
        queue_time: latencies_of(m, h, Choice::of("sglang:queue_time_seconds")),
        prompt_len_p50: h.quantile(
            m,
            Choice::of("sglang:prompt_tokens_histogram"),
            num(HALF),
            WINDOWS@[2],
        ),
        prompt_len_p95: h.quantile(
            m,
            Choice::of("sglang:prompt_tokens_histogram"),
            num(P95),
            WINDOWS@[2],
        ),
        stalls: all_stalls(m, g.stall, g.dt),
        evict_rate: h.rate(m, Choice::of("sglang:evicted_tokens_total"), WINDOWS@[2]),
        retract_rate: h.rate(m, Choice::of("sglang:num_retracted_reqs"), WINDOWS@[2]),
        http_503_rate: h.rate(
            m,
            Choice::labeled("sglang:http_responses_total", "status_code", "503"),
            WINDOWS@[2],
        ),
        http_active: h.gauge(Choice::of("sglang:http_requests_active")),
        gen_throughput_gauge: h.gauge(Choice::of("sglang:gen_throughput")),
        l2_device: tier_share(m, h, "device_hit"),
        l2_host: tier_share(m, h, "host_hit"),
        l2_wb: h.rate(m, Choice::of("sglang:hicache_backup_tokens_total"), WINDOWS@[2]),
        l2_rb: h.rate(m, Choice::of("sglang:load_back_tokens_total"), WINDOWS@[2]),
        l2_drop: h.rate(m, Choice::of("sglang:hicache_dropped_tokens_total"), WINDOWS@[2]),
        new_token_ratio: h.gauge(Choice::of("sglang:new_token_ratio")),
        gen_progress: progress_of(m, h),
        cpu_tokenizer: h.rate(
            m,
            Choice::labeled("sglang:process_cpu_seconds_total", "component", "tokenizer"),
            WINDOWS@[2],
        ),
        cpu_detokenizer: h.rate(
            m,
            Choice::labeled("sglang:process_cpu_seconds_total", "component", "detokenizer"),
            WINDOWS@[2],
        ),
        cpu_scheduler: h.rate(
            m,
            Choice::of("sglang:scheduler_process_cpu_seconds_total"),
            WINDOWS@[2],
        ),
        graphs: g,
        window_focus,
    }
}

/// The figures of the dashboard, once there is a scrape.
pub open spec fn derived_of(m: Model, h: HistoryView, window_focus: usize) -> Option<DerivedView> {
    match h.graphs {
        Some(g) => if h.entries.len() > 0 {
            Some(figures(m, h, g, window_focus))
        } else {
            None
        },
        None => None,
    }
}

pub open spec fn derived_view(d: Option<Derived>) -> Option<DerivedView> {
    match d {
        Some(x) => Some(x@),
        None => None,
    }
}

/// Computes the figures of the dashboard; `None` before the first scrape.
pub fn derive<C: Fn(Calc) -> Num + Copy>(h: &History, window_focus: usize, calc: C) -> (r: Option<
    Derived,
>)
    requires
        num::total(calc),
        h.wf(),
    ensures
        forall|m: Model| #[trigger]
            num::models(calc, m) ==> derived_view(r) == derived_of(m, h@, window_focus),
        r is Some <==> h@.entries.len() > 0,
        r matches Some(d) ==> d@.graphs.parallel() && d@.window_focus == window_focus,
{
    let (last, graphs) = match (h.last(), h.scan()) {
        (Some(l), Some(g)) => (l, g.clone()),
        _ => {
            return None;
        },
    };
    let model = find_label_in(&last.sample, "model_name");
    let engine = find_label_in(&last.sample, "engine_type");
    let running_now = h.gauge_pred(fam("sglang:num_running_reqs")).unwrap_or(num(ZERO));
    let gen_progress = match h.gauge_pred(fam("sglang:decode_sum_seq_lens")) {
        Some(s) => if running_now.is_positive() {
            Some(calc(Calc::Quotient(s, running_now)))
        } else {
            None
        },
        None => None,
    };
    let running = h.gauge_pred(fam("sglang:num_running_reqs"));
    let queue = h.gauge_pred(fam("sglang:num_queue_reqs"));
    let subqueues = find_subqueues(h);
    let decode_rate = rate_triple(
        h,
        fam_labeled("sglang:realtime_tokens_total", "mode", "decode"),
        calc,
    );
    let decode_instant = last_of(graphs.decode.vals.as_slice());
    let prefill_instant = last_of(graphs.prefill.vals.as_slice());
    let prefill_rate = rate_triple(
        h,
        fam_labeled("sglang:realtime_tokens_total", "mode", "prefill_compute"),
        calc,
    );
    let pools = find_pools(h, calc);
    let cache_hit = h.gauge_pred(fam("sglang:cache_hit_rate"));
    let spec_accept = h.gauge_pred(fam("sglang:spec_accept_rate"));
    let spec_accept_len = h.gauge_pred(fam("sglang:spec_accept_length"));
    let ttft = latency_triple(h, "sglang:time_to_first_token_seconds", calc);
    let itl = latency_triple(h, "sglang:inter_token_latency_seconds", calc);
    let e2e = latency_triple(h, "sglang:e2e_request_latency_seconds", calc);
    let queue_time = latency_triple(h, "sglang:queue_time_seconds", calc);
    let prompt_len_p50 = h.hist_quantile(
        fam("sglang:prompt_tokens_histogram"),
        num(HALF),
        WINDOWS[2],
        calc,
    );
    let prompt_len_p95 = h.hist_quantile(
        fam("sglang:prompt_tokens_histogram"),
        num(P95),
        WINDOWS[2],
        calc,
    );
    let stalls = fold_stalls(graphs.stall.as_slice(), graphs.dt.as_slice(), calc);
    proof {
        assert(graphs.stall@.take(graphs.dt@.len() as int) =~= graphs.stall@);
    }
    let evict_rate = h.rate_sum(fam("sglang:evicted_tokens_total"), WINDOWS[2], calc);
    let retract_rate = h.rate_sum(fam("sglang:num_retracted_reqs"), WINDOWS[2], calc);
    let http_503_rate = h.rate_sum(
        fam_labeled("sglang:http_responses_total", "status_code", "503"),
        WINDOWS[2],
        calc,
    );
    let http_active = h.gauge_pred(fam("sglang:http_requests_active"));
    let gen_throughput_gauge = h.gauge_pred(fam("sglang:gen_throughput"));
    let l2_device = l2_hit_rate(h, "device_hit", calc);
    let l2_host = l2_hit_rate(h, "host_hit", calc);
    let l2_wb = h.rate_sum(fam("sglang:hicache_backup_tokens_total"), WINDOWS[2], calc);
    let l2_rb = h.rate_sum(fam("sglang:load_back_tokens_total"), WINDOWS[2], calc);
    let l2_drop = h.rate_sum(fam("sglang:hicache_dropped_tokens_total"), WINDOWS[2], calc);
    let new_token_ratio = h.gauge_pred(fam("sglang:new_token_ratio"));
    let cpu_tokenizer = h.rate_sum(
        fam_labeled("sglang:process_cpu_seconds_total", "component", "tokenizer"),
        WINDOWS[2],
        calc,
    );
    let cpu_detokenizer = h.rate_sum(
        fam_labeled("sglang:process_cpu_seconds_total", "component", "detokenizer"),
        WINDOWS[2],
        calc,
    );
    let cpu_scheduler = h.rate_sum(
        fam("sglang:scheduler_process_cpu_seconds_total"),
        WINDOWS[2],
        calc,
    );
    Some(
        Derived {
            model,
            engine,
            running,
            queue,
            subqueues,
            decode_rate,
            decode_instant,
            prefill_instant,
            prefill_rate,
            pools,
            cache_hit,
            spec_accept,
            spec_accept_len,
            ttft,
            itl,
            e2e,
            queue_time,
            prompt_len_p50,
            prompt_len_p95,
            stalls,
            evict_rate,
            retract_rate,
            http_503_rate,
            http_active,
            gen_throughput_gauge,
            l2_device,
            l2_host,
            l2_wb,
            l2_rb,
            l2_drop,
            new_token_ratio,
            gen_progress,
            cpu_tokenizer,
            cpu_detokenizer,
            cpu_scheduler,
            graphs,
            window_focus,
        },
    )
}

/// Each window is labeled with its seconds.
pub proof fn law_windows_are_labeled_with_their_seconds(i: int)
    requires
        0 <= i < 3,
    ensures
        WIN_LABELS@[i]@ == crate::text::digits((WINDOWS@[i] / 1_000_000_000) as nat) + "s"@,
{
    reveal_with_fuel(crate::text::digits, 3);
    reveal_strlit("5s");
    reveal_strlit("15s");
    reveal_strlit("60s");
    reveal_strlit("s");
    assert(WINDOWS@[0] == 5_000_000_000 && WINDOWS@[1] == 15_000_000_000 && WINDOWS@[2]
        == 60_000_000_000);
    let n = (WINDOWS@[i] / 1_000_000_000) as nat;
    assert(i == 0 ==> n == 5);
    assert(i == 1 ==> n == 15);
    assert(i == 2 ==> n == 60);
    assert(crate::text::digits(5) =~= seq!['5']);
    assert(crate::text::digits(15) =~= seq!['1', '5']);
    assert(crate::text::digits(60) =~= seq!['6', '0']);
    assert(WIN_LABELS@[i]@ =~= crate::text::digits(n) + "s"@);
}

} // verus!
