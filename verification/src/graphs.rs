//! The trailing window in the shape that the graphs draw.
use crate::history::{Entry, EntryView};
use crate::key::KeyView;
use crate::metrics::{Sample, SampleView};
use crate::metrics;
use crate::num;
use crate::num::{num, Calc, Model, Num, ONE, QUARTER, ZERO};
use crate::rate;
use crate::rate::interval_rate;
use crate::select::fam_labeled;
use vstd::prelude::*;

verus! {

/// One rate lane over the trailing window: one rate per scrape interval, with
/// the interval's endpoint presence flags.
#[derive(Debug)]
pub struct Lane {
    /// Rate (tokens/s) per scrape interval. An interval whose series is missing
    /// from either endpoint sample pairs nothing and reads 0: data absence,
    /// never a measured collapse.
    pub vals: Vec<Num>,
    /// The interval's earlier sample lacks the series: a first appearance, or a
    /// reappearance after an absence.
    pub absent_old: Vec<bool>,
    /// The interval's later sample lacks the series: the absence starting.
    pub absent_new: Vec<bool>,
}

#[verifier::ext_equal]
pub struct LaneView {
    pub vals: Seq<Num>,
    pub absent_old: Seq<bool>,
    pub absent_new: Seq<bool>,
}

impl View for Lane {
    type V = LaneView;

    open spec fn view(&self) -> LaneView {
        LaneView { vals: self.vals@, absent_old: self.absent_old@, absent_new: self.absent_new@ }
    }
}

impl LaneView {
    pub open spec fn empty() -> LaneView {
        LaneView { vals: seq![], absent_old: seq![], absent_new: seq![] }
    }

    /// One more scrape interval of `dt` seconds.
    pub open spec fn next(
        self,
        m: Model,
        old: SampleView,
        new: SampleView,
        mode: Seq<char>,
        dt: Num,
    ) -> LaneView {
        let c = rate::tokens(mode);
        LaneView {
            vals: self.vals.push(m(Calc::Quotient(rate::moved(m, c, old.simple, new.simple), dt))),
            absent_old: self.absent_old.push(!c.in_sample(old.simple)),
            absent_new: self.absent_new.push(!c.in_sample(new.simple)),
        }
    }

    pub open spec fn parallel(self, n: nat) -> bool {
        self.vals.len() == n && self.absent_old.len() == n && self.absent_new.len() == n
    }
}

impl Lane {
    pub fn new() -> (r: Lane)
        ensures
            r@ == LaneView::empty(),
    {
        Lane { vals: Vec::new(), absent_old: Vec::new(), absent_new: Vec::new() }
    }

    /// Appends one scrape interval: the paired counter deltas over `dt` become
    /// the rate.
    pub fn push_interval<C: Fn(Calc) -> Num + Copy>(
        &mut self,
        prev: &Sample,
        cur: &Sample,
        mode: &str,
        dt: Num,
        calc: C,
    )
        requires
            num::total(calc),
            prev.wf(),
        ensures
            forall|m: Model| #[trigger]
                num::models(calc, m) ==> final(self)@ == old(self)@.next(m, prev@, cur@, mode@, dt),
            forall|n: nat| #[trigger] old(self)@.parallel(n) ==> final(self)@.parallel(n + 1),
    {
        let sel = fam_labeled("sglang:realtime_tokens_total", "mode", mode);
        let delta = interval_rate(prev, cur, mode, calc);
        self.vals.push(calc(Calc::Quotient(delta, dt)));
        self.absent_old.push(!sel.is_in(prev));
        self.absent_new.push(!sel.is_in(cur));
    }
}

/// The trailing window in the shape the graphs draw, produced by one pass over
/// the ring and cached next to it.
#[derive(Debug)]
pub struct Graphs {
    pub decode: Lane,
    pub prefill: Lane,
    /// Flagged intervals.
    pub stall: Vec<bool>,
    /// Per-pool usage ratios (0 to 1) per scrape: KV, mamba, SWA and host.
    pub pool_kv: Vec<Num>,
    pub pool_mamba: Vec<Num>,
    pub pool_host: Vec<Num>,
    pub pool_swa: Vec<Num>,
    /// Per-stream decode speed per interval: the interval's decode rate divided
    /// by its later sample's running count. `None` while idle, and where the
    /// decode series is missing from either endpoint sample.
    pub per_stream: Vec<Option<Num>>,
    /// Interval durations in seconds, parallel to the vectors above.
    pub dt: Vec<Num>,
}

#[verifier::ext_equal]
pub struct GraphsView {
    pub decode: LaneView,
    pub prefill: LaneView,
    pub stall: Seq<bool>,
    pub pool_kv: Seq<Num>,
    pub pool_mamba: Seq<Num>,
    pub pool_host: Seq<Num>,
    pub pool_swa: Seq<Num>,
    pub per_stream: Seq<Option<Num>>,
    pub dt: Seq<Num>,
}

impl View for Graphs {
    type V = GraphsView;

    open spec fn view(&self) -> GraphsView {
        GraphsView {
            decode: self.decode@,
            prefill: self.prefill@,
            stall: self.stall@,
            pool_kv: self.pool_kv@,
            pool_mamba: self.pool_mamba@,
            pool_host: self.pool_host@,
            pool_swa: self.pool_swa@,
            per_stream: self.per_stream@,
            dt: self.dt@,
        }
    }
}

impl GraphsView {
    /// One value per interval in every lane.
    pub open spec fn parallel(self) -> bool {
        let n = self.dt.len();
        &&& self.decode.parallel(n)
        &&& self.prefill.parallel(n)
        &&& self.stall.len() == n
        &&& self.pool_kv.len() == n
        &&& self.pool_mamba.len() == n
        &&& self.pool_host.len() == n
        &&& self.pool_swa.len() == n
        &&& self.per_stream.len() == n
    }
}

/// The share of a pool that is used, between nothing and all of it; nothing
/// where the pool has no size.
pub open spec fn share_of(m: Model, used: Num, size: Num) -> Num {
    if size.positive() {
        m(Calc::Quotient(used, size)).between(num(ZERO), num(ONE))
    } else {
        num(ZERO)
    }
}

/// The share of a pool given its used and its free part.
pub open spec fn split_share(m: Model, used: Option<Num>, free: Option<Num>) -> Num {
    match used {
        Some(u) => share_of(
            m,
            u,
            m(
                Calc::Sum(
                    u,
                    match free {
                        Some(f) => f,
                        None => num(ZERO),
                    },
                ),
            ),
        ),
        None => num(ZERO),
    }
}

pub open spec fn kv_share(m: Model, s: SampleView) -> Num {
    match (s.gauge("sglang:kv_used_tokens"@), s.gauge("sglang:max_total_num_tokens"@)) {
        (Some(u), Some(t)) => share_of(m, u, t),
        _ => num(ZERO),
    }
}

pub open spec fn mamba_share(m: Model, s: SampleView) -> Num {
    split_share(
        m,
        s.gauge("sglang:mamba_used_tokens"@),
        s.gauge("sglang:mamba_available_tokens"@),
    )
}

pub open spec fn swa_share(m: Model, s: SampleView) -> Num {
    split_share(m, s.gauge("sglang:swa_used_tokens"@), s.gauge("sglang:swa_available_tokens"@))
}

pub open spec fn host_share(m: Model, s: SampleView) -> Num {
    match (
        s.gauge("sglang:hicache_host_total_tokens"@),
        s.gauge("sglang:hicache_host_used_tokens"@),
    ) {
        (Some(t), Some(u)) => share_of(m, u, t),
        _ => num(ZERO),
    }
}

pub open spec fn running_at(s: SampleView) -> Num {
    match s.gauge("sglang:num_running_reqs"@) {
        Some(n) => n,
        None => num(ZERO),
    }
}

/// Everything that one pass over the window collects, before the stalls are
/// flagged.
#[verifier::ext_equal]
pub struct PassView {
    pub decode: LaneView,
    pub prefill: LaneView,
    pub running: Seq<Num>,
    /// The decode series is missing from the earlier sample, and an earlier
    /// interval had it: a gap, not a first appearance.
    pub gap: Seq<bool>,
    /// An interval had the decode series in its earlier sample.
    pub seen: bool,
    pub pool_kv: Seq<Num>,
    pub pool_mamba: Seq<Num>,
    pub pool_host: Seq<Num>,
    pub pool_swa: Seq<Num>,
    pub per_stream: Seq<Option<Num>>,
    pub dt: Seq<Num>,
}

impl PassView {
    pub open spec fn empty() -> PassView {
        PassView {
            decode: LaneView::empty(),
            prefill: LaneView::empty(),
            running: seq![],
            gap: seq![],
            seen: false,
            pool_kv: seq![],
            pool_mamba: seq![],
            pool_host: seq![],
            pool_swa: seq![],
            per_stream: seq![],
            dt: seq![],
        }
    }

    /// One more interval of `ns` nanoseconds.
    pub open spec fn next(self, m: Model, old: SampleView, new: SampleView, ns: u64) -> PassView {
        let dt = m(Calc::Seconds(ns));
        let decode = self.decode.next(m, old, new, "decode"@, dt);
        let absent_old = decode.absent_old.last();
        let missing = absent_old || decode.absent_new.last();
        let running = running_at(new);
        PassView {
            decode,
            prefill: self.prefill.next(m, old, new, "prefill_compute"@, dt),
            running: self.running.push(running),
            gap: self.gap.push(absent_old && self.seen),
            seen: self.seen || !absent_old,
            pool_kv: self.pool_kv.push(kv_share(m, new)),
            pool_mamba: self.pool_mamba.push(mamba_share(m, new)),
            pool_host: self.pool_host.push(host_share(m, new)),
            pool_swa: self.pool_swa.push(swa_share(m, new)),
            per_stream: self.per_stream.push(
                if running.positive() && !missing {
                    Some(m(Calc::Quotient(decode.vals.last(), running)))
                } else {
                    None
                },
            ),
            dt: self.dt.push(dt),
        }
    }

    pub open spec fn parallel(self) -> bool {
        let n = self.dt.len();
        &&& self.decode.parallel(n)
        &&& self.prefill.parallel(n)
        &&& self.running.len() == n
        &&& self.gap.len() == n
        &&& self.pool_kv.len() == n
        &&& self.pool_mamba.len() == n
        &&& self.pool_host.len() == n
        &&& self.pool_swa.len() == n
        &&& self.per_stream.len() == n
    }

    /// Whether an interval is stalled against the bar: the engine was working
    /// through it, and decode was either unreadable after having been seen or
    /// below the bar.
    pub open spec fn stalled(self, bar: Num, i: int) -> bool {
        &&& self.running[i].positive()
        &&& self.prefill.vals[i].positive()
        &&& self.gap[i] || (!self.decode.absent_old[i] && !self.decode.absent_new[i]
            && self.decode.vals[i].below(bar))
    }
}

/// Nanoseconds between two times; none where the second is not later.
pub open spec fn elapsed(from: u64, to: u64) -> u64 {
    if from <= to {
        (to - from) as u64
    } else {
        0
    }
}

/// One pass over consecutive samples. Pairs without any time between them are
/// no interval.
pub open spec fn pass_over(m: Model, e: Seq<EntryView>) -> PassView
    decreases e.len(),
{
    if e.len() < 2 {
        PassView::empty()
    } else {
        let p = pass_over(m, e.drop_last());
        let (a, b) = (e[e.len() - 2], e.last());
        let ns = elapsed(a.t, b.t);
        if ns == 0 {
            p
        } else {
            p.next(m, a.sample, b.sample, ns)
        }
    }
}

/// Values paired with themselves, to be ordered as a ladder.
pub open spec fn paired(v: Seq<Num>) -> Seq<(Num, Num)> {
    Seq::new(v.len(), |i: int| (v[i], v[i]))
}

/// The middle value by order, the upper one of two; zero of nothing.
pub open spec fn median(v: Seq<Num>) -> Num {
    if v.len() == 0 {
        num(ZERO)
    } else {
        metrics::ladder(paired(v))[(v.len() / 2) as int].0
    }
}

/// The bar for a stall: a quarter of the window's median decode rate.
pub open spec fn stall_bar(m: Model, p: PassView) -> Num {
    m(Calc::Product(num(QUARTER), median(p.decode.vals)))
}

/// The graphs of a window.
pub open spec fn graphs_of(m: Model, e: Seq<EntryView>) -> GraphsView {
    let p = pass_over(m, e);
    GraphsView {
        decode: p.decode,
        prefill: p.prefill,
        stall: Seq::new(p.dt.len(), |i: int| p.stalled(stall_bar(m, p), i)),
        pool_kv: p.pool_kv,
        pool_mamba: p.pool_mamba,
        pool_host: p.pool_host,
        pool_swa: p.pool_swa,
        per_stream: p.per_stream,
        dt: p.dt,
    }
}

pub proof fn lemma_pass_is_parallel(m: Model, e: Seq<EntryView>)
    ensures
        pass_over(m, e).parallel(),
    decreases e.len(),
{
    if e.len() >= 2 {
        lemma_pass_is_parallel(m, e.drop_last());
    }
}

/// Every lane of a window has one value per interval.
pub proof fn law_lanes_are_parallel(m: Model, e: Seq<EntryView>)
    ensures
        graphs_of(m, e).parallel(),
        graphs_of(m, e).dt.len() < e.len() || e.len() == 0,
    decreases e.len(),
{
    lemma_pass_is_parallel(m, e);
    if e.len() >= 2 {
        law_lanes_are_parallel(m, e.drop_last());
    }
}

/// No interval is stalled while nothing runs or no prompt is being processed.
pub proof fn law_stalls_need_work(m: Model, e: Seq<EntryView>, i: int)
    requires
        0 <= i < graphs_of(m, e).dt.len(),
        graphs_of(m, e).stall[i],
    ensures
        graphs_of(m, e).prefill.vals[i].positive(),
        pass_over(m, e).running[i].positive(),
{
}

/// An interval that the decode series leaves is not stalled: nothing
/// measurable collapsed.
pub proof fn law_absence_start_is_no_stall(m: Model, e: Seq<EntryView>, i: int)
    requires
        0 <= i < graphs_of(m, e).dt.len(),
        !graphs_of(m, e).decode.absent_old[i],
        graphs_of(m, e).decode.absent_new[i],
    ensures
        !graphs_of(m, e).stall[i],
{
    lemma_gaps_have_evidence(m, e);
}

/// While the decode series has not been carried by any earlier sample, no
/// interval is stalled: a first appearance is not a collapse.
pub proof fn law_first_appearance_is_no_stall(m: Model, e: Seq<EntryView>, i: int)
    requires
        0 <= i < graphs_of(m, e).dt.len(),
        forall|j: int| 0 <= j <= i ==> #[trigger] graphs_of(m, e).decode.absent_old[j],
    ensures
        !graphs_of(m, e).stall[i],
{
    lemma_gaps_have_evidence(m, e);
    let p = pass_over(m, e);
    assert(graphs_of(m, e).decode.absent_old[i]);
    if p.gap[i] {
        let j = choose|j: int| 0 <= j < i && !(#[trigger] p.decode.absent_old[j]);
        assert(graphs_of(m, e).decode.absent_old[j]);
    }
}

/// An interval that leads out of a gap is stalled whenever the engine was
/// working through it: the decode series was carried before, and is missing
/// from the interval's earlier sample.
pub proof fn law_gap_is_a_stall(m: Model, e: Seq<EntryView>, i: int, j: int)
    requires
        0 <= j < i < graphs_of(m, e).dt.len(),
        !graphs_of(m, e).decode.absent_old[j],
        graphs_of(m, e).decode.absent_old[i],
        graphs_of(m, e).prefill.vals[i].positive(),
        pass_over(m, e).running[i].positive(),
    ensures
        graphs_of(m, e).stall[i],
{
    lemma_gaps_have_evidence(m, e);
}

/// Missing decode data has no speed per stream.
pub proof fn law_missing_data_has_no_speed(m: Model, e: Seq<EntryView>, i: int)
    requires
        0 <= i < graphs_of(m, e).dt.len(),
        graphs_of(m, e).decode.absent_old[i] || graphs_of(m, e).decode.absent_new[i],
    ensures
        graphs_of(m, e).per_stream[i] is None,
    decreases e.len(),
{
    let p = pass_over(m, e);
    let q = pass_over(m, e.drop_last());
    lemma_pass_is_parallel(m, e.drop_last());
    if i < q.dt.len() {
        law_missing_data_has_no_speed(m, e.drop_last(), i);
        assert(p.per_stream[i] == q.per_stream[i]);
    }
}

/// From nothing to all of a pool.
pub open spec fn ratio(v: Num) -> bool {
    num(ZERO).at_most(v) && v.at_most(num(ONE))
}

/// Every value of a lane is a ratio.
pub open spec fn ratios(lane: Seq<Num>) -> bool {
    forall|i: int| 0 <= i < lane.len() ==> ratio(#[trigger] lane[i])
}

/// Every reading of a scrape is finite, as [`metrics::parse`] leaves them.
pub open spec fn readings_finite(s: SampleView) -> bool {
    forall|i: int| 0 <= i < s.simple.len() ==> (#[trigger] s.simple[i]).1.finite()
}

/// A finite number over a positive one is a number.
pub open spec fn divides_counts(m: Model) -> bool {
    forall|a: Num, b: Num|
        a.finite() && b.positive() ==> !(#[trigger] m(Calc::Quotient(a, b))).nan()
}

proof fn lemma_named_is_finite(s: Seq<(KeyView, Num)>, name: Seq<char>)
    requires
        forall|i: int| 0 <= i < s.len() ==> (#[trigger] s[i]).1.finite(),
    ensures
        metrics::first_named(s, name) matches Some(v) ==> v.finite(),
    decreases s.len(),
{
    if s.len() > 0 {
        lemma_named_is_finite(s.drop_first(), name);
    }
}

proof fn lemma_shares_of_a_scrape(m: Model, s: SampleView)
    requires
        divides_counts(m),
        readings_finite(s),
    ensures
        ratio(kv_share(m, s)),
        ratio(mamba_share(m, s)),
        ratio(swa_share(m, s)),
        ratio(host_share(m, s)),
{
    lemma_named_is_finite(s.simple, "sglang:kv_used_tokens"@);
    lemma_named_is_finite(s.simple, "sglang:mamba_used_tokens"@);
    lemma_named_is_finite(s.simple, "sglang:swa_used_tokens"@);
    lemma_named_is_finite(s.simple, "sglang:hicache_host_used_tokens"@);
}

/// Every value of the four pool lanes lies between nothing and all of the
/// pool.
pub proof fn law_shares_are_ratios(m: Model, e: Seq<EntryView>)
    requires
        divides_counts(m),
        forall|i: int| 0 <= i < e.len() ==> readings_finite((#[trigger] e[i]).sample),
    ensures
        ratios(graphs_of(m, e).pool_kv),
        ratios(graphs_of(m, e).pool_mamba),
        ratios(graphs_of(m, e).pool_swa),
        ratios(graphs_of(m, e).pool_host),
    decreases e.len(),
{
    if e.len() >= 2 {
        law_shares_are_ratios(m, e.drop_last());
        assert(readings_finite(e[e.len() - 1].sample));
        lemma_shares_of_a_scrape(m, e.last().sample);
    }
}

pub proof fn lemma_gaps_have_evidence(m: Model, e: Seq<EntryView>)
    ensures
        ({
            let p = pass_over(m, e);
            &&& p.parallel()
            &&& p.seen <==> exists|j: int|
                0 <= j < p.dt.len() && !(#[trigger] p.decode.absent_old[j])
            &&& forall|i: int|
                0 <= i < p.dt.len() ==> (#[trigger] p.gap[i] <==> p.decode.absent_old[i]
                    && exists|j: int| 0 <= j < i && !(#[trigger] p.decode.absent_old[j]))
        }),
    decreases e.len(),
{
    lemma_pass_is_parallel(m, e);
    if e.len() >= 2 {
        lemma_gaps_have_evidence(m, e.drop_last());
        let p = pass_over(m, e);
        let q = pass_over(m, e.drop_last());
        if p != q {
            let n = q.dt.len() as int;
            assert(p.decode.absent_old == q.decode.absent_old.push(p.decode.absent_old[n]));
            assert(forall|j: int|
                0 <= j < n ==> #[trigger] q.decode.absent_old[j] == p.decode.absent_old[j]);
            assert forall|i: int| 0 <= i < p.dt.len() implies (#[trigger] p.gap[i]
                <==> p.decode.absent_old[i] && exists|j: int|
                0 <= j < i && !(#[trigger] p.decode.absent_old[j])) by {
                if i < n {
                    assert(q.gap[i] == p.gap[i]);
                    if p.gap[i] {
                        let j = choose|j: int| 0 <= j < i && !(#[trigger] q.decode.absent_old[j]);
                        assert(!p.decode.absent_old[j]);
                    }
                    if exists|j: int| 0 <= j < i && !(#[trigger] p.decode.absent_old[j]) {
                        let j = choose|j: int| 0 <= j < i && !(#[trigger] p.decode.absent_old[j]);
                        assert(!q.decode.absent_old[j]);
                    }
                } else {
                    if q.seen {
                        let j = choose|j: int| 0 <= j < n && !(#[trigger] q.decode.absent_old[j]);
                        assert(!p.decode.absent_old[j]);
                    }
                    if exists|j: int| 0 <= j < i && !(#[trigger] p.decode.absent_old[j]) {
                        let j = choose|j: int| 0 <= j < i && !(#[trigger] p.decode.absent_old[j]);
                        assert(!q.decode.absent_old[j]);
                    }
                }
            }
            if p.seen {
                if q.seen {
                    let j = choose|j: int| 0 <= j < n && !(#[trigger] q.decode.absent_old[j]);
                    assert(!p.decode.absent_old[j]);
                } else {
                    assert(!p.decode.absent_old[n]);
                }
            }
            if exists|j: int| 0 <= j < p.dt.len() && !(#[trigger] p.decode.absent_old[j]) {
                let j = choose|j: int| 0 <= j < p.dt.len() && !(#[trigger] p.decode.absent_old[j]);
                if j < n {
                    assert(!q.decode.absent_old[j]);
                }
            }
        }
    }
}

/// The middle value by order, the upper one of two; zero of nothing.
pub fn median_of(v: &[Num]) -> (r: Num)
    ensures
        r == median(v@),
{
    if v.len() == 0 {
        return num(ZERO);
    }
    let mut pairs: Vec<(Num, Num)> = Vec::new();
    let mut i: usize = 0;
    while i < v.len()
        invariant
            i <= v.len(),
            pairs@ == paired(v@).take(i as int),
        decreases v.len() - i,
    {
        pairs.push((v[i], v[i]));
        i = i + 1;
        proof {
            assert(pairs@ =~= paired(v@).take(i as int));
        }
    }
    proof {
        assert(paired(v@).take(v@.len() as int) =~= paired(v@));
        metrics::lemma_ladder_len(paired(v@));
    }
    let sorted = metrics::sort_buckets(&pairs);
    sorted[v.len() / 2].0
}

fn find_share<C: Fn(Calc) -> Num + Copy>(used: Num, size: Num, calc: C) -> (r: Num)
    requires
        num::total(calc),
    ensures
        forall|m: Model| #[trigger] num::models(calc, m) ==> r == share_of(m, used, size),
{
    if size.is_positive() {
        calc(Calc::Quotient(used, size)).clamp(num(ZERO), num(ONE))
    } else {
        num(ZERO)
    }
}

fn find_split_share<C: Fn(Calc) -> Num + Copy>(used: Option<Num>, free: Option<Num>, calc: C) -> (r:
    Num)
    requires
        num::total(calc),
    ensures
        forall|m: Model| #[trigger] num::models(calc, m) ==> r == split_share(m, used, free),
{
    match used {
        Some(u) => {
            let f = free.unwrap_or(num(ZERO));
            let size = calc(Calc::Sum(u, f));
            find_share(u, size, calc)
        },
        None => num(ZERO),
    }
}

fn find_kv_share<C: Fn(Calc) -> Num + Copy>(s: &Sample, calc: C) -> (r: Num)
    requires
        num::total(calc),
    ensures
        forall|m: Model| #[trigger] num::models(calc, m) ==> r == kv_share(m, s@),
{
    match (s.gauge("sglang:kv_used_tokens"), s.gauge("sglang:max_total_num_tokens")) {
        (Some(u), Some(t)) => find_share(u, t, calc),
        _ => num(ZERO),
    }
}

fn find_host_share<C: Fn(Calc) -> Num + Copy>(s: &Sample, calc: C) -> (r: Num)
    requires
        num::total(calc),
    ensures
        forall|m: Model| #[trigger] num::models(calc, m) ==> r == host_share(m, s@),
{
    match (
        s.gauge("sglang:hicache_host_total_tokens"),
        s.gauge("sglang:hicache_host_used_tokens"),
    ) {
        (Some(t), Some(u)) => find_share(u, t, calc),
        _ => num(ZERO),
    }
}

struct Pass {
    decode: Lane,
    prefill: Lane,
    running: Vec<Num>,
    gap: Vec<bool>,
    seen: bool,
    pool_kv: Vec<Num>,
    pool_mamba: Vec<Num>,
    pool_host: Vec<Num>,
    pool_swa: Vec<Num>,
    per_stream: Vec<Option<Num>>,
    dt: Vec<Num>,
}

impl View for Pass {
    type V = PassView;

    closed spec fn view(&self) -> PassView {
        PassView {
            decode: self.decode@,
            prefill: self.prefill@,
            running: self.running@,
            gap: self.gap@,
            seen: self.seen,
            pool_kv: self.pool_kv@,
            pool_mamba: self.pool_mamba@,
            pool_host: self.pool_host@,
            pool_swa: self.pool_swa@,
            per_stream: self.per_stream@,
            dt: self.dt@,
        }
    }
}

impl Pass {
    fn new() -> (r: Pass)
        ensures
            r@ == PassView::empty(),
    {
        Pass {
            decode: Lane::new(),
            prefill: Lane::new(),
            running: Vec::new(),
            gap: Vec::new(),
            seen: false,
            pool_kv: Vec::new(),
            pool_mamba: Vec::new(),
            pool_host: Vec::new(),
            pool_swa: Vec::new(),
            per_stream: Vec::new(),
            dt: Vec::new(),
        }
    }

    fn push<C: Fn(Calc) -> Num + Copy>(&mut self, prev: &Sample, cur: &Sample, ns: u64, calc: C)
        requires
            num::total(calc),
            prev.wf(),
            old(self)@.parallel(),
        ensures
            forall|m: Model| #[trigger]
                num::models(calc, m) ==> final(self)@ == old(self)@.next(m, prev@, cur@, ns),
            final(self)@.parallel(),
    {
        let dt = calc(Calc::Seconds(ns));
        let ghost n = self.dt@.len();
        proof {
            assert(self.decode@.parallel(n) && self.prefill@.parallel(n));
        }
        self.decode.push_interval(prev, cur, "decode", dt, calc);
        self.prefill.push_interval(prev, cur, "prefill_compute", dt, calc);
        let i: usize = self.decode.vals.len() - 1;
        let absent_old = self.decode.absent_old[i];
        let missing = absent_old || self.decode.absent_new[i];
        self.gap.push(absent_old && self.seen);
        self.seen = self.seen || !absent_old;
        let running = cur.gauge("sglang:num_running_reqs").unwrap_or(num(ZERO));
        self.running.push(running);
        self.per_stream.push(
            if running.is_positive() && !missing {
                Some(calc(Calc::Quotient(self.decode.vals[i], running)))
            } else {
                None
            },
        );
        self.pool_kv.push(find_kv_share(cur, calc));
        self.pool_mamba.push(
            find_split_share(
                cur.gauge("sglang:mamba_used_tokens"),
                cur.gauge("sglang:mamba_available_tokens"),
                calc,
            ),
        );
        self.pool_host.push(find_host_share(cur, calc));
        self.pool_swa.push(
            find_split_share(
                cur.gauge("sglang:swa_used_tokens"),
                cur.gauge("sglang:swa_available_tokens"),
                calc,
            ),
        );
        self.dt.push(dt);
    }
}

/// The samples of entries, as views.
pub open spec fn entries_view(e: Seq<Entry>) -> Seq<EntryView> {
    Seq::new(e.len(), |i: int| e[i]@)
}

/// One pass over a window: per-series interval rates with their presence flags,
/// the stall flags, and the graph lanes.
///
/// # Stall definition
///
/// An interval (a pair of consecutive samples) is stalled whenever the engine
/// was working through it without producing decode output:
///
/// - median over: the decode rate (tokens/s) of every interval, gaps included
/// - threshold: decode rate below a quarter of that median, while the interval's
///   later sample reports requests running and prefill was computing (a positive
///   prefill rate)
///
/// An interval leading out of a gap pairs nothing (rate 0) and is flagged
/// whenever the series was carried by an earlier sample: evidence of a real gap,
/// never a first appearance. An interval where the absence starts (the later
/// sample lacks the series) is not flagged: nothing measurable collapsed.
pub fn scan_entries<C: Fn(Calc) -> Num + Copy>(e: &[Entry], calc: C) -> (r: Graphs)
    requires
        num::total(calc),
        forall|i: int| 0 <= i < e@.len() ==> (#[trigger] e@[i]).sample.wf(),
    ensures
        forall|m: Model| #[trigger] num::models(calc, m) ==> r@ == graphs_of(m, entries_view(e@)),
        r@.parallel(),
{
    let ghost all = entries_view(e@);
    let mut p = Pass::new();
    let mut i: usize = 1;
    while i < e.len()
        invariant
            1 <= i,
            i <= e.len() || i == 1,
            num::total(calc),
            all == entries_view(e@),
            forall|j: int| 0 <= j < e@.len() ==> (#[trigger] e@[j]).sample.wf(),
            p@.parallel(),
            i <= e.len() ==> forall|m: Model| #[trigger]
                num::models(calc, m) ==> p@ == pass_over(m, all.take(i as int)),
            i > e.len() ==> p@ == PassView::empty(),
        decreases e.len() - i,
    {
        proof {
            assert(all.take(i + 1).drop_last() =~= all.take(i as int));
        }
        let (a, b) = (e[i - 1].t, e[i].t);
        if a < b {
            p.push(&e[i - 1].sample, &e[i].sample, b - a, calc);
        }
        i = i + 1;
    }
    proof {
        if e@.len() > 0 {
            assert(all.take(e@.len() as int) =~= all);
        }
        assert forall|m: Model| #[trigger] num::models(calc, m) implies p@ == pass_over(m, all) by {}
    }
    let median = median_of(p.decode.vals.as_slice());
    let bar = calc(Calc::Product(num(QUARTER), median));
    let mut stall: Vec<bool> = Vec::new();
    let mut k: usize = 0;
    while k < p.dt.len()
        invariant
            k <= p.dt.len(),
            p@.parallel(),
            stall.len() == k,
            forall|j: int| 0 <= j < k ==> #[trigger] stall@[j] == p@.stalled(bar, j),
        decreases p.dt.len() - k,
    {
        stall.push(
            p.running[k].is_positive() && p.prefill.vals[k].is_positive() && (p.gap[k] || (
            !p.decode.absent_old[k] && !p.decode.absent_new[k] && p.decode.vals[k].is_below(bar))),
        );
        k = k + 1;
    }
    let ghost q = p@;
    let r = Graphs {
        decode: p.decode,
        prefill: p.prefill,
        stall,
        pool_kv: p.pool_kv,
        pool_mamba: p.pool_mamba,
        pool_host: p.pool_host,
        pool_swa: p.pool_swa,
        per_stream: p.per_stream,
        dt: p.dt,
    };
    proof {
        assert forall|m: Model| #[trigger] num::models(calc, m) implies r@ == graphs_of(m, all) by {
            assert(q == pass_over(m, all));
            assert(r@.stall =~= graphs_of(m, all).stall);
        }
    }
    r
}

impl Clone for Lane {
    fn clone(&self) -> (r: Lane)
        ensures
            r@ == self@,
    {
        let r = Lane {
            vals: self.vals.clone(),
            absent_old: self.absent_old.clone(),
            absent_new: self.absent_new.clone(),
        };
        proof {
            assert(r@ =~= self@);
        }
        r
    }
}

impl Clone for Graphs {
    fn clone(&self) -> (r: Graphs)
        ensures
            r@ == self@,
    {
        let r = Graphs {
            decode: self.decode.clone(),
            prefill: self.prefill.clone(),
            stall: self.stall.clone(),
            pool_kv: self.pool_kv.clone(),
            pool_mamba: self.pool_mamba.clone(),
            pool_host: self.pool_host.clone(),
            pool_swa: self.pool_swa.clone(),
            per_stream: self.per_stream.clone(),
            dt: self.dt.clone(),
        };
        proof {
            assert(r@ =~= self@);
        }
        r
    }
}

} // verus!
