//! One-shot text snapshot for scripts and cron logs.
use crate::derive::{
    update_peaks, Derived, DerivedView, Peaks, Pool, PoolView, Quantiles, Stalls, WIN_LABELS,
};
use crate::history::History;
use crate::num;
use crate::num::{num, Calc, Model, Num, TEN, THOUSAND, ZERO};
use crate::show;
use crate::show::{fmt_pct, join, pool_value, tok, tok_gauge, Printer};
use crate::text::{decimal, join2};
use crate::text;
use vstd::prelude::*;

verus! {

/// A time in seconds: below ten in ms, from ten on with one decimal.
pub open spec fn wait_text(m: Model, w: Printer, v: Option<Num>) -> Seq<char> {
    match v {
        Some(x) => if num(TEN).at_most(x) {
            w(x, 1) + "s"@
        } else {
            w(m(Calc::Product(x, num(THOUSAND))), 0) + "ms"@
        },
        None => show::missing(),
    }
}

pub fn secs<C: Fn(Calc) -> Num + Copy, S: Fn(Num, u8) -> String + Copy>(
    v: Option<Num>,
    calc: C,
    show: S,
) -> (r: String)
    requires
        show::ready(calc, show),
    ensures
        forall|m: Model, w: Printer| #[trigger]
            show::writes(calc, show, m, w) ==> r@ == wait_text(m, w, v),
{
    match v {
        Some(x) => {
            if num(TEN).is_at_most(x) {
                let mut out = show(x, 1);
                out.append("s");
                out
            } else {
                let mut out = show(calc(Calc::Product(x, num(THOUSAND))), 0);
                out.append("ms");
                out
            }
        },
        None => String::from_str("\u{2014}"),
    }
}

/// How long a stall of the window lasted on average; zero without any.
pub open spec fn mean_stall(m: Model, s: Stalls) -> Num {
    if s.count > 0 {
        m(Calc::Quotient(s.seconds, m(Calc::Whole(s.count as u64))))
    } else {
        num(ZERO)
    }
}

pub fn find_mean_stall<C: Fn(Calc) -> Num + Copy>(s: Stalls, calc: C) -> (r: Num)
    requires
        num::total(calc),
    ensures
        forall|m: Model| #[trigger] num::models(calc, m) ==> r == mean_stall(m, s),
{
    if s.count > 0 {
        let n = calc(Calc::Whole(s.count as u64));
        calc(Calc::Quotient(s.seconds, n))
    } else {
        num(ZERO)
    }
}

/// A pool with its name.
pub open spec fn named_pool(m: Model, w: Printer, p: PoolView) -> Seq<char> {
    p.name + " "@ + show::pool_text(m, w, p)
}

/// Every pool with its name.
pub open spec fn named_pools(m: Model, w: Printer, s: Seq<PoolView>) -> Seq<Seq<char>> {
    Seq::new(s.len(), |i: int| named_pool(m, w, s[i]))
}

pub fn name_pools<C: Fn(Calc) -> Num + Copy, S: Fn(Num, u8) -> String + Copy>(
    pools: &Vec<Pool>,
    calc: C,
    show: S,
) -> (r: Vec<String>)
    requires
        show::ready(calc, show),
    ensures
        forall|m: Model, w: Printer| #[trigger]
            show::writes(calc, show, m, w) ==> text::texts(r@) == named_pools(
                m,
                w,
                crate::derive::pools_view(pools@),
            ),
{
    let ghost all = crate::derive::pools_view(pools@);
    let mut out: Vec<String> = Vec::new();
    let mut i: usize = 0;
    while i < pools.len()
        invariant
            i <= pools.len(),
            out.len() == i,
            show::ready(calc, show),
            all == crate::derive::pools_view(pools@),
            forall|m: Model, w: Printer, j: int|
                #![trigger show::writes(calc, show, m, w), out@[j]]
                show::writes(calc, show, m, w) && 0 <= j < i ==> out@[j]@ == named_pool(
                    m,
                    w,
                    all[j],
                ),
        decreases pools.len() - i,
    {
        let value = pool_value(&pools[i], calc, show);
        let mut line = join2(pools[i].name, " ");
        line.append(value.as_str());
        out.push(line);
        i = i + 1;
    }
    proof {
        assert forall|m: Model, w: Printer| #[trigger]
            show::writes(calc, show, m, w) implies text::texts(out@) == named_pools(m, w, all) by {
            assert(text::texts(out@) =~= named_pools(m, w, all));
        }
    }
    out
}

/// The stages with their counts.
pub open spec fn staged(w: Printer, s: Seq<(Seq<char>, Option<Num>)>) -> Seq<Seq<char>> {
    Seq::new(s.len(), |i: int| s[i].0 + " "@ + show::whole_text(w, s[i].1))
}

fn write_stages<S: Fn(Num, u8) -> String + Copy>(
    q: &Vec<(&'static str, Option<Num>)>,
    show: S,
) -> (r: Vec<String>)
    requires
        show::printable(show),
    ensures
        forall|w: Printer| #[trigger]
            show::prints(show, w) ==> text::texts(r@) == staged(
                w,
                crate::derive::subqueues_view(q@),
            ),
{
    let ghost all = crate::derive::subqueues_view(q@);
    let mut out: Vec<String> = Vec::new();
    let mut i: usize = 0;
    while i < q.len()
        invariant
            i <= q.len(),
            out.len() == i,
            show::printable(show),
            all == crate::derive::subqueues_view(q@),
            forall|w: Printer, j: int|
                #![trigger show::prints(show, w), out@[j]]
                show::prints(show, w) && 0 <= j < i ==> out@[j]@ == all[j].0 + " "@
                    + show::whole_text(w, all[j].1),
        decreases q.len() - i,
    {
        let value = tok_gauge(q[i].1, show);
        let mut line = join2(q[i].0, " ");
        line.append(value.as_str());
        out.push(line);
        i = i + 1;
    }
    proof {
        assert forall|w: Printer| #[trigger] show::prints(show, w) implies text::texts(out@)
            == staged(w, all) by {
            assert(text::texts(out@) =~= staged(w, all));
        }
    }
    out
}

/// The line on the engine.
pub open spec fn engine_line(m: Model, w: Printer, d: DerivedView) -> Seq<char> {
    "sglang "@ + d.model + " ("@ + d.engine + ") \u{2014} running "@ + show::whole_text(
        w,
        d.running,
    ) + " \u{b7} queue "@ + show::whole_text(w, d.queue) + " \u{b7} pools: "@ + show::joined(
        named_pools(m, w, d.pools),
        " / "@,
    )
}

fn write_engine<C: Fn(Calc) -> Num + Copy, S: Fn(Num, u8) -> String + Copy>(
    d: &Derived,
    calc: C,
    show: S,
) -> (r: String)
    requires
        show::ready(calc, show),
    ensures
        forall|m: Model, w: Printer| #[trigger]
            show::writes(calc, show, m, w) ==> r@ == engine_line(m, w, d@),
{
    let running = tok_gauge(d.running, show);
    let queue = tok_gauge(d.queue, show);
    let pools = join(&name_pools(&d.pools, calc, show), " / ");
    let mut out = join2("sglang ", d.model.as_str());
    out.append(" (");
    out.append(d.engine.as_str());
    out.append(") \u{2014} running ");
    out.append(running.as_str());
    out.append(" \u{b7} queue ");
    out.append(queue.as_str());
    out.append(" \u{b7} pools: ");
    out.append(pools.as_str());
    out
}

/// The line on the token rates.
pub open spec fn tokens_line(m: Model, w: Printer, d: DerivedView) -> Seq<char> {
    "tokens: decode "@ + show::rate_text(w, d.decode_instant) + " \u{b7} prefill "@
        + show::rate_text(w, d.prefill_instant) + " (5s/15s/60s: "@ + show::rate_text(
        w,
        d.decode_rate[0],
    ) + "/"@ + show::rate_text(w, d.decode_rate[1]) + "/"@ + show::rate_text(w, d.decode_rate[2])
        + ") \u{b7} cache hit "@ + show::percent_text(m, w, d.cache_hit) + " \u{b7} spec accept "@
        + show::percent_text(m, w, d.spec_accept)
}

fn write_tokens<C: Fn(Calc) -> Num + Copy, S: Fn(Num, u8) -> String + Copy>(
    d: &Derived,
    calc: C,
    show: S,
) -> (r: String)
    requires
        show::ready(calc, show),
    ensures
        forall|m: Model, w: Printer| #[trigger]
            show::writes(calc, show, m, w) ==> r@ == tokens_line(m, w, d@),
{
    let decode = tok(d.decode_instant, show);
    let prefill = tok(d.prefill_instant, show);
    let (a, b, c) = (
        tok(d.decode_rate[0], show),
        tok(d.decode_rate[1], show),
        tok(d.decode_rate[2], show),
    );
    let hit = fmt_pct(d.cache_hit, calc, show);
    let accept = fmt_pct(d.spec_accept, calc, show);
    let mut out = join2("tokens: decode ", decode.as_str());
    out.append(" \u{b7} prefill ");
    out.append(prefill.as_str());
    out.append(" (5s/15s/60s: ");
    out.append(a.as_str());
    out.append("/");
    out.append(b.as_str());
    out.append("/");
    out.append(c.as_str());
    out.append(") \u{b7} cache hit ");
    out.append(hit.as_str());
    out.append(" \u{b7} spec accept ");
    out.append(accept.as_str());
    out
}

/// The line on one latency. Percentiles of everything counted so far are labeled
/// as such.
pub open spec fn latency_line(
    m: Model,
    w: Printer,
    name: Seq<char>,
    window: Seq<char>,
    q: Quantiles,
) -> Seq<char> {
    name + " ("@ + window + "): p50 "@ + wait_text(m, w, q.p50) + " \u{b7} p95 "@ + wait_text(
        m,
        w,
        q.p95,
    ) + " \u{b7} p99 "@ + wait_text(m, w, q.p99) + if q.fell_back() {
        " \u{b7} cumulative"@
    } else {
        seq![]
    }
}

/// A latency whose percentiles are not of the window says so at the end of its
/// line.
pub proof fn law_fallback_line_is_labeled(
    m: Model,
    w: Printer,
    name: Seq<char>,
    window: Seq<char>,
    q: Quantiles,
)
    requires
        q.fell_back(),
    ensures
        " \u{b7} cumulative"@.is_suffix_of(latency_line(m, w, name, window, q)),
{
    let line = latency_line(m, w, name, window, q);
    let label = " \u{b7} cumulative"@;
    assert(line.subrange(line.len() - label.len(), line.len() as int) =~= label);
}

fn write_latency<C: Fn(Calc) -> Num + Copy, S: Fn(Num, u8) -> String + Copy>(
    name: &str,
    window: &str,
    q: Quantiles,
    calc: C,
    show: S,
) -> (r: String)
    requires
        show::ready(calc, show),
    ensures
        forall|m: Model, w: Printer| #[trigger]
            show::writes(calc, show, m, w) ==> r@ == latency_line(m, w, name@, window@, q),
{
    let (p50, p95, p99) = (
        secs(q.p50, calc, show),
        secs(q.p95, calc, show),
        secs(q.p99, calc, show),
    );
    let mut out = join2(name, " (");
    out.append(window);
    out.append("): p50 ");
    out.append(p50.as_str());
    out.append(" \u{b7} p95 ");
    out.append(p95.as_str());
    out.append(" \u{b7} p99 ");
    out.append(p99.as_str());
    let ghost figures = out@;
    if q.is_fallback() {
        out.append(" \u{b7} cumulative");
    }
    proof {
        assert(figures + Seq::<char>::empty() =~= figures);
    }
    out
}

/// The line on the waiting stages.
pub open spec fn queues_line(w: Printer, d: DerivedView) -> Seq<char> {
    "queues: "@ + show::joined(staged(w, d.subqueues), " \u{b7} "@)
}

/// The line on the cache tiers.
pub open spec fn tiers_line(m: Model, w: Printer, d: DerivedView) -> Seq<char> {
    "l2: dev "@ + show::percent_text(m, w, d.l2_device) + " \u{b7} host "@ + show::percent_text(
        m,
        w,
        d.l2_host,
    ) + " \u{b7} wb "@ + show::whole_text(w, d.l2_wb) + " tok/s \u{b7} rb "@ + show::whole_text(
        w,
        d.l2_rb,
    ) + " tok/s \u{b7} drop "@ + show::whole_text(w, d.l2_drop) + " tok/s"@
}

fn write_tiers<C: Fn(Calc) -> Num + Copy, S: Fn(Num, u8) -> String + Copy>(
    d: &Derived,
    calc: C,
    show: S,
) -> (r: String)
    requires
        show::ready(calc, show),
    ensures
        forall|m: Model, w: Printer| #[trigger]
            show::writes(calc, show, m, w) ==> r@ == tiers_line(m, w, d@),
{
    let device = fmt_pct(d.l2_device, calc, show);
    let host = fmt_pct(d.l2_host, calc, show);
    let wb = tok_gauge(d.l2_wb, show);
    let rb = tok_gauge(d.l2_rb, show);
    let lost = tok_gauge(d.l2_drop, show);
    let mut out = join2("l2: dev ", device.as_str());
    out.append(" \u{b7} host ");
    out.append(host.as_str());
    out.append(" \u{b7} wb ");
    out.append(wb.as_str());
    out.append(" tok/s \u{b7} rb ");
    out.append(rb.as_str());
    out.append(" tok/s \u{b7} drop ");
    out.append(lost.as_str());
    out.append(" tok/s");
    out
}

/// The line on the session peaks.
pub open spec fn peaks_line(w: Printer, p: Peaks) -> Seq<char> {
    "peaks (this run): decode "@ + show::whole_text(w, p.decode) + " \u{b7} prefill "@
        + show::whole_text(w, p.prefill) + " \u{b7} single stream "@ + show::whole_text(
        w,
        p.decode_single,
    ) + " tok/s"@
}

fn write_peaks<S: Fn(Num, u8) -> String + Copy>(p: &Peaks, show: S) -> (r: String)
    requires
        show::printable(show),
    ensures
        forall|w: Printer| #[trigger] show::prints(show, w) ==> r@ == peaks_line(w, *p),
{
    let decode = tok_gauge(p.decode, show);
    let prefill = tok_gauge(p.prefill, show);
    let single = tok_gauge(p.decode_single, show);
    let mut out = join2("peaks (this run): decode ", decode.as_str());
    out.append(" \u{b7} prefill ");
    out.append(prefill.as_str());
    out.append(" \u{b7} single stream ");
    out.append(single.as_str());
    out.append(" tok/s");
    out
}

/// The line on stalls and trouble.
pub open spec fn trouble_line(m: Model, w: Printer, d: DerivedView) -> Seq<char> {
    let s = d.stalls[d.window_focus as int];
    "stalls: "@ + text::digits(s.count as nat) + " \u{d7} "@ + w(mean_stall(m, s), 1) + "s in "@
        + WIN_LABELS@[d.window_focus as int]@ + " \u{b7} evict/s "@ + show::whole_text(
        w,
        d.evict_rate,
    ) + " \u{b7} retract/s "@ + show::whole_text(w, d.retract_rate) + " \u{b7} 503/s "@
        + show::whole_text(w, d.http_503_rate)
}

fn write_trouble<C: Fn(Calc) -> Num + Copy, S: Fn(Num, u8) -> String + Copy>(
    d: &Derived,
    calc: C,
    show: S,
) -> (r: String)
    requires
        show::ready(calc, show),
        d.window_focus < 3,
    ensures
        forall|m: Model, w: Printer| #[trigger]
            show::writes(calc, show, m, w) ==> r@ == trouble_line(m, w, d@),
{
    let s = d.stalls[d.window_focus];
    let count = decimal(s.count as u64);
    let mean = show(find_mean_stall(s, calc), 1);
    let evict = tok_gauge(d.evict_rate, show);
    let retract = tok_gauge(d.retract_rate, show);
    let refused = tok_gauge(d.http_503_rate, show);
    let mut out = join2("stalls: ", count.as_str());
    out.append(" \u{d7} ");
    out.append(mean.as_str());
    out.append("s in ");
    out.append(WIN_LABELS[d.window_focus]);
    out.append(" \u{b7} evict/s ");
    out.append(evict.as_str());
    out.append(" \u{b7} retract/s ");
    out.append(retract.as_str());
    out.append(" \u{b7} 503/s ");
    out.append(refused.as_str());
    out
}

/// The lines of a snapshot.
pub open spec fn snapshot(m: Model, w: Printer, d: DerivedView, p: Peaks) -> Seq<Seq<char>> {
    let f = d.window_focus as int;
    let window = WIN_LABELS@[f]@;
    seq![
        engine_line(m, w, d),
        tokens_line(m, w, d),
        latency_line(m, w, "ttft"@, window, d.ttft[f]),
        latency_line(m, w, "itl"@, window, d.itl[f]),
        latency_line(m, w, "e2e"@, window, d.e2e[f]),
        queues_line(w, d),
        tiers_line(m, w, d),
        peaks_line(w, p),
        trouble_line(m, w, d),
    ]
}

/// Writes a snapshot of the focused window.
pub fn print_snapshot<C: Fn(Calc) -> Num + Copy, S: Fn(Num, u8) -> String + Copy>(
    d: &Derived,
    peaks: &Peaks,
    calc: C,
    show: S,
) -> (r: Vec<String>)
    requires
        show::ready(calc, show),
        d.window_focus < 3,
    ensures
        forall|m: Model, w: Printer| #[trigger]
            show::writes(calc, show, m, w) ==> text::texts(r@) == snapshot(m, w, d@, *peaks),
{
    let f = d.window_focus;
    let window = WIN_LABELS[f];
    let stages = join(&write_stages(&d.subqueues, show), " \u{b7} ");
    let r = vec![
        write_engine(d, calc, show),
        write_tokens(d, calc, show),
        write_latency("ttft", window, d.ttft[f], calc, show),
        write_latency("itl", window, d.itl[f], calc, show),
        write_latency("e2e", window, d.e2e[f], calc, show),
        join2("queues: ", stages.as_str()),
        write_tiers(d, calc, show),
        write_peaks(peaks, show),
        write_trouble(d, calc, show),
    ];
    proof {
        assert forall|m: Model, w: Printer| #[trigger]
            show::writes(calc, show, m, w) implies text::texts(r@) == snapshot(
            m,
            w,
            d@,
            *peaks,
        ) by {
            assert(text::texts(r@) =~= snapshot(m, w, d@, *peaks));
        }
    }
    r
}

/// Why there is no snapshot.
#[derive(Clone, Copy, Debug, PartialEq, Eq, Structural)]
pub enum OnceError {
    /// Nothing was scraped.
    NoData,
}

impl OnceError {
    pub fn message(self) -> (r: &'static str)
        ensures
            r@ == "no data scraped yet"@,
    {
        "no data scraped yet"
    }
}

/// Folds the newest interval into the peaks and writes the snapshot of the
/// longest window. Without any scrape there is none, and the peaks stay.
pub fn print_once<C: Fn(Calc) -> Num + Copy, S: Fn(Num, u8) -> String + Copy>(
    h: &History,
    peaks: &mut Peaks,
    calc: C,
    show: S,
) -> (r: Result<Vec<String>, OnceError>)
    requires
        show::ready(calc, show),
        h.wf(),
    ensures
        r is Ok <==> h@.entries.len() > 0,
        r is Err ==> *final(peaks) == *old(peaks),
        forall|m: Model, w: Printer| #[trigger]
            show::writes(calc, show, m, w) ==> match r {
                Ok(lines) => {
                    &&& *final(peaks) == crate::derive::peaks_after(m, *old(peaks), h@)
                    &&& text::texts(lines@) == snapshot(
                        m,
                        w,
                        crate::derive::derived_of(m, h@, 2)->0,
                        *final(peaks),
                    )
                },
                Err(_) => true,
            },
{
    match crate::derive::derive(h, 2, calc) {
        Some(d) => {
            update_peaks(peaks, h, calc);
            Ok(print_snapshot(&d, peaks, calc, show))
        },
        None => Err(OnceError::NoData),
    }
}

/// A latency's line says its own percentiles.
pub open spec fn says_latency(
    m: Model,
    w: Printer,
    line: Seq<char>,
    head: Seq<char>,
    q: Quantiles,
) -> bool {
    &&& show::says(line, head, wait_text(m, w, q.p50))
    &&& show::says(line, " \u{b7} p95 "@, wait_text(m, w, q.p95))
    &&& show::says(line, " \u{b7} p99 "@, wait_text(m, w, q.p99))
    &&& head.is_prefix_of(line)
}

proof fn lemma_latency_says(
    m: Model,
    w: Printer,
    name: Seq<char>,
    window: Seq<char>,
    q: Quantiles,
)
    ensures
        says_latency(
            m,
            w,
            latency_line(m, w, name, window, q),
            name + " ("@ + window + "): p50 "@,
            q,
        ),
{
    let line = latency_line(m, w, name, window, q);
    let head = name + " ("@ + window + "): p50 "@;
    let note = if q.fell_back() {
        " \u{b7} cumulative"@
    } else {
        seq![]
    };
    let p99 = wait_text(m, w, q.p99);
    let t = head + wait_text(m, w, q.p50) + " \u{b7} p95 "@ + wait_text(m, w, q.p95)
        + " \u{b7} p99 "@ + p99;
    assert(line == t + note);
    show::lemma_weave3(
        t,
        (head, wait_text(m, w, q.p50)),
        (" \u{b7} p95 "@, wait_text(m, w, q.p95)),
        (" \u{b7} p99 "@, p99),
    );
    show::lemma_says_more(t, note, head, wait_text(m, w, q.p50));
    show::lemma_says_more(t, note, " \u{b7} p95 "@, wait_text(m, w, q.p95));
    show::lemma_says_more(t, note, " \u{b7} p99 "@, p99);
    assert(line.subrange(0, head.len() as int) =~= head);
}

/// Every figure of the snapshot stands behind its own label: rates, percentiles,
/// cache tiers, peaks and trouble are not exchanged for one another.
pub proof fn law_snapshot_says_its_figures(m: Model, w: Printer, d: DerivedView, p: Peaks)
    requires
        d.window_focus < 3,
    ensures
        ({
            let lines = snapshot(m, w, d, p);
            let f = d.window_focus as int;
            let window = WIN_LABELS@[f]@;
            &&& lines.len() == 9
            &&& show::says(lines[0], ") \u{2014} running "@, show::whole_text(w, d.running))
            &&& show::says(lines[0], " \u{b7} queue "@, show::whole_text(w, d.queue))
            &&& show::says(lines[1], "tokens: decode "@, show::rate_text(w, d.decode_instant))
            &&& show::says(lines[1], " \u{b7} prefill "@, show::rate_text(w, d.prefill_instant))
            &&& show::says(
                lines[1],
                " (5s/15s/60s: "@,
                show::rate_text(w, d.decode_rate[0]) + "/"@ + show::rate_text(w, d.decode_rate[1])
                    + "/"@ + show::rate_text(w, d.decode_rate[2]),
            )
            &&& show::says(lines[1], ") \u{b7} cache hit "@, show::percent_text(m, w, d.cache_hit))
            &&& show::says(
                lines[1],
                " \u{b7} spec accept "@,
                show::percent_text(m, w, d.spec_accept),
            )
            &&& says_latency(m, w, lines[2], "ttft"@ + " ("@ + window + "): p50 "@, d.ttft[f])
            &&& says_latency(m, w, lines[3], "itl"@ + " ("@ + window + "): p50 "@, d.itl[f])
            &&& says_latency(m, w, lines[4], "e2e"@ + " ("@ + window + "): p50 "@, d.e2e[f])
            &&& show::says(lines[6], "l2: dev "@, show::percent_text(m, w, d.l2_device))
            &&& show::says(lines[6], " \u{b7} host "@, show::percent_text(m, w, d.l2_host))
            &&& show::says(lines[6], " \u{b7} wb "@, show::whole_text(w, d.l2_wb))
            &&& show::says(lines[6], " tok/s \u{b7} rb "@, show::whole_text(w, d.l2_rb))
            &&& show::says(lines[6], " tok/s \u{b7} drop "@, show::whole_text(w, d.l2_drop))
            &&& show::says(lines[7], "peaks (this run): decode "@, show::whole_text(w, p.decode))
            &&& show::says(lines[7], " \u{b7} prefill "@, show::whole_text(w, p.prefill))
            &&& show::says(
                lines[7],
                " \u{b7} single stream "@,
                show::whole_text(w, p.decode_single),
            )
            &&& show::says(lines[8], "stalls: "@, text::digits(d.stalls[f].count as nat))
            &&& d.stalls[f].count > 0 ==> show::says(
                lines[8],
                " \u{d7} "@,
                w(
                    m(
                        Calc::Quotient(
                            d.stalls[f].seconds,
                            m(Calc::Whole(d.stalls[f].count as u64)),
                        ),
                    ),
                    1,
                ) + "s in "@ + window,
            )
            &&& show::says(lines[8], " \u{b7} evict/s "@, show::whole_text(w, d.evict_rate))
            &&& show::says(lines[8], " \u{b7} retract/s "@, show::whole_text(w, d.retract_rate))
            &&& show::says(lines[8], " \u{b7} 503/s "@, show::whole_text(w, d.http_503_rate))
        }),
{
    let lines = snapshot(m, w, d, p);
    let f = d.window_focus as int;
    let window = WIN_LABELS@[f]@;
    lemma_engine_says(m, w, d);
    lemma_tokens_say(m, w, d);
    lemma_latency_says(m, w, "ttft"@, window, d.ttft[f]);
    lemma_latency_says(m, w, "itl"@, window, d.itl[f]);
    lemma_latency_says(m, w, "e2e"@, window, d.e2e[f]);
    lemma_tiers_say(m, w, d);
    lemma_peaks_say(w, p);
    lemma_trouble_says(m, w, d);
}

proof fn lemma_engine_says(m: Model, w: Printer, d: DerivedView)
    ensures
        show::says(
            engine_line(m, w, d),
            ") \u{2014} running "@,
            show::whole_text(w, d.running),
        ),
        show::says(engine_line(m, w, d), " \u{b7} queue "@, show::whole_text(w, d.queue)),
{
    let t = engine_line(m, w, d);
    let head = "sglang "@ + d.model + " ("@ + d.engine;
    let (a, b) = (show::whole_text(w, d.running), show::whole_text(w, d.queue));
    let tail = " \u{b7} pools: "@ + show::joined(named_pools(m, w, d.pools), " / "@);
    assert(t =~= head + ") \u{2014} running "@ + a + (" \u{b7} queue "@ + b + tail));
    assert(show::made_of(t, head, ") \u{2014} running "@, a, " \u{b7} queue "@ + b + tail));
    assert(t =~= (head + ") \u{2014} running "@ + a) + " \u{b7} queue "@ + b + tail);
    assert(show::made_of(t, head + ") \u{2014} running "@ + a, " \u{b7} queue "@, b, tail));
}

proof fn lemma_tokens_say(m: Model, w: Printer, d: DerivedView)
    ensures
        show::says(
            tokens_line(m, w, d),
            "tokens: decode "@,
            show::rate_text(w, d.decode_instant),
        ),
        show::says(
            tokens_line(m, w, d),
            " \u{b7} prefill "@,
            show::rate_text(w, d.prefill_instant),
        ),
        show::says(
            tokens_line(m, w, d),
            " (5s/15s/60s: "@,
            show::rate_text(w, d.decode_rate[0]) + "/"@ + show::rate_text(w, d.decode_rate[1])
                + "/"@ + show::rate_text(w, d.decode_rate[2]),
        ),
        show::says(
            tokens_line(m, w, d),
            ") \u{b7} cache hit "@,
            show::percent_text(m, w, d.cache_hit),
        ),
        show::says(
            tokens_line(m, w, d),
            " \u{b7} spec accept "@,
            show::percent_text(m, w, d.spec_accept),
        ),
{
    let t = tokens_line(m, w, d);
    let a = ("tokens: decode "@, show::rate_text(w, d.decode_instant));
    let b = (" \u{b7} prefill "@, show::rate_text(w, d.prefill_instant));
    let c = (
        " (5s/15s/60s: "@,
        show::rate_text(w, d.decode_rate[0]) + "/"@ + show::rate_text(w, d.decode_rate[1]) + "/"@
            + show::rate_text(w, d.decode_rate[2]),
    );
    let e = (") \u{b7} cache hit "@, show::percent_text(m, w, d.cache_hit));
    let g = (" \u{b7} spec accept "@, show::percent_text(m, w, d.spec_accept));
    let front = a.0 + a.1 + b.0 + b.1 + c.0 + c.1;
    show::lemma_weave3(front, a, b, c);
    let back = e.0 + e.1 + g.0 + g.1;
    show::lemma_weave2(back, e, g);
    assert(t =~= front + back);
    show::lemma_says_more(front, back, a.0, a.1);
    show::lemma_says_more(front, back, b.0, b.1);
    show::lemma_says_more(front, back, c.0, c.1);
    show::lemma_says_behind(front, back, e.0, e.1);
    show::lemma_says_behind(front, back, g.0, g.1);
}

proof fn lemma_tiers_say(m: Model, w: Printer, d: DerivedView)
    ensures
        show::says(tiers_line(m, w, d), "l2: dev "@, show::percent_text(m, w, d.l2_device)),
        show::says(tiers_line(m, w, d), " \u{b7} host "@, show::percent_text(m, w, d.l2_host)),
        show::says(tiers_line(m, w, d), " \u{b7} wb "@, show::whole_text(w, d.l2_wb)),
        show::says(tiers_line(m, w, d), " tok/s \u{b7} rb "@, show::whole_text(w, d.l2_rb)),
        show::says(tiers_line(m, w, d), " tok/s \u{b7} drop "@, show::whole_text(w, d.l2_drop)),
{
    let t = tiers_line(m, w, d);
    let a = ("l2: dev "@, show::percent_text(m, w, d.l2_device));
    let b = (" \u{b7} host "@, show::percent_text(m, w, d.l2_host));
    let c = (" \u{b7} wb "@, show::whole_text(w, d.l2_wb));
    let e = (" tok/s \u{b7} rb "@, show::whole_text(w, d.l2_rb));
    let g = (" tok/s \u{b7} drop "@, show::whole_text(w, d.l2_drop));
    let front = a.0 + a.1 + b.0 + b.1 + c.0 + c.1;
    let back = e.0 + e.1 + g.0 + g.1;
    let tail = back + " tok/s"@;
    show::lemma_weave3(front, a, b, c);
    show::lemma_weave2(back, e, g);
    assert(t =~= front + tail);
    show::lemma_says_more(back, " tok/s"@, e.0, e.1);
    show::lemma_says_more(back, " tok/s"@, g.0, g.1);
    show::lemma_says_more(front, tail, a.0, a.1);
    show::lemma_says_more(front, tail, b.0, b.1);
    show::lemma_says_more(front, tail, c.0, c.1);
    show::lemma_says_behind(front, tail, e.0, e.1);
    show::lemma_says_behind(front, tail, g.0, g.1);
}

proof fn lemma_peaks_say(w: Printer, p: Peaks)
    ensures
        show::says(peaks_line(w, p), "peaks (this run): decode "@, show::whole_text(w, p.decode)),
        show::says(peaks_line(w, p), " \u{b7} prefill "@, show::whole_text(w, p.prefill)),
        show::says(
            peaks_line(w, p),
            " \u{b7} single stream "@,
            show::whole_text(w, p.decode_single),
        ),
{
    let a = ("peaks (this run): decode "@, show::whole_text(w, p.decode));
    let b = (" \u{b7} prefill "@, show::whole_text(w, p.prefill));
    let c = (" \u{b7} single stream "@, show::whole_text(w, p.decode_single));
    let t = a.0 + a.1 + b.0 + b.1 + c.0 + c.1;
    show::lemma_weave3(t, a, b, c);
    show::lemma_says_more(t, " tok/s"@, a.0, a.1);
    show::lemma_says_more(t, " tok/s"@, b.0, b.1);
    show::lemma_says_more(t, " tok/s"@, c.0, c.1);
}

proof fn lemma_trouble_says(m: Model, w: Printer, d: DerivedView)
    ensures
        show::says(
            trouble_line(m, w, d),
            "stalls: "@,
            text::digits(d.stalls[d.window_focus as int].count as nat),
        ),
        show::says(
            trouble_line(m, w, d),
            " \u{d7} "@,
            w(mean_stall(m, d.stalls[d.window_focus as int]), 1) + "s in "@
                + WIN_LABELS@[d.window_focus as int]@,
        ),
        show::says(trouble_line(m, w, d), " \u{b7} evict/s "@, show::whole_text(w, d.evict_rate)),
        show::says(
            trouble_line(m, w, d),
            " \u{b7} retract/s "@,
            show::whole_text(w, d.retract_rate),
        ),
        show::says(
            trouble_line(m, w, d),
            " \u{b7} 503/s "@,
            show::whole_text(w, d.http_503_rate),
        ),
{
    let s = d.stalls[d.window_focus as int];
    let t = trouble_line(m, w, d);
    let n = text::digits(s.count as nat);
    let mid = " \u{d7} "@ + w(mean_stall(m, s), 1) + "s in "@
        + WIN_LABELS@[d.window_focus as int]@;
    let a = (" \u{b7} evict/s "@, show::whole_text(w, d.evict_rate));
    let b = (" \u{b7} retract/s "@, show::whole_text(w, d.retract_rate));
    let c = (" \u{b7} 503/s "@, show::whole_text(w, d.http_503_rate));
    let back = a.0 + a.1 + b.0 + b.1 + c.0 + c.1;
    show::lemma_weave3(back, a, b, c);
    let front = "stalls: "@ + n + mid;
    assert(t =~= front + back);
    show::lemma_says_behind(front, back, a.0, a.1);
    show::lemma_says_behind(front, back, b.0, b.1);
    show::lemma_says_behind(front, back, c.0, c.1);
    let span = w(mean_stall(m, s), 1) + "s in "@ + WIN_LABELS@[d.window_focus as int]@;
    assert(t =~= ("stalls: "@ + n) + " \u{d7} "@ + span + back);
    assert(show::made_of(t, "stalls: "@ + n, " \u{d7} "@, span, back));
    let none = Seq::<char>::empty();
    assert(t =~= none + "stalls: "@ + n + (mid + back));
    assert(show::made_of(t, none, "stalls: "@, n, mid + back));
}

/// The snapshot tells a time in whole milliseconds below ten seconds, and in
/// seconds with one decimal from there on.
pub proof fn law_waits_have_the_unit_they_reach(m: Model, w: Printer, v: Num)
    ensures
        ({
            let ten = num(0x4024_0000_0000_0000);
            &&& ten.at_most(v) ==> wait_text(m, w, Some(v)) == w(v, 1) + "s"@
            &&& v.below(ten) ==> wait_text(m, w, Some(v)) == w(
                m(Calc::Product(v, num(0x408f_4000_0000_0000))),
                0,
            ) + "ms"@
        }),
{
}

/// All stalls of a window last together as long as so many of the mean one.
pub proof fn law_mean_stall_times_count(
    m: Model,
    unit: spec_fn(int) -> Num,
    s: Stalls,
    each: int,
)
    requires
        s.count > 0,
        s.seconds == unit(s.count * each),
        forall|k: u64, a: int|
            k > 0 ==> #[trigger] m(Calc::Quotient(unit(k * a), m(Calc::Whole(k)))) == unit(a),
    ensures
        mean_stall(m, s) == unit(each),
{
    assert(m(Calc::Quotient(unit((s.count as u64) * each), m(Calc::Whole(s.count as u64))))
        == unit(each));
}

} // verus!
