use sgtop::derive::{fold_stalls, scan_window, update_peaks, Derived, Peaks, WINDOWS};
use sgtop::graphs::median_of;
use sgtop::history::{counter_delta, History, SECOND};
use sgtop::metrics::{parse, Sample};
use sgtop::num::{Calc, Num};
use sgtop::once::{print_once, OnceError};
use sgtop::panels::{draw_hero, Op};
use sgtop::screen::Rect;
use sgtop::select::{fam, fam_labeled};

const T0: u64 = 1_000_000_000_000;

fn n(v: f64) -> Num {
    Num { bits: v.to_bits() }
}

fn f(v: Num) -> f64 {
    f64::from_bits(v.bits)
}

fn read(s: &str) -> Option<Num> {
    s.parse::<f64>().ok().map(n)
}

fn show(v: Num, d: u8) -> String {
    format!("{:.*}", d as usize, f(v))
}

fn calc(c: Calc) -> Num {
    n(match c {
        Calc::Sum(a, b) => f(a) + f(b),
        Calc::Difference(a, b) => f(a) - f(b),
        Calc::Product(a, b) => f(a) * f(b),
        Calc::Quotient(a, b) => f(a) / f(b),
        Calc::Seconds(ns) => std::time::Duration::from_nanos(ns).as_secs_f64(),
        Calc::Nanos(s) => std::time::Duration::from_secs_f64(f(s)).as_nanos() as f64,
        Calc::Whole(k) => k as f64,
        Calc::Decade(a) => 10.0_f64.powf(f(a).log10().floor()),
        Calc::Ceil(a) => f(a).ceil(),
    })
}

fn sample(body: &str) -> Sample {
    parse(body, read).unwrap()
}

fn derived(h: &History) -> Derived {
    sgtop::derive::derive(h, 2, calc).unwrap()
}

fn floats(v: &[Num]) -> Vec<f64> {
    v.iter().map(|x| f(*x)).collect()
}

// decode and prefill counters, and the running count, as far as given
fn work(decode: Option<f64>, prefill: Option<f64>, running: f64) -> Sample {
    let mut body = format!("sglang:num_running_reqs {running}\n");
    if let Some(v) = decode {
        body.push_str(&format!(
            "sglang:realtime_tokens_total{{mode=\"decode\"}} {v}\n"
        ));
    }
    if let Some(v) = prefill {
        body.push_str(&format!(
            "sglang:realtime_tokens_total{{mode=\"prefill_compute\"}} {v}\n"
        ));
    }
    sample(&body)
}

fn ring(samples: Vec<Sample>) -> History {
    let mut h = History::default();
    for (i, s) in samples.into_iter().enumerate() {
        h.push(T0 + i as u64 * SECOND, s, calc);
    }
    h
}

#[test]
fn counters_that_drop_were_restarted() {
    assert_eq!(f(counter_delta(n(100.0), n(150.0), calc)), 50.0);
    assert_eq!(f(counter_delta(n(150.0), n(2.0), calc)), 2.0);
    assert_eq!(f(counter_delta(n(7.0), n(7.0), calc)), 0.0);
}

#[test]
fn median_is_the_upper_middle() {
    assert_eq!(f(median_of(&[])), 0.0);
    assert_eq!(f(median_of(&[n(3.0)])), 3.0);
    assert_eq!(f(median_of(&[n(9.0), n(1.0)])), 9.0);
    assert_eq!(f(median_of(&[n(9.0), n(1.0), n(4.0)])), 4.0);
}

#[test]
fn gaps_are_stalls_and_first_appearances_are_not() {
    let h = ring(vec![
        work(None, Some(0.0), 4.0),
        work(Some(0.0), Some(10.0), 4.0), // first appearance
        work(Some(40.0), Some(20.0), 4.0),
        work(None, Some(30.0), 4.0), // the absence starts
        work(Some(90.0), Some(40.0), 4.0), // leads out of the gap
        work(Some(130.0), Some(50.0), 4.0),
    ]);
    let g = scan_window(&h, calc);
    assert_eq!(floats(&g.decode.vals), vec![0.0, 40.0, 0.0, 0.0, 40.0]);
    assert_eq!(g.decode.absent_old, vec![true, false, false, true, false]);
    assert_eq!(g.decode.absent_new, vec![false, false, true, false, false]);
    assert_eq!(g.stall, vec![false, false, false, true, false]);
    assert_eq!(
        g.per_stream.iter().map(|v| v.map(f)).collect::<Vec<_>>(),
        vec![None, Some(10.0), None, None, Some(10.0)]
    );
    assert_eq!(floats(&g.dt), vec![1.0; 5]);
    // the cached scan is the same pass
    assert_eq!(format!("{:?}", h.scan().unwrap()), format!("{g:?}"));
}

#[test]
fn stalls_need_running_requests_and_prefill() {
    let steps = |running: f64, prefill: f64| {
        ring(vec![
            work(Some(0.0), Some(0.0), running),
            work(Some(40.0), Some(0.0), running),
            work(Some(80.0), Some(0.0), running),
            work(Some(81.0), Some(prefill), running),
        ])
    };
    let stalled = |h: History| scan_window(&h, calc).stall;
    assert_eq!(stalled(steps(4.0, 100.0)), vec![false, false, true]);
    assert_eq!(stalled(steps(0.0, 100.0)), vec![false, false, false]);
    assert_eq!(stalled(steps(4.0, 0.0)), vec![false, false, false]);
}

#[test]
fn samples_without_time_between_them_are_no_interval() {
    let mut h = History::default();
    h.push(T0, work(Some(0.0), Some(0.0), 1.0), calc);
    h.push(T0, work(Some(50.0), Some(0.0), 1.0), calc);
    assert!(scan_window(&h, calc).dt.is_empty());
    assert!(h.rate_sum(fam("sglang:realtime_tokens_total"), WINDOWS[2], calc).is_none());
    let mut p = Peaks::default();
    update_peaks(&mut p, &h, calc);
    assert!(p.decode.is_none());
}

#[test]
fn windows_are_cut_at_their_span() {
    let mut h = History::default();
    for i in 0..100u64 {
        h.push(T0 + i * SECOND, work(Some(i as f64), None, 1.0), calc);
    }
    // both ends count: an entry that is exactly as old as the window stays
    assert_eq!(h.window_entries(WINDOWS[0]).len(), 6);
    assert_eq!(h.window_entries(WINDOWS[1]).len(), 16);
    assert_eq!(h.window_entries(WINDOWS[2]).len(), 61);
    // older entries are dropped
    assert_eq!(h.len(), 61);
    assert_eq!(h.first_seen, Some(T0));
    assert_eq!(h.last().unwrap().t, T0 + 99 * SECOND);
    assert_eq!(h.get(0).unwrap().t, T0 + 39 * SECOND);
    assert!(h.get(61).is_none());
    // however far apart, two scrapes stay
    h.push(T0 + 1000 * SECOND, work(Some(5.0), None, 1.0), calc);
    assert_eq!(h.len(), 2);
    assert_eq!(h.window_entries(WINDOWS[2]).len(), 1);
}

#[test]
fn rates_need_a_series_and_readings_are_picked_in_key_order() {
    let a = sample("c{r=\"0\"} 10\nc{r=\"1\"} 100\nd 5\n");
    let b = sample("c{r=\"0\"} 30\nc{r=\"1\"} 140\nc{r=\"2\"} 900\nd 5\n");
    let h = ring(vec![a, b]);
    let w = WINDOWS[2];
    // 20 + 40 over one second; the new series pairs with nothing
    assert_eq!(h.rate_sum(fam("c"), w, calc).map(f), Some(60.0));
    assert_eq!(h.rate_sum(fam_labeled("c", "r", "1"), w, calc).map(f), Some(40.0));
    // a series that only just appeared has a rate of zero, an absent one has none
    assert_eq!(h.rate_sum(fam_labeled("c", "r", "2"), w, calc).map(f), Some(0.0));
    assert!(h.rate_sum(fam("e"), w, calc).is_none());
    assert_eq!(h.gauge_pred(fam("c")).map(f), Some(30.0));
    assert_eq!(h.sum_gauge(fam("c"), calc).map(f), Some(1070.0));
    assert!(h.sum_gauge(fam("e"), calc).is_none());
}

#[test]
fn window_quantiles_use_only_new_observations() {
    let hist = |a: u32, b: u32, c: u32| {
        sample(&format!(
            "# TYPE l histogram\nl_bucket{{le=\"1\"}} {a}\nl_bucket{{le=\"2\"}} {b}\nl_bucket{{le=\"+Inf\"}} {c}\nl_count {c}\n"
        ))
    };
    // a hundred fast observations before the window, ten slow ones in it
    let h = ring(vec![hist(100, 100, 100), hist(100, 110, 110)]);
    let p50 = h.hist_quantile(fam("l"), n(0.5), WINDOWS[2], calc).map(f);
    assert_eq!(p50, Some(1.5));
    let all = h.hist_snapshot_quantile(fam("l"), n(0.5), calc).map(f);
    assert_eq!(all, Some(0.55));
    // four new observations are too few
    let h = ring(vec![hist(100, 100, 100), hist(100, 104, 104)]);
    assert_eq!(
        h.hist_quantile(fam("l"), n(0.5), WINDOWS[2], calc).map(f),
        h.hist_snapshot_quantile(fam("l"), n(0.5), calc).map(f)
    );
    // what lies behind the last bound counts as on it
    let h = ring(vec![hist(0, 0, 10)]);
    assert_eq!(h.hist_snapshot_quantile(fam("l"), n(0.99), calc).map(f), Some(2.0));
}

#[test]
fn stall_budgets_cut_the_oldest_interval() {
    // newest last: 2 s, 4 s, 2 s, the outer two flagged
    let flags = [true, true, false];
    let dt = [n(2.0), n(4.0), n(2.0)];
    let s = fold_stalls(&flags, &dt, calc);
    // five seconds back: the calm interval and three seconds of the next
    assert_eq!((s[0].count, f(s[0].seconds)), (1, 3.0));
    assert_eq!((s[1].count, f(s[1].seconds)), (2, 6.0));
    assert_eq!((s[2].count, f(s[2].seconds)), (2, 6.0));
    // flags behind the last interval stand for nothing
    let more = fold_stalls(&[true, true, false, true, true], &dt, calc);
    assert_eq!((more[0].count, f(more[0].seconds)), (1, 3.0));
    assert_eq!((more[2].count, f(more[2].seconds)), (2, 6.0));
    let none = fold_stalls(&[false, false], &[n(1.0), n(1.0)], calc);
    assert_eq!((none[2].count, f(none[2].seconds)), (0, 0.0));
}

#[test]
fn longer_windows_have_no_fewer_stalls() {
    let flags = [true; 40];
    let dt = [n(2.0); 40];
    let s = fold_stalls(&flags, &dt, calc);
    assert_eq!((s[0].count, f(s[0].seconds)), (3, 5.0));
    assert_eq!((s[1].count, f(s[1].seconds)), (8, 15.0));
    assert_eq!((s[2].count, f(s[2].seconds)), (30, 60.0));
}

#[test]
fn pool_lanes_are_ratios() {
    let full = "sglang:kv_used_tokens 150\nsglang:max_total_num_tokens 100\n\
        sglang:mamba_used_tokens 3\nsglang:mamba_available_tokens 1\n\
        sglang:swa_used_tokens 2\n\
        sglang:hicache_host_used_tokens 150\nsglang:hicache_host_total_tokens 100\n";
    let h = ring(vec![sample(full), sample(full)]);
    let g = scan_window(&h, calc);
    assert_eq!(f(g.pool_kv[0]), 1.0);
    assert_eq!(f(g.pool_mamba[0]), 0.75);
    assert_eq!(f(g.pool_swa[0]), 1.0);
    assert_eq!(f(g.pool_host[0]), 1.0);
    let half = "sglang:hicache_host_used_tokens 50\nsglang:hicache_host_total_tokens 100\n";
    let h = ring(vec![sample(half), sample(half)]);
    assert_eq!(f(scan_window(&h, calc).pool_host[0]), 0.5);
}

#[test]
fn sparse_windows_are_flagged() {
    let hist = |k: u64| {
        sample(&format!(
            "# TYPE l histogram\nl_bucket{{le=\"1\"}} {k}\nl_bucket{{le=\"+Inf\"}} {k}\nl_count {k}\n"
        ))
    };
    let h = ring(vec![hist(10), hist(14)]);
    assert!(h.is_sparse(fam("l"), WINDOWS[2]));
    let h = ring(vec![hist(10), hist(15)]);
    assert!(!h.is_sparse(fam("l"), WINDOWS[2]));
    assert!(ring(vec![hist(10)]).is_sparse(fam("l"), WINDOWS[2]));
    let d = derived(&ring(vec![engine(0.0, 0.0, 0.0), engine(80.0, 300.0, 6.0)]));
    assert!(d.ttft[0].cumulative && d.ttft[0].p50.is_some());
}

const ENGINE: &str = "\
sglang:num_running_reqs{engine_type=\"unified\",model_name=\"glm\"} 4
sglang:num_queue_reqs 2
sglang:num_grammar_queue_reqs 1500
sglang:token_usage 0.5
sglang:kv_used_tokens 115904
sglang:max_total_num_tokens 2843392
sglang:swa_used_tokens{r=\"0\"} 3
sglang:swa_used_tokens{r=\"1\"} 5
sglang:swa_available_tokens{r=\"0\"} 12
sglang:swa_available_tokens{r=\"1\"} 12
sglang:hicache_host_total_tokens 1000
sglang:hicache_host_used_tokens 990
sglang:cache_hit_rate 0.876
sglang:decode_sum_seq_lens 1000
";

fn engine(decode: f64, prefill: f64, hit: f64) -> Sample {
    sample(&format!(
        "{ENGINE}sglang:realtime_tokens_total{{mode=\"decode\"}} {decode}\n\
         sglang:realtime_tokens_total{{mode=\"prefill_compute\"}} {prefill}\n\
         sglang:prefill_effective_tokens_total{{mode=\"device_hit\"}} {hit}\n\
         sglang:prefill_effective_tokens_total{{mode=\"computed\"}} {hit}\n\
         # TYPE sglang:time_to_first_token_seconds histogram\n\
         sglang:time_to_first_token_seconds_bucket{{le=\"20\"}} 10\n\
         sglang:time_to_first_token_seconds_bucket{{le=\"+Inf\"}} 10\n\
         sglang:time_to_first_token_seconds_count 10\n"
    ))
}

#[test]
fn figures_of_an_engine() {
    let h = ring(vec![engine(0.0, 0.0, 0.0), engine(80.0, 300.0, 6.0)]);
    let d = derived(&h);
    assert_eq!((d.model.as_str(), d.engine.as_str()), ("glm", "unified"));
    assert_eq!(d.running.map(f), Some(4.0));
    assert_eq!(d.queue.map(f), Some(2.0));
    assert_eq!(d.subqueues.len(), 5);
    assert_eq!(d.subqueues[4].0, "grammar");
    assert_eq!(d.subqueues[4].1.map(f), Some(1500.0));
    assert_eq!(d.decode_rate.map(|v| v.map(f)), [Some(80.0); 3]);
    assert_eq!(d.decode_instant.map(f), Some(80.0));
    assert_eq!(d.prefill_instant.map(f), Some(300.0));
    assert_eq!(d.gen_progress.map(f), Some(250.0));
    assert_eq!(d.l2_device.map(f), Some(0.5));
    assert!(d.l2_host.is_none());
    let pools: Vec<(&str, &str, f64)> =
        d.pools.iter().map(|p| (p.name, p.unit, f(p.usage))).collect();
    assert_eq!(pools[0].0, "KV");
    assert!((pools[0].2 - 115904.0 / 2843392.0).abs() < 1e-12);
    // the ranks' slots are added up
    assert_eq!(pools[1], ("SWA", "slots", 0.25));
    assert_eq!(pools[2], ("host", "tokens", 0.99));
    assert_eq!(d.window_focus, 2);
}

#[test]
fn snapshot_of_an_engine() {
    let h = ring(vec![engine(0.0, 0.0, 0.0), engine(80.0, 300.0, 6.0)]);
    let mut peaks = Peaks::default();
    let lines = print_once(&h, &mut peaks, calc, show).unwrap();
    assert_eq!(
        lines,
        vec![
            "sglang glm (unified) — running 4 · queue 2 · pools: KV 4% (116k / 2.8M) / SWA 25% (8 / 32 slots) / host 99% (990 / 1k)",
            "tokens: decode 80 tok/s · prefill 300 tok/s (5s/15s/60s: 80 tok/s/80 tok/s/80 tok/s) · cache hit 88% · spec accept —",
            "ttft (60s): p50 10.0s · p95 19.0s · p99 19.8s · cumulative",
            "itl (60s): p50 — · p95 — · p99 —",
            "e2e (60s): p50 — · p95 — · p99 —",
            "queues: prefill bootstrap — · prefill inflight — · decode prealloc — · decode transfer — · grammar 1500",
            "l2: dev 50% · host — · wb — tok/s · rb — tok/s · drop — tok/s",
            "peaks (this run): decode 80 · prefill 300 · single stream 20 tok/s",
            "stalls: 0 × 0.0s in 60s · evict/s — · retract/s — · 503/s —",
        ]
    );
    assert_eq!(peaks.decode.map(f), Some(80.0));
}

#[test]
fn fresh_percentiles_bear_no_label() {
    let grown = |k: u64| {
        sample(&format!(
            "# TYPE sglang:time_to_first_token_seconds histogram\n\
             sglang:time_to_first_token_seconds_bucket{{le=\"20\"}} {k}\n\
             sglang:time_to_first_token_seconds_bucket{{le=\"+Inf\"}} {k}\n\
             sglang:time_to_first_token_seconds_count {k}\n"
        ))
    };
    let mut peaks = Peaks::default();
    let h = ring(vec![grown(10), grown(20)]);
    let lines = print_once(&h, &mut peaks, calc, show).unwrap();
    assert_eq!(lines[2], "ttft (60s): p50 10.0s · p95 19.0s · p99 19.8s");
    assert_eq!(first_word(&derived(&h), 40), " p95 · first token");
    let h = ring(vec![grown(10), grown(12)]);
    let lines = print_once(&h, &mut peaks, calc, show).unwrap();
    assert_eq!(lines[2], "ttft (60s): p50 10.0s · p95 19.0s · p99 19.8s · cumulative");
    assert_eq!(first_word(&derived(&h), 40), " cumulative p95 · first token");
    // a cell of a common screen cuts the line, not the label
    assert!(first_word(&derived(&h), 17).starts_with(" cumulative p95"));
}

// The last line of the cell on the first token.
fn first_word(d: &Derived, width: u16) -> String {
    let cell = Rect {
        x: 0,
        y: 0,
        width,
        height: 5,
    };
    let ops = draw_hero(Some(d), 2, false, cell, &vec![cell; 6], calc, show);
    match &ops[5] {
        Op::Text { lines, .. } => lines[2].spans.iter().map(|s| s.text.as_str()).collect(),
        other => panic!("{other:?}"),
    }
}

#[test]
fn no_scrape_no_snapshot() {
    let h = History::default();
    let mut peaks = Peaks {
        decode: Some(n(5.0)),
        prefill: None,
        decode_single: None,
    };
    let err = print_once(&h, &mut peaks, calc, show).unwrap_err();
    assert_eq!(err, OnceError::NoData);
    assert_eq!(err.message(), "no data scraped yet");
    assert_eq!(peaks.decode.map(f), Some(5.0));
    assert!(sgtop::derive::derive(&h, 2, calc).is_none());
}

#[test]
fn a_restart_of_either_counter_clears_the_peaks() {
    let mut p = Peaks {
        decode: Some(n(5.0)),
        prefill: Some(n(6.0)),
        decode_single: Some(n(7.0)),
    };
    let h = ring(vec![work(Some(10.0), Some(50.0), 1.0), work(Some(90.0), Some(1.0), 1.0)]);
    update_peaks(&mut p, &h, calc);
    assert!(p.decode.is_none() && p.prefill.is_none() && p.decode_single.is_none());
}
