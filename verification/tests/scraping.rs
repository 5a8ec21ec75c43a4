use sgtop::derive::Peaks;
use sgtop::history::SECOND;
use sgtop::num::{Calc, Num};
use sgtop::scrape::{authorization, metrics_url, FetchError, Shared};

const T0: u64 = 1_000_000_000_000;

fn n(v: f64) -> Num {
    Num { bits: v.to_bits() }
}

fn f(v: Num) -> f64 {
    f64::from_bits(v.bits)
}

fn read(s: &str) -> Option<Num> {
    s.parse::<f64>().ok().map(n)
}

fn calc(c: Calc) -> Num {
    n(match c {
        Calc::Sum(a, b) => f(a) + f(b),
        Calc::Difference(a, b) => f(a) - f(b),
        Calc::Product(a, b) => f(a) * f(b),
        Calc::Quotient(a, b) => f(a) / f(b),
        Calc::Seconds(ns) => std::time::Duration::from_nanos(ns).as_secs_f64(),
        Calc::Nanos(s) => std::time::Duration::from_secs_f64(f(s)).as_nanos() as f64,
        Calc::Whole(k) => k as f64,
        Calc::Decade(a) => 10.0_f64.powf(f(a).log10().floor()),
        Calc::Ceil(a) => f(a).ceil(),
    })
}

#[test]
fn url_normalization() {
    assert_eq!(
        metrics_url("http://localhost:30000"),
        "http://localhost:30000/metrics"
    );
    assert_eq!(
        metrics_url("http://localhost:30000/"),
        "http://localhost:30000/metrics"
    );
    assert_eq!(
        metrics_url("https://example.org/metrics"),
        "https://example.org/metrics"
    );
}

#[test]
fn urls_are_stable() {
    for base in ["", "/", "http://h//", "http://h/metrics///", "metrics", "http://h/metricsx"] {
        let once = metrics_url(base);
        assert!(once.ends_with("/metrics"));
        assert_eq!(metrics_url(&once), once);
        assert_eq!(metrics_url(&format!("{base}/")), once);
    }
    assert_eq!(metrics_url("metrics"), "metrics/metrics");
}

#[test]
fn keys_are_sent_as_bearer_tokens() {
    assert_eq!(authorization(Some("abc")), Some("Bearer abc".to_string()));
    assert_eq!(authorization(None), None);
}

fn body(decode: f64) -> String {
    format!(
        "sglang:realtime_tokens_total{{mode=\"decode\"}} {decode}\nsglang:num_running_reqs 2\n"
    )
}

#[test]
fn good_scrapes_fill_the_history() {
    let mut s = Shared::new();
    assert!(s.wants_scrape());
    assert_eq!(s.interval_ms, 1000);
    s.last_error = Some("old".into());
    s.take_in(T0, Ok(body(10.0)), read, calc);
    s.take_in(T0 + 2 * SECOND, Ok(body(50.0)), read, calc);
    assert_eq!(s.history.len(), 2);
    assert_eq!(s.history.first_seen, Some(T0));
    assert_eq!(s.last_ok, Some(T0 + 2 * SECOND));
    assert_eq!(s.last_error, None);
    // 40 tokens over 2 seconds, shared by two requests
    assert_eq!(s.peaks.decode.map(f), Some(20.0));
    assert_eq!(s.peaks.decode_single.map(f), Some(10.0));
    assert_eq!(s.peaks.prefill, None);
}

#[test]
fn failures_keep_the_data() {
    let mut s = Shared::new();
    s.take_in(T0, Ok(body(10.0)), read, calc);
    s.take_in(T0 + SECOND, Ok(body(50.0)), read, calc);
    let peaks: Peaks = s.peaks;

    let e = FetchError::Request("connection refused".into());
    assert_eq!(e.message(), "scrape failed: connection refused");
    s.take_in(T0 + 2 * SECOND, Err(e), read, calc);
    assert_eq!(
        s.last_error.as_deref(),
        Some("scrape failed: connection refused")
    );
    s.take_in(
        T0 + 3 * SECOND,
        Err(FetchError::Body("stream ended".into())),
        read,
        calc,
    );
    assert_eq!(
        s.last_error.as_deref(),
        Some("reading scrape body: stream ended")
    );

    // a payload over a cap is rejected whole
    let mut big = String::from("# TYPE h histogram\n");
    for i in 0..300 {
        big.push_str(&format!("h_bucket{{le=\"{i}\"}} 1\n"));
    }
    s.take_in(T0 + 4 * SECOND, Ok(big), read, calc);
    assert_eq!(
        s.last_error.as_deref(),
        Some("endpoint too large: h has 257 buckets (cap 256)")
    );

    assert_eq!(s.history.len(), 2);
    assert_eq!(s.last_ok, Some(T0 + SECOND));
    assert_eq!(s.peaks.decode.map(f), peaks.decode.map(f));
}

#[test]
fn pauses_are_clamped() {
    let mut s = Shared::new();
    assert_eq!(s.pause_ms(), 1000);
    s.interval_ms = 0;
    assert_eq!(s.pause_ms(), 250);
    s.interval_ms = u64::MAX;
    assert_eq!(s.pause_ms(), 10_000);
    s.paused = true;
    assert!(!s.wants_scrape());
}
