use ratatui::backend::TestBackend;
use ratatui::layout::Rect as Area;
use ratatui::style::{Color, Style};
use ratatui::symbols::Marker;
use ratatui::text::{Line, Span};
use ratatui::widgets::canvas::{Canvas, Line as Stroke};
use ratatui::widgets::{Block, BorderType, Borders, Clear, Paragraph};
use ratatui::Terminal;

use sgtop::args::Args;
use sgtop::derive::Peaks;
use sgtop::history::{History, SECOND};
use sgtop::metrics::{parse, SeriesKey};
use sgtop::num::{Calc, Num};
use sgtop::panels::Op;
use sgtop::plot::Mark;
use sgtop::scrape::Shared;
use sgtop::screen::Rect;
use sgtop::ui::{draw, Overlay, Ui};

const T0: u64 = 1_000_000_000_000;

fn n(v: f64) -> Num {
    Num { bits: v.to_bits() }
}

fn f(v: Num) -> f64 {
    f64::from_bits(v.bits)
}

fn read(s: &str) -> Option<Num> {
    s.parse::<f64>().ok().map(n)
}

fn show(v: Num, d: u8) -> String {
    format!("{:.*}", d as usize, f(v))
}

fn calc(c: Calc) -> Num {
    n(match c {
        Calc::Sum(a, b) => f(a) + f(b),
        Calc::Difference(a, b) => f(a) - f(b),
        Calc::Product(a, b) => f(a) * f(b),
        Calc::Quotient(a, b) => f(a) / f(b),
        Calc::Seconds(ns) => std::time::Duration::from_nanos(ns).as_secs_f64(),
        Calc::Nanos(s) => std::time::Duration::from_secs_f64(f(s)).as_nanos() as f64,
        Calc::Whole(k) => k as f64,
        Calc::Decade(a) => 10.0_f64.powf(f(a).log10().floor()),
        Calc::Ceil(a) => f(a).ceil(),
    })
}

// One scrape of an idle engine.
fn fixture() -> String {
    let rank = "engine_type=\"unified\",model_name=\"glm-5.3-flash\",moe_ep_rank=\"0\",pp_rank=\"0\",tp_rank=\"0\"";
    let engine = "engine_type=\"unified\",model_name=\"glm-5.3-flash\"";
    let mut s = String::new();
    for (name, v) in [
        ("sglang:num_running_reqs", "0.0"),
        ("sglang:num_queue_reqs", "0.0"),
        ("sglang:token_usage", "0.18"),
        ("sglang:kv_used_tokens", "124000.0"),
        ("sglang:max_total_num_tokens", "655000.0"),
        ("sglang:mamba_used_tokens", "12.0"),
        ("sglang:mamba_available_tokens", "52.0"),
        ("sglang:mamba_usage", "0.2"),
        ("sglang:cache_hit_rate", "0.91"),
        ("sglang:spec_accept_rate", "0.75"),
        ("sglang:spec_accept_length", "2.5"),
        ("sglang:gen_throughput", "0.0"),
        ("sglang:utilization", "NaN"),
    ] {
        s.push_str(&format!(
            "# HELP {name} a gauge\n# TYPE {name} gauge\n{name}{{{rank}}} {v}\n"
        ));
    }
    let total = "sglang:realtime_tokens_total";
    s.push_str(&format!("# HELP {total} tokens\n# TYPE {total} counter\n"));
    for (mode, v) in [("decode", "114659.0"), ("prefill_compute", "730000.0")] {
        s.push_str(&format!(
            "{total}{{engine_type=\"unified\",mode=\"{mode}\",model_name=\"glm-5.3-flash\",moe_ep_rank=\"0\",pp_rank=\"0\",tp_rank=\"0\"}} {v}\n"
        ));
    }
    for name in [
        "sglang:time_to_first_token_seconds",
        "sglang:inter_token_latency_seconds",
        "sglang:e2e_request_latency_seconds",
        "sglang:queue_time_seconds",
    ] {
        s.push_str(&format!("# HELP {name} latency\n# TYPE {name} histogram\n"));
        s.push_str(&format!("{name}_sum{{{engine}}} 12.5\n"));
        for (le, v) in [
            ("0.002", "10.0"),
            ("0.05", "900.0"),
            ("0.5", "990.0"),
            ("5.0", "1000.0"),
            ("+Inf", "1000.0"),
        ] {
            s.push_str(&format!("{name}_bucket{{{engine},le=\"{le}\"}} {v}\n"));
        }
        s.push_str(&format!("{name}_count{{{engine}}} 1000.0\n"));
    }
    s
}

fn key(name: &str, labels: &[(&str, &str)]) -> SeriesKey {
    SeriesKey {
        name: name.into(),
        labels: labels
            .iter()
            .map(|(k, v)| (k.to_string(), v.to_string()))
            .collect(),
    }
}

#[test]
fn parses_live_fixture() {
    let s = parse(&fixture(), read).unwrap();
    let running = key(
        "sglang:num_running_reqs",
        &[
            ("engine_type", "unified"),
            ("model_name", "glm-5.3-flash"),
            ("moe_ep_rank", "0"),
            ("pp_rank", "0"),
            ("tp_rank", "0"),
        ],
    );
    // engine was fully idle at scrape time
    assert_eq!(s.simple.get(&running).map(|v| f(*v)), Some(0.0));
    let usage = f(s.gauge("sglang:token_usage").unwrap());
    assert!((0.0..=1.0).contains(&usage));

    // histogram ladder: ITL — bucket counts must match the emitted _count
    let itl = s
        .hist
        .get(&key(
            "sglang:inter_token_latency_seconds",
            &[("engine_type", "unified"), ("model_name", "glm-5.3-flash")],
        ))
        .unwrap();
    let expected_count: u64 = fixture()
        .lines()
        .find(|l| l.starts_with("sglang:inter_token_latency_seconds_count"))
        .and_then(|l| l.split_whitespace().last())
        .and_then(|v| v.parse::<f64>().ok())
        .map(|v| v as u64)
        .expect("fixture must contain an ITL _count line");
    assert_eq!(itl.count, expected_count);
    assert_eq!(f(*itl.le.first().unwrap()).to_string(), "0.002");
    assert!(f(*itl.le.last().unwrap()).is_infinite());
    assert_eq!(f(*itl.counts.last().unwrap()), expected_count as f64);

    // series must exist for every # HELP family carrying readable data.
    // a family whose every record holds a non-finite value is no data:
    // it parses to no series, and the UI renders the missing marker
    // rather than a maximal value
    let mut family_has_finite_record: std::collections::BTreeMap<String, bool> = Default::default();
    for l in fixture().lines() {
        let l = l.trim();
        if l.is_empty() || l.starts_with('#') {
            continue;
        }
        let name = l
            .split('{')
            .next()
            .unwrap()
            .split_whitespace()
            .next()
            .unwrap();
        let base = name
            .strip_suffix("_bucket")
            .or_else(|| name.strip_suffix("_sum"))
            .or_else(|| name.strip_suffix("_count"))
            .unwrap_or(name);
        let finite = l
            .split_whitespace()
            .last()
            .and_then(|v| v.parse::<f64>().ok())
            .is_some_and(|v| v.is_finite());
        *family_has_finite_record
            .entry(base.to_string())
            .or_insert(false) |= finite;
    }
    let expected: std::collections::BTreeSet<String> = fixture()
        .lines()
        .filter(|l| l.starts_with("# HELP"))
        .filter_map(|l| l.split_whitespace().nth(2))
        .filter(|fam| family_has_finite_record.get(*fam).copied().unwrap_or(true))
        .map(String::from)
        .collect();
    let families: std::collections::BTreeSet<String> = s
        .simple
        .entries
        .iter()
        .map(|(k, _)| k.name.clone())
        .chain(s.hist.entries.iter().map(|(k, _)| k.name.clone()))
        .collect();
    assert_eq!(
        families, expected,
        "parsed families must match the HELP families carrying readable data"
    );
}

fn shared_with_fixture() -> Shared {
    let body = fixture();
    let mut shared = Shared::new();
    shared.last_ok = Some(T0 + SECOND);
    shared.peaks = Peaks {
        decode: Some(n(402.0)),
        prefill: Some(n(812.0)),
        decode_single: Some(n(134.0)),
    };
    // two samples one scrape apart, the second with a distinct decode
    // reading, so the graphs draw a real interval instead of a degenerate
    // zero-duration, zero-delta sample
    let bumped = body.replace(
        "mode=\"decode\",model_name=\"glm-5.3-flash\",moe_ep_rank=\"0\",pp_rank=\"0\",tp_rank=\"0\"} 114659.0",
        "mode=\"decode\",model_name=\"glm-5.3-flash\",moe_ep_rank=\"0\",pp_rank=\"0\",tp_rank=\"0\"} 115059.0",
    );
    assert_ne!(body, bumped);
    let mut h = History::default();
    h.push(T0, parse(&body, read).unwrap(), calc);
    h.push(T0 + SECOND, parse(&bumped, read).unwrap(), calc);
    shared.history = h;
    shared
}

// History seeded from explicit payloads one scrape apart, for tests
// needing a custom latest sample.
fn shared_with_bodies(bodies: &[String]) -> Shared {
    let mut shared = Shared::new();
    for (i, body) in bodies.iter().enumerate() {
        let t = T0 + i as u64 * SECOND;
        shared.history.push(t, parse(body, read).unwrap(), calc);
        shared.last_ok = Some(t);
    }
    shared
}

fn rect(r: Rect) -> Area {
    Area {
        x: r.x,
        y: r.y,
        width: r.width,
        height: r.height,
    }
}

fn line(l: &sgtop::screen::Line) -> Line<'static> {
    Line::from(
        l.spans
            .iter()
            .map(|s| Span::raw(s.text.clone()))
            .collect::<Vec<_>>(),
    )
}

fn render_ops(cols: u16, rows: u16, ops: &[Op]) -> String {
    let backend = TestBackend::new(cols, rows);
    let mut terminal = Terminal::new(backend).unwrap();
    terminal
        .draw(|frame| {
            for op in ops {
                match op {
                    Op::Fill { area } => frame.render_widget(Block::new(), rect(*area)),
                    Op::Frame {
                        area, title, foot, ..
                    } => {
                        let mut b = Block::default()
                            .borders(Borders::ALL)
                            .border_type(BorderType::Rounded)
                            .title(line(title));
                        if let Some(sub) = foot {
                            b = b.title_bottom(line(sub));
                        }
                        frame.render_widget(b, rect(*area));
                    }
                    Op::Text {
                        area,
                        lines,
                        scroll,
                    } => frame.render_widget(
                        Paragraph::new(lines.iter().map(line).collect::<Vec<_>>())
                            .scroll((*scroll, 0)),
                        rect(*area),
                    ),
                    Op::Clear { area } => frame.render_widget(Clear, rect(*area)),
                    Op::Graph { area, plot } => {
                        let canvas = Canvas::default()
                            .marker(Marker::Braille)
                            .x_bounds([0.0, plot.width as f64])
                            .y_bounds([0.0, plot.height as f64])
                            .paint(|ctx| {
                                for m in &plot.marks {
                                    match m {
                                        Mark::Stroke { x1, y1, x2, y2, .. } => ctx.draw(&Stroke {
                                            x1: f(*x1),
                                            y1: f(*y1),
                                            x2: f(*x2),
                                            y2: f(*y2),
                                            color: Color::Red,
                                        }),
                                        Mark::Note { x, y, text, .. } => ctx.print(
                                            f(*x),
                                            f(*y),
                                            Span::styled(text.clone(), Style::new()),
                                        ),
                                    }
                                }
                            });
                        frame.render_widget(canvas, rect(*area));
                    }
                }
            }
        })
        .unwrap();
    let mut out = String::new();
    for row in 0..rows {
        for col in 0..cols {
            let cell = &terminal.backend().buffer()[(col, row)];
            out.push(cell.symbol().chars().next().unwrap_or(' '));
        }
        out.push('\n');
    }
    out
}

fn screen(cols: u16, rows: u16) -> Rect {
    Rect {
        x: 0,
        y: 0,
        width: cols,
        height: rows,
    }
}

fn render(cols: u16, rows: u16, ui: &Ui, shared: &Shared, now: u64) -> String {
    let ops = draw(screen(cols, rows), ui, shared, now, calc, show);
    render_ops(cols, rows, &ops)
}

fn render_at(cols: u16, rows: u16, overlay: Overlay) -> String {
    let ui = Ui {
        overlay,
        ..ui_default()
    };
    render(cols, rows, &ui, &shared_with_fixture(), T0 + SECOND)
}

fn ui_default() -> Ui {
    Ui::new(&Args {
        url: "http://localhost:30000".into(),
        api_key: None,
        insecure: false,
        interval: n(1.0),
        theme: "gruvbox".into(),
        compact: false,
        once: false,
    })
}

#[test]
fn full_layout_renders_key_panels() {
    // 120x30
    let out = render_at(120, 30, Overlay::Closed);
    assert!(out.contains("sgtop"), "header missing");
    assert!(out.contains("glm-5.3-flash"), "model missing");
    assert!(out.contains("RUNNING"), "hero missing");
    assert!(out.contains("Prefill"), "prefill graph missing");
    assert!(out.contains("Decode"), "decode graph missing");
    assert!(out.contains("Speed per stream"), "per-stream graph missing");
    assert!(out.contains("Memory pools"), "pools missing");
    assert!(out.contains("KV"), "KV pool missing");
    assert!(out.contains("mamba"), "mamba pool missing");
    assert!(out.contains("Latency"), "latency panel missing");
    assert!(out.contains("p50"), "percentiles missing");
    assert!(out.contains("Health & trouble"), "health panel missing");
    assert!(out.contains("Peaks"), "peaks panel missing");
    assert!(out.contains("402 tok/s"), "peak decode missing");
}

#[test]
fn compact_layout_renders_at_quarter_screen() {
    // 96x14
    let out = render_at(96, 14, Overlay::Closed);
    assert!(out.contains("sgtop"));
    assert!(out.contains("RUNNING") || out.contains("running"));
    // compact collapses the subtitle lines but keeps hero + graph + latency
    assert!(out.contains("p50"));
}

#[test]
fn overlays_render() {
    let help = render_at(120, 30, Overlay::Help);
    assert!(help.contains("keymap"));
    assert!(help.contains("pause scraping"));
    let explain = render_at(120, 40, Overlay::Explain);
    assert!(explain.contains("What am I looking at?"));
    assert!(explain.contains("Time to first token"));
    assert!(explain.contains("p50 is a typical request"));
}

#[test]
fn tiny_terminal_does_not_panic() {
    let _ = render_at(40, 8, Overlay::Closed);
    let _ = render_at(20, 4, Overlay::Closed);
}

#[test]
fn insecure_tls_hint_renders_only_when_enabled() {
    let out = render_at(120, 30, Overlay::Closed);
    assert!(
        !out.contains("insecure TLS"),
        "hint shown without --insecure"
    );

    let ui = Ui {
        insecure: true,
        ..ui_default()
    };
    let out = render(120, 30, &ui, &shared_with_fixture(), T0 + SECOND);
    assert!(
        out.contains("insecure TLS"),
        "hint missing with --insecure:\n{out}"
    );
}

#[test]
fn debug_print_full() {
    let out = render_at(120, 30, Overlay::Closed);
    println!("=====\n{out}\n=====");
}

#[test]
fn error_banner_renders_when_stale() {
    let mut shared = shared_with_fixture();
    shared.last_error = Some("scrape failed: connection refused".into());
    shared.last_ok = Some(T0);
    let out = render(120, 30, &ui_default(), &shared, T0 + 30 * SECOND);
    assert!(out.contains("connection lost"), "banner missing:\n{out}");
    assert!(out.contains("30s ago"));
}

#[test]
fn narrow_full_layout_truncates_with_ellipsis() {
    // force full layout below the auto threshold to exercise the panels
    let ui = Ui {
        compact: Some(false),
        ..ui_default()
    };
    let out = render(76, 30, &ui, &shared_with_fixture(), T0 + SECOND);
    assert!(
        out.contains('\u{2026}'),
        "expected truncated lines with ellipsis:\n{out}"
    );
    // no line may overflow its panel border (wrap would have pushed content down)
    assert!(out.contains("Answer quality"));
    assert!(out.contains("Health & trouble"));
}

#[test]
fn debug_print_wide() {
    let out = render_at(230, 45, Overlay::Closed);
    println!("=====\n{out}\n=====");
}

// A non-finite gauge reading is no data: the UI renders the missing marker,
// never a "NaN" percentage or a maximal-looking bar.
#[test]
fn non_finite_gauge_reading_renders_as_no_data() {
    let fixture = fixture();
    for reading in ["NaN", "+Inf", "-Inf"] {
        // newest scrape carries a non-finite cache-hit reading
        // where the fixture has a finite one
        let stale = format!(
            "{}\nsglang:cache_hit_rate{{engine_type=\"unified\",model_name=\"glm-5.3-flash\",\
             moe_ep_rank=\"0\",pp_rank=\"0\",tp_rank=\"0\"}} {reading}\n",
            fixture
        );
        let shared = shared_with_bodies(&[fixture.clone(), stale]);
        let out = render(120, 30, &ui_default(), &shared, T0 + SECOND);
        assert!(
            !out.contains("NaN"),
            "a {reading} reading must render as no data, got:\n{out}"
        );
    }
}

// The very first frame, before any scrape has landed, shows a stable
// zero state: the panels and their placeholders draw without panic,
// no graph is plotted from an empty ring, and no fabricated numbers
// appear. Two consecutive frames must render identically.
#[test]
fn cold_start_frame_renders_a_stable_zero_state() {
    let first = render(120, 30, &ui_default(), &Shared::new(), T0);
    let again = render(120, 30, &ui_default(), &Shared::new(), T0);
    assert_eq!(
        first, again,
        "the zero state must render identically every frame"
    );

    assert!(first.contains("sgtop"), "header missing:\n{first}");
    assert!(first.contains("Engine status"), "hero frame missing");
    assert!(first.contains("Latency"), "latency panel missing");
    assert!(first.contains("Peaks"), "peaks panel missing");
    // the peaks panel shows the missing marker for every zero value
    assert!(
        first.contains("decode   —"),
        "peaks placeholders missing:\n{first}"
    );
    // an empty ring plots no graphs and shows no hero numbers
    assert!(!first.contains("Prefill"), "a graph rendered from no data");
    assert!(!first.contains("Decode"), "a graph rendered from no data");
    assert!(
        !first.contains("RUNNING"),
        "hero numbers rendered from no data"
    );
    assert!(!first.contains("NaN"), "a NaN reached the screen:\n{first}");

    // A terminal too small for the panels' combined minimum height has
    // more than one valid layout split, and which split the solver lands
    // on is not stable across runs. Content is therefore pinned at the size
    // above, whose panel minimums exactly fill the screen, while smaller
    // terminals get a no-panic check only.
    let _ = render(40, 8, &ui_default(), &Shared::new(), T0);
}

// ---- the division of the screen ----

fn inside(r: Rect, outer: Rect) -> bool {
    outer.x <= r.x
        && outer.y <= r.y
        && r.x + r.width <= outer.x + outer.width
        && r.y + r.height <= outer.y + outer.height
}

fn area_of(op: &Op) -> Rect {
    match op {
        Op::Fill { area } => *area,
        Op::Frame { area, .. } => *area,
        Op::Text { area, .. } => *area,
        Op::Clear { area } => *area,
        Op::Graph { area, .. } => *area,
    }
}

#[test]
fn nothing_is_drawn_outside_of_the_screen() {
    for (cols, rows) in [(230, 45), (120, 30), (96, 14), (40, 8), (20, 4), (3, 2), (1, 1)] {
        for overlay in [Overlay::Closed, Overlay::Help, Overlay::Explain] {
            for compact in [None, Some(false), Some(true)] {
                let ui = Ui {
                    overlay,
                    compact,
                    ..ui_default()
                };
                let all = screen(cols, rows);
                let ops = draw(all, &ui, &shared_with_fixture(), T0 + SECOND, calc, show);
                for op in &ops {
                    assert!(inside(area_of(op), all), "{op:?} on {cols}x{rows}");
                }
            }
        }
    }
}

#[test]
fn rows_take_the_sizes_they_ask_for() {
    let p = sgtop::dashboard::plan(screen(120, 40), false, true, 10, Some(2));
    let rows: Vec<(u16, u16)> = p.rows.iter().map(|r| (r.y, r.height)).collect();
    // header, hero, graphs (all spare rows), latency, detail
    assert_eq!(rows, vec![(0, 1), (1, 5), (6, 16), (22, 8), (30, 10)]);
    assert_eq!(p.hero.len(), 6);
    assert_eq!(p.graphs.len(), 3);
    assert_eq!(p.right.len(), 2);
    assert_eq!(p.lanes.len(), 2);
    assert_eq!(p.detail.len(), 4);
    // the lanes leave a row between them
    assert!(p.lanes[0].y + p.lanes[0].height < p.lanes[1].y);
    let compact = sgtop::dashboard::plan(screen(80, 20), true, false, 10, Some(2));
    let rows: Vec<(u16, u16)> = compact.rows.iter().map(|r| (r.y, r.height)).collect();
    assert_eq!(rows[0], (0, 1));
    assert_eq!(rows[1], (1, 3));
    assert_eq!(compact.rows.len(), 4);
    assert!(compact.detail.is_empty());
}

#[test]
fn layout_follows_the_terminal_size() {
    let full = render_at(90, 26, Overlay::Closed);
    assert!(full.contains("Answer quality"));
    let short = render_at(90, 25, Overlay::Closed);
    assert!(short.contains("Queues & health"));
    let narrow = render_at(89, 26, Overlay::Closed);
    assert!(narrow.contains("Queues & health"));
}

#[test]
fn pause_banner_goes_first() {
    let mut shared = shared_with_fixture();
    shared.last_error = Some("scrape failed: connection refused".into());
    let ui = Ui {
        paused_since: Some(T0),
        ..ui_default()
    };
    let out = render(120, 30, &ui, &shared, T0 + 75 * SECOND);
    assert!(out.contains("paused 75s"), "{out}");
    assert!(!out.contains("connection lost"));
}

#[test]
fn fresh_data_hides_the_error() {
    let mut shared = shared_with_fixture();
    shared.last_error = Some("scrape failed: timeout".into());
    shared.last_ok = Some(T0);
    // three polls and a second
    let out = render(120, 30, &ui_default(), &shared, T0 + 4 * SECOND);
    assert!(!out.contains("connection lost"), "{out}");
    let out = render(120, 30, &ui_default(), &shared, T0 + 4 * SECOND + 1);
    assert!(out.contains("connection lost"), "{out}");
    // without any figures the error shows at once
    let mut cold = Shared::new();
    cold.last_error = Some("scrape failed: timeout".into());
    let out = render(120, 30, &ui_default(), &cold, T0);
    assert!(out.contains("last data 0s ago"), "{out}");
}
