use sgtop::args::Args;
use sgtop::charts::count_lanes;
use sgtop::detail::{kv_lines, Kv};
use sgtop::latency::{lat_header, lat_row, lat_row_compact};
use sgtop::derive::{Pool, Quantiles};
use sgtop::history::SECOND;
use sgtop::num::{Calc, Num};
use sgtop::overlays::{draw_help, find_popup, wrap_text};
use sgtop::panels::{latency_color, usage_color, Op};
use sgtop::plot::{grid_for_scale, mini_line_graph, Curve, Mark};
use sgtop::scrape::Shared;
use sgtop::screen::{line2, span, truncate_line, plain, Line, Rect, Tone};
use sgtop::show::{
    fmt_dur, fmt_num, fmt_pct, fmt_secs, fmt_tokens, join, pad_left, pad_right, pool_value, tok,
    tok_gauge,
};
use sgtop::ui::{auto_compact, handle_key, Key, Overlay, Ui};

const T0: u64 = 1_000_000_000_000;

fn n(v: f64) -> Num {
    Num { bits: v.to_bits() }
}

fn f(v: Num) -> f64 {
    f64::from_bits(v.bits)
}

fn show(v: Num, d: u8) -> String {
    format!("{:.*}", d as usize, f(v))
}

fn calc(c: Calc) -> Num {
    n(match c {
        Calc::Sum(a, b) => f(a) + f(b),
        Calc::Difference(a, b) => f(a) - f(b),
        Calc::Product(a, b) => f(a) * f(b),
        Calc::Quotient(a, b) => f(a) / f(b),
        Calc::Seconds(ns) => std::time::Duration::from_nanos(ns).as_secs_f64(),
        Calc::Nanos(s) => std::time::Duration::from_secs_f64(f(s)).as_nanos() as f64,
        Calc::Whole(k) => k as f64,
        Calc::Decade(a) => 10.0_f64.powf(f(a).log10().floor()),
        Calc::Ceil(a) => f(a).ceil(),
    })
}

fn text(l: &Line) -> String {
    l.spans.iter().map(|s| s.text.as_str()).collect()
}

#[test]
fn figures_as_text() {
    let num = |v: f64| fmt_num(Some(n(v)), calc, show);
    assert_eq!(num(999.4), "999");
    assert_eq!(num(1000.0), "1.0k");
    assert_eq!(num(-2500.0), "-2.5k");
    assert_eq!(fmt_num(None, calc, show), "—");
    assert_eq!(fmt_pct(Some(n(0.204)), calc, show), "20%");
    assert_eq!(fmt_pct(None, calc, show), "—");
    assert_eq!(fmt_tokens(n(115904.0), calc, show), "116k");
    assert_eq!(fmt_tokens(n(2843392.0), calc, show), "2.8M");
    assert_eq!(fmt_tokens(n(999.0), calc, show), "999");
    let secs = |v: f64| fmt_secs(Some(n(v)), calc, show);
    assert_eq!(secs(123.4), "123s");
    assert_eq!(secs(12.34), "12.3s");
    assert_eq!(secs(1.234), "1234ms");
    assert_eq!(fmt_secs(None, calc, show), "—");
    assert_eq!(tok(Some(n(402.4)), show), "402 tok/s");
    assert_eq!(tok(None, show), "—");
    assert_eq!(tok_gauge(Some(n(7.6)), show), "8");
}

#[test]
fn durations_as_text() {
    assert_eq!(fmt_dur(59), "59s");
    assert_eq!(fmt_dur(61), "1m1s");
    assert_eq!(fmt_dur(3600), "1h00m");
    assert_eq!(fmt_dur(36_000 + 59 * 60 + 59), "10h59m");
}

#[test]
fn pools_as_text() {
    let pool = |used, total, unit| Pool {
        name: "x",
        usage: n(0.2),
        used,
        total,
        unit,
    };
    let show_pool = |p: Pool| pool_value(&p, calc, show);
    assert_eq!(
        show_pool(pool(Some(n(116000.0)), Some(n(1.3e6)), "tokens")),
        "20% (116k / 1.3M)"
    );
    assert_eq!(
        show_pool(pool(Some(n(3.0)), Some(n(15.0)), "slots")),
        "20% (3 / 15 slots)"
    );
    assert_eq!(show_pool(pool(Some(n(3.0)), Some(n(0.0)), "slots")), "20%");
    assert_eq!(show_pool(pool(None, Some(n(15.0)), "tokens")), "20%");
}

#[test]
fn columns_are_padded_by_characters() {
    assert_eq!(pad_left("—", 3), "  —");
    assert_eq!(pad_right("·a", 4), "·a  ");
    assert_eq!(pad_right("long", 2), "long");
    assert_eq!(join(&vec![], "/"), "");
    assert_eq!(join(&vec!["a".into(), "b".into(), "c".into()], " / "), "a / b / c");
}

#[test]
fn lines_are_cut_with_an_ellipsis() {
    let line = || {
        line2(
            span("abc", plain(Tone::Fg)),
            span("def", plain(Tone::Dim)),
        )
    };
    assert_eq!(text(&truncate_line(line(), 9)), "abcdef");
    assert_eq!(text(&truncate_line(line(), 6)), "abcdef");
    assert_eq!(text(&truncate_line(line(), 5)), "abcd…");
    let at = truncate_line(line(), 4);
    assert_eq!(text(&at), "abc…");
    assert_eq!(at.spans[1].style, plain(Tone::Dim));
    // a cut between two spans shows as well
    assert_eq!(text(&truncate_line(line(), 3)), "ab…");
    assert_eq!(text(&truncate_line(line(), 1)), "…");
    assert_eq!(text(&truncate_line(line(), 0)), "");
}

#[test]
fn frames_take_a_cell_on_every_side() {
    let r = |x, y, width, height| Rect {
        x,
        y,
        width,
        height,
    };
    assert_eq!(r(2, 3, 10, 5).inner(), r(3, 4, 8, 3));
    assert_eq!(r(2, 3, 1, 2).inner(), r(3, 4, 0, 0));
    assert_eq!(r(2, 3, 0, 0).inner(), r(2, 3, 0, 0));
}

#[test]
fn values_are_aligned() {
    let rows = vec![
        Kv::plain("cache hit", "91%".into(), "gloss"),
        Kv::colored("503/s", "—".into(), "other", Tone::Bad),
        Kv::gloss_only("legend"),
    ];
    let lines: Vec<String> = kv_lines(&rows, 40).iter().map(text).collect();
    assert_eq!(
        lines,
        vec![" cache hit  91%  gloss", " 503/s      —    other", " legend"]
    );
    let narrow: Vec<String> = kv_lines(&rows, 8).iter().map(text).collect();
    assert_eq!(narrow, vec![" cache …", " 503/s …", " legend"]);
}

#[test]
fn latency_rows_line_up_with_their_header() {
    let q = Quantiles {
        p50: Some(n(0.25)),
        p95: Some(n(12.0)),
        p99: None,
        cumulative: false,
    };
    let row = lat_row("queue time", q, &[q; 3], calc, show);
    assert_eq!(
        text(&row),
        " queue time                  250ms    12.0s        —   │    12.0s   12.0s   12.0s"
    );
    assert_eq!(
        text(&lat_header()),
        "                               p50      p95      p99   │   p95·5s p95·15s p95·60s"
    );
    assert_eq!(row.spans[1].style.tone, Tone::Good);
    assert_eq!(row.spans[2].style.tone, Tone::Bad);
    assert_eq!(row.spans[3].style.tone, Tone::Dim);
    assert_eq!(latency_color(Some(n(0.5))), Tone::Good);
    assert_eq!(latency_color(Some(n(0.51))), Tone::Warn);
    assert_eq!(latency_color(Some(n(2.0))), Tone::Warn);
    assert_eq!(usage_color(n(0.1)), Tone::Good);
    assert_eq!(usage_color(n(1.0)), Tone::Bad);
}

#[test]
fn percentiles_of_a_sparse_window_are_labeled() {
    let fresh = Quantiles {
        p50: Some(n(0.25)),
        p95: Some(n(12.0)),
        p99: Some(n(12.0)),
        cumulative: false,
    };
    let old = Quantiles {
        cumulative: true,
        ..fresh
    };
    let nothing = Quantiles {
        p50: None,
        p95: None,
        p99: None,
        cumulative: true,
    };
    let row = lat_row("queue time", fresh, &[old, old, fresh], calc, show);
    assert_eq!(
        text(&row),
        " queue time                  250ms    12.0s    12.0s   │    12.0s   12.0s   12.0s  cumulative: 5s 15s"
    );
    assert_eq!(row.spans.len(), 7);
    assert_eq!(row.spans[6].style.tone, Tone::Dim);
    let row = lat_row("queue time", fresh, &[nothing, fresh, old], calc, show);
    assert_eq!(row.spans[6].text, "  cumulative: 60s");
    assert_eq!(
        lat_row("queue time", fresh, &[nothing, fresh, fresh], calc, show)
            .spans
            .len(),
        6
    );
    assert_eq!(
        text(&lat_row_compact("queue time", old, calc, show)),
        " queue time                p50   250ms  p95   12.0s  p99   12.0s  cumulative"
    );
    assert_eq!(
        text(&lat_row_compact("queue time", fresh, calc, show)),
        " queue time                p50   250ms  p95   12.0s  p99   12.0s"
    );
}

#[test]
fn text_is_wrapped_at_words() {
    assert_eq!(
        wrap_text("one two three", 7),
        vec!["one two", "three"]
    );
    assert_eq!(wrap_text("a\n b  c ", 80), vec!["a", "b c"]);
    assert_eq!(wrap_text("", 10), vec![""]);
    assert_eq!(wrap_text("extraordinary x", 4), vec!["extraordinary", "x"]);
    // lines are measured in bytes: the dash takes three
    assert_eq!(wrap_text("ab — c", 6), vec!["ab —", "c"]);
    assert_eq!(wrap_text("ab — c", 5), vec!["ab", "— c"]);
}

#[test]
fn the_keymap_pops_up_in_the_middle() {
    let all = Rect {
        x: 0,
        y: 0,
        width: 120,
        height: 30,
    };
    let p = find_popup(all);
    assert_eq!((p.x, p.y, p.width, p.height), (34, 7, 52, 16));
    match &draw_help(all)[2] {
        Op::Text { lines, .. } => {
            assert_eq!(lines.len(), 10);
            assert_eq!(text(&lines[0]), " q / Esc  quit");
        }
        other => panic!("{other:?}"),
    }
}

#[test]
fn gridlines_reach_the_peak() {
    let (lines, top) = grid_for_scale(n(402.0), calc);
    let lines: Vec<f64> = lines.into_iter().map(f).collect();
    assert_eq!(lines, vec![100.0, 200.0, 300.0, 400.0, 500.0]);
    assert!((f(top) - 550.0).abs() < 1e-9);
    // the scale ends 10% above the highest line, however near the peak is to it
    let (lines, top) = grid_for_scale(n(98.0), calc);
    assert_eq!(lines.len(), 10);
    assert_eq!(f(lines[9]), 100.0);
    assert!((f(top) - 110.0).abs() < 1e-9);
    let (lines, top) = grid_for_scale(n(42.0), calc);
    assert_eq!(lines.len(), 5);
    assert!((f(top) - 55.0).abs() < 1e-9);
    let (none, top) = grid_for_scale(n(9.5), calc);
    assert!(none.is_empty());
    assert!((f(top) - 10.925).abs() < 1e-9);
    let (none, top) = grid_for_scale(n(3.0), calc);
    assert!(none.is_empty());
    assert_eq!(f(top), 10.0);
}

#[test]
fn lanes_never_outnumber_their_rows() {
    assert_eq!(count_lanes(0, 10), 1);
    assert_eq!(count_lanes(3, 10), 3);
    assert_eq!(count_lanes(4, 5), 2);
    assert_eq!(count_lanes(4, 0), 1);
}

#[test]
fn graphs_are_pinned_to_the_right_edge() {
    let area = Rect {
        x: 0,
        y: 0,
        width: 10,
        height: 2,
    };
    let vals = [n(5.0), n(10.0)];
    let dt = [n(30.0), n(30.0)];
    let grid = [n(5.0), n(10.0)];
    let c = Curve {
        vals: &vals,
        dt: &dt,
        ymax: n(10.0),
        tone: Tone::First,
        stall: Some(&[false, true]),
        window: n(60.0),
        grid: &grid,
    };
    let p = mini_line_graph(area, &c, calc, show).unwrap();
    assert_eq!((p.width, p.height), (20, 8));
    let mut bars = Vec::new();
    let mut ticks = Vec::new();
    let mut notes = Vec::new();
    for m in &p.marks {
        match m {
            Mark::Stroke { x1, y2, tone, .. } if *tone == Tone::First => {
                bars.push((f(*x1), f(*y2)))
            }
            Mark::Stroke { x1, y2, tone, .. } if *tone == Tone::Red => {
                ticks.push((f(*x1), f(*y2)))
            }
            Mark::Note { text, .. } => notes.push(text.clone()),
            _ => {}
        }
    }
    // the older sample stands at the left edge, the newer in the middle
    assert_eq!(bars[0], (0.0, 5.0 / 10.0 * 8.0 * 0.96));
    assert_eq!(bars.last().unwrap(), &(19.0, 8.0 * 0.96));
    assert!(bars.windows(2).all(|w| w[1].0 - w[0].0 <= 1.0));
    assert_eq!(ticks, vec![(9.5, 2.0)]);
    assert_eq!(notes, vec!["5 tok/s", "10"]);
    // nothing to draw
    let empty = Curve { dt: &[], ..c };
    assert!(mini_line_graph(area, &empty, calc, show).is_none());
}

fn ui() -> Ui {
    Ui::new(&Args {
        url: "http://localhost:30000".into(),
        api_key: None,
        insecure: false,
        interval: n(1.0),
        theme: "tokyonight".into(),
        compact: false,
        once: false,
    })
}

fn press(u: &mut Ui, s: &mut Shared, key: Key) -> bool {
    handle_key(u, s, key, T0 + SECOND, Some((120, 30)), calc)
}

#[test]
fn options_start_the_screen() {
    let mut args = Args {
        url: String::new(),
        api_key: None,
        insecure: true,
        interval: n(99.0),
        theme: "unknown".into(),
        compact: true,
        once: false,
    };
    let u = Ui::new(&args);
    assert_eq!(u.theme(), "gruvbox");
    assert_eq!(u.compact, Some(true));
    assert!(u.insecure && u.graphs_on);
    assert_eq!(f(u.interval), 10.0);
    assert_eq!(u.window_focus, 2);
    args.interval = n(0.1);
    assert_eq!(f(args.poll_interval()), 0.5);
    assert_eq!(args.poll_ms(calc), 500);
    assert_eq!(ui().theme(), "tokyonight");
}

#[test]
fn keys_toggle_and_cycle() {
    let (mut u, mut s) = (ui(), Shared::new());
    assert!(press(&mut u, &mut s, Key::Char('q')));
    assert!(press(&mut u, &mut s, Key::Esc));
    assert!(!press(&mut u, &mut s, Key::Other));

    press(&mut u, &mut s, Key::Char('g'));
    assert!(!u.graphs_on);
    press(&mut u, &mut s, Key::Char('g'));
    assert!(u.graphs_on);

    let start = u.theme_idx;
    press(&mut u, &mut s, Key::Char('t'));
    assert_ne!(u.theme_idx, start);
    press(&mut u, &mut s, Key::Char('t'));
    press(&mut u, &mut s, Key::Char('t'));
    assert_eq!(u.theme_idx, start);

    for (c, focus) in [('1', 0), ('2', 1), ('3', 2)] {
        press(&mut u, &mut s, Key::Char(c));
        assert_eq!(u.window_focus, focus);
    }

    // the terminal is large, so the first press forces the compact layout
    press(&mut u, &mut s, Key::Char('c'));
    assert_eq!(u.compact, Some(true));
    press(&mut u, &mut s, Key::Char('c'));
    assert_eq!(u.compact, Some(false));
    assert!(auto_compact(Some((89, 40))) && auto_compact(Some((200, 25))));
    assert!(!auto_compact(Some((90, 26))) && !auto_compact(None));
}

#[test]
fn space_pauses_and_resumes() {
    let (mut u, mut s) = (ui(), Shared::new());
    press(&mut u, &mut s, Key::Char(' '));
    assert!(s.paused && !s.wants_scrape());
    assert_eq!(u.paused_since, Some(T0 + SECOND));
    press(&mut u, &mut s, Key::Char(' '));
    assert!(!s.paused);
    assert_eq!(u.paused_since, None);
}

#[test]
fn overlays_open_close_and_scroll() {
    let (mut u, mut s) = (ui(), Shared::new());
    press(&mut u, &mut s, Key::Down);
    assert_eq!(u.scroll, 0);
    press(&mut u, &mut s, Key::Char('e'));
    assert_eq!(u.overlay, Overlay::Explain);
    press(&mut u, &mut s, Key::Down);
    press(&mut u, &mut s, Key::Char('j'));
    press(&mut u, &mut s, Key::Up);
    assert_eq!(u.scroll, 1);
    press(&mut u, &mut s, Key::Char('?'));
    assert_eq!(u.overlay, Overlay::Help);
    press(&mut u, &mut s, Key::Char('?'));
    assert_eq!(u.overlay, Overlay::Closed);
    press(&mut u, &mut s, Key::Char('k'));
    press(&mut u, &mut s, Key::Char('k'));
    assert_eq!(u.scroll, 0);
}

#[test]
fn the_interval_is_doubled_and_halved_in_bounds() {
    let (mut u, mut s) = (ui(), Shared::new());
    for (key, want) in [('+', 2.0), ('=', 4.0), ('+', 8.0), ('+', 10.0), ('+', 10.0)] {
        press(&mut u, &mut s, Key::Char(key));
        assert_eq!(f(u.interval), want);
        assert_eq!(s.interval_ms, (want * 1000.0) as u64);
    }
    for want in [5.0, 2.5, 1.25, 0.625, 0.5, 0.5] {
        press(&mut u, &mut s, Key::Char('-'));
        assert_eq!(f(u.interval), want);
        assert_eq!(s.interval_ms, (want * 1000.0) as u64);
    }
}
