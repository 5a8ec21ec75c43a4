//! The latency panel.
use crate::derive::{Derived, DerivedView, LatencyTriple, Quantiles, WIN_LABELS};
use crate::num::{Calc, Model, Num};
use crate::panels;
use crate::panels::{block, latency_color, Op, OpView};
use crate::screen;
use crate::screen::{bold, line4, plain, span, span2, span3, Line, LineView, Rect, Span, Tone};
use crate::show;
use crate::show::{fmt_num, fmt_secs, pad_left, pad_right, repeat, Printer};
use vstd::prelude::*;

verus! {

/// What the percentiles mean.
pub const LEGEND: &'static str =
    "p50 typical \u{b7} p95 1-in-20 \u{b7} p99 worst \u{b7} right side: fresh p95 of each \
     window's requests \u{2014} bigger windows move slower only because they cover more time";

/// The percentile legend, plus prompt-length context when known.
pub open spec fn subtitle(m: Model, w: Printer, d: Option<DerivedView>) -> Seq<char> {
    let legend = LEGEND@;
    match d {
        Some(d) => match (d.prompt_len_p50, d.prompt_len_p95) {
            (Some(_), Some(_)) => legend + " \u{b7} typical prompt "@ + show::number_text(
                m,
                w,
                d.prompt_len_p50,
            ) + "\u{2013}"@ + show::number_text(m, w, d.prompt_len_p95) + " tok"@,
            (Some(_), None) => legend + " \u{b7} typical prompt "@ + show::number_text(
                m,
                w,
                d.prompt_len_p50,
            ) + " tok"@,
            _ => legend,
        },
        None => legend,
    }
}

pub fn lat_subtitle<C: Fn(Calc) -> Num + Copy, S: Fn(Num, u8) -> String + Copy>(
    d: Option<&Derived>,
    calc: C,
    show: S,
) -> (r: String)
    requires
        show::ready(calc, show),
    ensures
        forall|m: Model, w: Printer| #[trigger]
            show::writes(calc, show, m, w) ==> r@ == subtitle(m, w, panels::seen(d)),
{
    let mut s = String::from_str(LEGEND);
    if let Some(d) = d {
        match (d.prompt_len_p50, d.prompt_len_p95) {
            (Some(_), Some(_)) => {
                let a = fmt_num(d.prompt_len_p50, calc, show);
                let b = fmt_num(d.prompt_len_p95, calc, show);
                s.append(" \u{b7} typical prompt ");
                s.append(a.as_str());
                s.append("\u{2013}");
                s.append(b.as_str());
                s.append(" tok");
            },
            (Some(_), None) => {
                let a = fmt_num(d.prompt_len_p50, calc, show);
                s.append(" \u{b7} typical prompt ");
                s.append(a.as_str());
                s.append(" tok");
            },
            _ => {},
        }
    }
    s
}

/// The head of the table: the focused window's percentiles, then the p95 of
/// each window.
pub open spec fn header() -> LineView {
    seq![
        screen::styled(show::spaces(27), plain(Tone::Dim)),
        screen::styled(
            show::right("p50"@, 7) + "  "@ + show::right("p95"@, 7) + "  "@ + show::right(
                "p99"@,
                7,
            ),
            bold(Tone::Dim),
        ),
        screen::styled("   \u{2502}  "@, plain(Tone::Dim)),
        screen::styled(
            show::right("p95\u{b7}5s"@, 7) + " "@ + show::right("p95\u{b7}15s"@, 7) + " "@
                + show::right("p95\u{b7}60s"@, 7),
            bold(Tone::Dim),
        ),
    ]
}

/// Three texts in columns of seven.
fn columns(a: &str, b: &str, c: &str, gap: &str) -> (r: String)
    ensures
        r@ == show::right(a@, 7) + gap@ + show::right(b@, 7) + gap@ + show::right(c@, 7),
{
    let mut out = pad_left(a, 7);
    let y = pad_left(b, 7);
    let z = pad_left(c, 7);
    out.append(gap);
    out.append(y.as_str());
    out.append(gap);
    out.append(z.as_str());
    out
}

pub fn lat_header() -> (r: Line)
    ensures
        r@ == header(),
{
    let margin = repeat(' ', 27);
    proof {
        assert(margin@ =~= show::spaces(27));
    }
    let a = columns("p50", "p95", "p99", "  ");
    let b = columns("p95\u{b7}5s", "p95\u{b7}15s", "p95\u{b7}60s", " ");
    line4(
        Span { text: margin, style: plain(Tone::Dim) },
        Span { text: a, style: bold(Tone::Dim) },
        span("   \u{2502}  ", plain(Tone::Dim)),
        Span { text: b, style: bold(Tone::Dim) },
    )
}

/// A window's label, where its percentiles are of everything counted so far.
pub open spec fn fallback_label(q: Quantiles, label: Seq<char>) -> Seq<char> {
    if q.fell_back() {
        " "@ + label
    } else {
        seq![]
    }
}

/// The windows whose percentiles are of everything counted so far, where there
/// are any.
pub open spec fn fallback_note(lat: Seq<Quantiles>) -> LineView {
    if lat[0].fell_back() || lat[1].fell_back() || lat[2].fell_back() {
        seq![
            screen::styled(
                "  cumulative:"@ + fallback_label(lat[0], WIN_LABELS@[0]@) + fallback_label(
                    lat[1],
                    WIN_LABELS@[1]@,
                ) + fallback_label(lat[2], WIN_LABELS@[2]@),
                plain(Tone::Dim),
            ),
        ]
    } else {
        seq![]
    }
}

/// A latency with its percentiles in the focused window, and its p95 in each.
/// Windows that fell back to everything counted so far are named.
pub open spec fn row(
    m: Model,
    w: Printer,
    name: Seq<char>,
    q: Quantiles,
    lat: Seq<Quantiles>,
) -> LineView {
    seq![
        screen::styled(" "@ + show::left(name, 26), plain(Tone::Fg)),
        screen::styled(
            show::right(show::seconds_text(m, w, q.p50), 7) + "  "@,
            plain(panels::latency_tone(q.p50)),
        ),
        screen::styled(
            show::right(show::seconds_text(m, w, q.p95), 7) + "  "@,
            plain(panels::latency_tone(q.p95)),
        ),
        screen::styled(
            show::right(show::seconds_text(m, w, q.p99), 7),
            plain(panels::latency_tone(q.p99)),
        ),
        screen::styled("   \u{2502}  "@, plain(Tone::Dim)),
        screen::styled(
            show::right(show::seconds_text(m, w, lat[0].p95), 7) + " "@ + show::right(
                show::seconds_text(m, w, lat[1].p95),
                7,
            ) + " "@ + show::right(show::seconds_text(m, w, lat[2].p95), 7),
            plain(Tone::Fg),
        ),
    ] + fallback_note(lat)
}

fn pad_secs<C: Fn(Calc) -> Num + Copy, S: Fn(Num, u8) -> String + Copy>(
    v: Option<Num>,
    calc: C,
    show: S,
) -> (r: String)
    requires
        show::ready(calc, show),
    ensures
        forall|m: Model, w: Printer| #[trigger]
            show::writes(calc, show, m, w) ==> r@ == show::right(show::seconds_text(m, w, v), 7),
{
    let t = fmt_secs(v, calc, show);
    pad_left(t.as_str(), 7)
}

fn add_fallback_note(line: &mut Line, lat: &LatencyTriple)
    ensures
        final(line)@ == old(line)@ + fallback_note(lat@),
{
    let ghost before = line@;
    let (a, b, c) = (lat[0].is_fallback(), lat[1].is_fallback(), lat[2].is_fallback());
    if a || b || c {
        let mut note = String::from_str("  cumulative:");
        let ghost t0 = note@;
        if a {
            note.append(" ");
            note.append(WIN_LABELS[0]);
        }
        let ghost t1 = note@;
        if b {
            note.append(" ");
            note.append(WIN_LABELS[1]);
        }
        let ghost t2 = note@;
        if c {
            note.append(" ");
            note.append(WIN_LABELS[2]);
        }
        proof {
            assert(t1 =~= t0 + fallback_label(lat@[0], WIN_LABELS@[0]@));
            assert(t2 =~= t1 + fallback_label(lat@[1], WIN_LABELS@[1]@));
            assert(note@ =~= t2 + fallback_label(lat@[2], WIN_LABELS@[2]@));
        }
        line.add(Span { text: note, style: plain(Tone::Dim) });
    }
    proof {
        assert(line@ =~= before + fallback_note(lat@));
    }
}

pub fn lat_row<C: Fn(Calc) -> Num + Copy, S: Fn(Num, u8) -> String + Copy>(
    name: &str,
    q: Quantiles,
    lat: &LatencyTriple,
    calc: C,
    show: S,
) -> (r: Line)
    requires
        show::ready(calc, show),
    ensures
        forall|m: Model, w: Printer| #[trigger]
            show::writes(calc, show, m, w) ==> r@ == row(m, w, name@, q, lat@),
{
    let title = pad_right(name, 26);
    let p50 = pad_secs(q.p50, calc, show);
    let p95 = pad_secs(q.p95, calc, show);
    let p99 = pad_secs(q.p99, calc, show);
    let mut wins = pad_secs(lat[0].p95, calc, show);
    let b = pad_secs(lat[1].p95, calc, show);
    let c = pad_secs(lat[2].p95, calc, show);
    wins.append(" ");
    wins.append(b.as_str());
    wins.append(" ");
    wins.append(c.as_str());
    let mut line = line4(
        span2(" ", title.as_str(), plain(Tone::Fg)),
        span2(p50.as_str(), "  ", plain(latency_color(q.p50))),
        span2(p95.as_str(), "  ", plain(latency_color(q.p95))),
        Span { text: p99, style: plain(latency_color(q.p99)) },
    );
    line.add(span("   \u{2502}  ", plain(Tone::Dim)));
    line.add(Span { text: wins, style: plain(Tone::Fg) });
    add_fallback_note(&mut line, lat);
    proof {
        assert forall|m: Model, w: Printer| #[trigger]
            show::writes(calc, show, m, w) implies line@ == row(m, w, name@, q, lat@) by {
            assert(line@ =~= row(m, w, name@, q, lat@));
        }
    }
    line
}

/// A latency with its percentiles in the focused window. A fallback to
/// everything counted so far is named.
pub open spec fn compact_row(m: Model, w: Printer, name: Seq<char>, q: Quantiles) -> LineView {
    seq![
        screen::styled(" "@ + show::left(name, 26), plain(Tone::Fg)),
        screen::styled(
            "p50 "@ + show::right(show::seconds_text(m, w, q.p50), 7) + "  "@,
            plain(panels::latency_tone(q.p50)),
        ),
        screen::styled(
            "p95 "@ + show::right(show::seconds_text(m, w, q.p95), 7) + "  "@,
            plain(panels::latency_tone(q.p95)),
        ),
        screen::styled(
            "p99 "@ + show::right(show::seconds_text(m, w, q.p99), 7),
            plain(panels::latency_tone(q.p99)),
        ),
    ] + if q.fell_back() {
        seq![screen::styled("  cumulative"@, plain(Tone::Dim))]
    } else {
        seq![]
    }
}

/// Percentiles that are not of their window are labeled as such, and those of a
/// window bear no label.
pub proof fn law_fallback_is_labeled(
    m: Model,
    w: Printer,
    name: Seq<char>,
    q: Quantiles,
    lat: Seq<Quantiles>,
)
    requires
        lat.len() == 3,
    ensures
        q.fell_back() ==> compact_row(m, w, name, q).last() == screen::styled(
            "  cumulative"@,
            plain(Tone::Dim),
        ),
        compact_row(m, w, name, q).len() == if q.fell_back() {
            5nat
        } else {
            4
        },
        (exists|i: int| 0 <= i < 3 && (#[trigger] lat[i]).fell_back()) ==> row(
            m,
            w,
            name,
            q,
            lat,
        ).last() == fallback_note(lat)[0],
        row(m, w, name, q, lat).len() == if exists|i: int|
            0 <= i < 3 && (#[trigger] lat[i]).fell_back() {
            7nat
        } else {
            6
        },
{
    assert((exists|i: int| 0 <= i < 3 && (#[trigger] lat[i]).fell_back()) == (lat[0].fell_back()
        || lat[1].fell_back() || lat[2].fell_back()));
}

pub fn lat_row_compact<C: Fn(Calc) -> Num + Copy, S: Fn(Num, u8) -> String + Copy>(
    name: &str,
    q: Quantiles,
    calc: C,
    show: S,
) -> (r: Line)
    requires
        show::ready(calc, show),
    ensures
        forall|m: Model, w: Printer| #[trigger]
            show::writes(calc, show, m, w) ==> r@ == compact_row(m, w, name@, q),
{
    let title = pad_right(name, 26);
    let p50 = pad_secs(q.p50, calc, show);
    let p95 = pad_secs(q.p95, calc, show);
    let p99 = pad_secs(q.p99, calc, show);
    let mut line = line4(
        span2(" ", title.as_str(), plain(Tone::Fg)),
        span3("p50 ", p50.as_str(), "  ", plain(latency_color(q.p50))),
        span3("p95 ", p95.as_str(), "  ", plain(latency_color(q.p95))),
        span2("p99 ", p99.as_str(), plain(latency_color(q.p99))),
    );
    if q.is_fallback() {
        line.add(span("  cumulative", plain(Tone::Dim)));
    }
    proof {
        assert forall|m: Model, w: Printer| #[trigger]
            show::writes(calc, show, m, w) implies line@ == compact_row(m, w, name@, q) by {
            assert(line@ =~= compact_row(m, w, name@, q));
        }
    }
    line
}

/// The lines of the panel.
pub open spec fn lines_of(
    m: Model,
    w: Printer,
    d: Option<DerivedView>,
    focus: int,
    compact: bool,
) -> Seq<LineView> {
    match d {
        Some(d) => if compact {
            seq![
                compact_row(m, w, "time to first token (TTFT)"@, d.ttft[focus]),
                compact_row(m, w, "time between tokens (ITL)"@, d.itl[focus]),
            ]
        } else {
            seq![
                header(),
                row(m, w, "time to first token (TTFT)"@, d.ttft[focus], d.ttft),
                row(m, w, "time between tokens (ITL)"@, d.itl[focus], d.itl),
                row(m, w, "full answer (end-to-end)"@, d.e2e[focus], d.e2e),
                row(m, w, "queue time"@, d.queue_time[focus], d.queue_time),
            ]
        },
        None => seq![],
    }
}

fn write_lines<C: Fn(Calc) -> Num + Copy, S: Fn(Num, u8) -> String + Copy>(
    d: Option<&Derived>,
    focus: usize,
    compact: bool,
    calc: C,
    show: S,
) -> (r: Vec<Line>)
    requires
        show::ready(calc, show),
        focus < 3,
    ensures
        forall|m: Model, w: Printer| #[trigger]
            show::writes(calc, show, m, w) ==> screen::lines_view(r@) == lines_of(
                m,
                w,
                panels::seen(d),
                focus as int,
                compact,
            ),
{
    let r = match d {
        Some(d) => {
            if compact {
                vec![
                    lat_row_compact("time to first token (TTFT)", d.ttft[focus], calc, show),
                    lat_row_compact("time between tokens (ITL)", d.itl[focus], calc, show),
                ]
            } else {
                vec![
                    lat_header(),
                    lat_row("time to first token (TTFT)", d.ttft[focus], &d.ttft, calc, show),
                    lat_row("time between tokens (ITL)", d.itl[focus], &d.itl, calc, show),
                    lat_row("full answer (end-to-end)", d.e2e[focus], &d.e2e, calc, show),
                    lat_row("queue time", d.queue_time[focus], &d.queue_time, calc, show),
                ]
            }
        },
        None => Vec::new(),
    };
    proof {
        assert forall|m: Model, w: Printer| #[trigger]
            show::writes(calc, show, m, w) implies screen::lines_view(r@) == lines_of(
            m,
            w,
            panels::seen(d),
            focus as int,
            compact,
        ) by {
            assert(screen::lines_view(r@) =~= lines_of(
                m,
                w,
                panels::seen(d),
                focus as int,
                compact,
            ));
        }
    }
    r
}

/// The latency panel.
pub open spec fn latency_ops(
    m: Model,
    w: Printer,
    d: Option<DerivedView>,
    focus: int,
    compact: bool,
    area: Rect,
) -> Seq<OpView> {
    seq![
        panels::frame(
            area,
            "Latency \u{2014} how long users wait to see words"@,
            Some(subtitle(m, w, d)),
        ),
        panels::written(area.framed(), lines_of(m, w, d, focus, compact)),
    ]
}

pub fn draw_latency<C: Fn(Calc) -> Num + Copy, S: Fn(Num, u8) -> String + Copy>(
    d: Option<&Derived>,
    focus: usize,
    compact: bool,
    area: Rect,
    calc: C,
    show: S,
) -> (r: Vec<Op>)
    requires
        show::ready(calc, show),
        focus < 3,
    ensures
        forall|m: Model, w: Printer| #[trigger]
            show::writes(calc, show, m, w) ==> panels::ops_view(r@) == latency_ops(
                m,
                w,
                panels::seen(d),
                focus as int,
                compact,
                area,
            ),
{
    let sub = lat_subtitle(d, calc, show);
    let lines = write_lines(d, focus, compact, calc, show);
    let r = vec![
        block(
            area,
            "Latency \u{2014} how long users wait to see words",
            Some(sub.as_str()),
        ),
        Op::Text { area: area.inner(), lines, scroll: 0 },
    ];
    proof {
        assert forall|m: Model, w: Printer| #[trigger]
            show::writes(calc, show, m, w) implies panels::ops_view(r@) == latency_ops(
            m,
            w,
            panels::seen(d),
            focus as int,
            compact,
            area,
        ) by {
            assert(panels::ops_view(r@) =~= latency_ops(
                m,
                w,
                panels::seen(d),
                focus as int,
                compact,
                area,
            ));
        }
    }
    r
}

/// A row with this name tells these percentiles: those of the focused window,
/// then the 95th of the last 5, 15 and 60 seconds.
pub open spec fn row_tells(
    m: Model,
    w: Printer,
    line: LineView,
    name: Seq<char>,
    lat: Seq<Quantiles>,
    focus: int,
) -> bool {
    let text = |v: Option<Num>| show::right(show::seconds_text(m, w, v), 7);
    &&& line.len() >= 6
    &&& line[0].text == " "@ + show::left(name, 26)
    &&& line[1].text == text(lat[focus].p50) + "  "@
    &&& line[2].text == text(lat[focus].p95) + "  "@
    &&& line[3].text == text(lat[focus].p99)
    &&& line[5].text == text(lat[0].p95) + " "@ + text(lat[1].p95) + " "@ + text(lat[2].p95)
}

/// A compact row with this name tells these percentiles.
pub open spec fn compact_row_tells(
    m: Model,
    w: Printer,
    line: LineView,
    name: Seq<char>,
    q: Quantiles,
) -> bool {
    let text = |v: Option<Num>| show::right(show::seconds_text(m, w, v), 7);
    &&& line.len() >= 4
    &&& line[0].text == " "@ + show::left(name, 26)
    &&& line[1].text == "p50 "@ + text(q.p50) + "  "@
    &&& line[2].text == "p95 "@ + text(q.p95) + "  "@
    &&& line[3].text == "p99 "@ + text(q.p99)
}

/// Every row of the panel tells its own latency, in the focused window and in
/// each of the three.
pub proof fn law_rows_tell_their_latencies(m: Model, w: Printer, d: DerivedView, focus: int)
    requires
        0 <= focus < 3,
    ensures
        ({
            let full = lines_of(m, w, Some(d), focus, false);
            let small = lines_of(m, w, Some(d), focus, true);
            &&& full.len() == 5
            &&& row_tells(m, w, full[1], "time to first token (TTFT)"@, d.ttft, focus)
            &&& row_tells(m, w, full[2], "time between tokens (ITL)"@, d.itl, focus)
            &&& row_tells(m, w, full[3], "full answer (end-to-end)"@, d.e2e, focus)
            &&& row_tells(m, w, full[4], "queue time"@, d.queue_time, focus)
            &&& small.len() == 2
            &&& compact_row_tells(m, w, small[0], "time to first token (TTFT)"@, d.ttft[focus])
            &&& compact_row_tells(m, w, small[1], "time between tokens (ITL)"@, d.itl[focus])
        }),
{
}

/// The subtitle says how long prompts typically are: from the median to the 95th
/// percentile.
pub proof fn law_subtitle_says_the_prompt_length(
    m: Model,
    w: Printer,
    d: DerivedView,
    a: Num,
    b: Num,
)
    requires
        d.prompt_len_p50 == Some(a),
        d.prompt_len_p95 == Some(b),
    ensures
        show::says(
            subtitle(m, w, Some(d)),
            " \u{b7} typical prompt "@,
            show::number_text(m, w, Some(a)),
        ),
        show::says(subtitle(m, w, Some(d)), "\u{2013}"@, show::number_text(m, w, Some(b))),
{
    let t = subtitle(m, w, Some(d));
    let (x, y) = (show::number_text(m, w, Some(a)), show::number_text(m, w, Some(b)));
    let label = " \u{b7} typical prompt "@;
    let tail = "\u{2013}"@ + y + " tok"@;
    assert(t =~= LEGEND@ + label + x + tail);
    assert(show::made_of(t, LEGEND@, label, x, tail));
    let front = LEGEND@ + label + x;
    assert(t =~= front + "\u{2013}"@ + y + " tok"@);
    assert(show::made_of(t, front, "\u{2013}"@, y, " tok"@));
}

} // verus!
