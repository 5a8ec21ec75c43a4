//! The panels of the dashboard: what each of them shows.
use crate::derive::{Derived, DerivedView, Pool, PoolView, WIN_LABELS};
use crate::history::SECOND;
use crate::num::{num, Calc, Model, Num, FILLING, FIVE, FULL, HALF, TWENTY, TWO, ZERO};
use crate::once;
use crate::once::name_pools;
use crate::plot::{Plot, PlotView};
use crate::screen;
use crate::screen::{
    bold, line1, line3, plain, span, span2, span3, truncate_line, Line, LineView, Rect, Span, Style,
    Tone,
};
use crate::show;
use crate::show::{fmt_dur, fmt_num, fmt_pct, fmt_secs, join, tok_gauge, Printer};
use crate::text::{decimal, join2, same};
use crate::text;
use crate::ui::Ui;
use vstd::prelude::*;

verus! {

/// One operation of the terminal.
#[derive(Debug)]
pub enum Op {
    /// Paints the background.
    Fill { area: Rect },
    /// Draws a rounded frame with a title above and a line below.
    Frame { area: Rect, title: Line, foot: Option<Line>, border: Tone },
    /// Writes lines from the top, the first `scroll` of them left out.
    Text { area: Rect, lines: Vec<Line>, scroll: u16 },
    /// Blanks what was drawn before.
    Clear { area: Rect },
    /// Paints a graph.
    Graph { area: Rect, plot: Plot },
}

pub enum OpView {
    Fill { area: Rect },
    Frame { area: Rect, title: LineView, foot: Option<LineView>, border: Tone },
    Text { area: Rect, lines: Seq<LineView>, scroll: u16 },
    Clear { area: Rect },
    Graph { area: Rect, plot: PlotView },
}

impl View for Op {
    type V = OpView;

    open spec fn view(&self) -> OpView {
        match self {
            Op::Fill { area } => OpView::Fill { area: *area },
            Op::Frame { area, title, foot, border } => OpView::Frame {
                area: *area,
                title: title@,
                foot: match *foot {
                    Some(l) => Some(l@),
                    None => None,
                },
                border: *border,
            },
            Op::Text { area, lines, scroll } => OpView::Text {
                area: *area,
                lines: screen::lines_view(lines@),
                scroll: *scroll,
            },
            Op::Clear { area } => OpView::Clear { area: *area },
            Op::Graph { area, plot } => OpView::Graph { area: *area, plot: plot@ },
        }
    }
}

pub open spec fn ops_view(s: Seq<Op>) -> Seq<OpView> {
    Seq::new(s.len(), |i: int| s[i]@)
}

impl OpView {
    pub open spec fn area(self) -> Rect {
        match self {
            OpView::Fill { area } => area,
            OpView::Frame { area, .. } => area,
            OpView::Text { area, .. } => area,
            OpView::Clear { area } => area,
            OpView::Graph { area, .. } => area,
        }
    }
}

/// The figures, where there are any.
pub open spec fn seen(d: Option<&Derived>) -> Option<DerivedView> {
    match d {
        Some(x) => Some(x@),
        None => None,
    }
}

/// A panel's frame: its title in bold, its subtitle dim.
pub open spec fn frame(area: Rect, title: Seq<char>, subtitle: Option<Seq<char>>) -> OpView {
    OpView::Frame {
        area,
        title: seq![screen::styled(" "@ + title + " "@, bold(Tone::Fg))],
        foot: match subtitle {
            Some(s) => Some(seq![screen::styled(" "@ + s + " "@, plain(Tone::Dim))]),
            None => None,
        },
        border: Tone::Dim,
    }
}

pub fn block(area: Rect, title: &str, subtitle: Option<&str>) -> (r: Op)
    ensures
        r@ == frame(
            area,
            title@,
            match subtitle {
                Some(s) => Some(s@),
                None => None,
            },
        ),
{
    let foot = match subtitle {
        Some(s) => Some(line1(span3(" ", s, " ", plain(Tone::Dim)))),
        None => None,
    };
    Op::Frame {
        area,
        title: line1(span3(" ", title, " ", bold(Tone::Fg))),
        foot,
        border: Tone::Dim,
    }
}

/// Lines from the top of an area.
pub open spec fn written(area: Rect, lines: Seq<LineView>) -> OpView {
    OpView::Text { area, lines, scroll: 0 }
}

// ---- header -----------------------------------------------------------------

/// The header: program, model, uptime, poll interval, and what deserves a
/// warning. Times are in nanoseconds.
pub open spec fn header_line(
    m: Model,
    w: Printer,
    ui: Ui,
    d: Option<DerivedView>,
    uptime: Option<u64>,
    age: Option<u64>,
) -> LineView {
    let name = seq![screen::styled(" sgtop"@, bold(Tone::Accent))];
    let engine = match d {
        Some(d) => {
            let l = name.push(
                screen::styled(
                    " \u{b7} "@ + d.model + " ("@ + d.engine + ")"@,
                    plain(Tone::Fg),
                ),
            );
            match uptime {
                Some(t) => l.push(
                    screen::styled(
                        " \u{b7} up "@ + show::duration_text((t / SECOND) as nat),
                        plain(Tone::Dim),
                    ),
                ),
                None => l,
            }
        },
        None => name,
    };
    let poll = engine.push(
        screen::styled(" \u{b7} poll "@ + w(ui.interval, 1) + "s"@, plain(Tone::Dim)),
    );
    let tls = if ui.insecure {
        poll.push(screen::styled(" \u{b7} \u{26a0} insecure TLS"@, plain(Tone::Warn)))
    } else {
        poll
    };
    let fresh = match age {
        Some(a) => if a > 2 * SECOND {
            tls.push(
                screen::styled(
                    " \u{b7} data "@ + w(m(Calc::Seconds(a)), 0) + "s old"@,
                    plain(Tone::Warn),
                ),
            )
        } else {
            tls
        },
        None => tls,
    };
    fresh.push(screen::styled("  [? help \u{b7} e explain]"@, plain(Tone::Dim)))
}

pub fn write_header<C: Fn(Calc) -> Num + Copy, S: Fn(Num, u8) -> String + Copy>(
    ui: &Ui,
    d: Option<&Derived>,
    uptime: Option<u64>,
    age: Option<u64>,
    calc: C,
    show: S,
) -> (r: Line)
    requires
        show::ready(calc, show),
    ensures
        forall|m: Model, w: Printer| #[trigger]
            show::writes(calc, show, m, w) ==> r@ == header_line(m, w, *ui, seen(d), uptime, age),
{
    let mut line = line1(span(" sgtop", bold(Tone::Accent)));
    if let Some(d) = d {
        let mut text = join2(" \u{b7} ", d.model.as_str());
        text.append(" (");
        text.append(d.engine.as_str());
        text.append(")");
        line.add(Span { text, style: plain(Tone::Fg) });
        if let Some(t) = uptime {
            let dur = fmt_dur(t / SECOND);
            line.add(span2(" \u{b7} up ", dur.as_str(), plain(Tone::Dim)));
        }
    }
    let poll = show(ui.interval, 1);
    line.add(span3(" \u{b7} poll ", poll.as_str(), "s", plain(Tone::Dim)));
    if ui.insecure {
        line.add(span(" \u{b7} \u{26a0} insecure TLS", plain(Tone::Warn)));
    }
    if let Some(a) = age {
        if a > 2 * SECOND {
            let secs = show(calc(Calc::Seconds(a)), 0);
            line.add(span3(" \u{b7} data ", secs.as_str(), "s old", plain(Tone::Warn)));
        }
    }
    line.add(span("  [? help \u{b7} e explain]", plain(Tone::Dim)));
    line
}

/// The header warns of unchecked certificates exactly where they are not
/// checked.
pub proof fn law_insecure_is_shown(
    m: Model,
    w: Printer,
    ui: Ui,
    d: Option<DerivedView>,
    uptime: Option<u64>,
    age: Option<u64>,
)
    ensures
        ui.insecure <==> header_line(m, w, ui, d, uptime, age).contains(
            screen::styled(" \u{b7} \u{26a0} insecure TLS"@, plain(Tone::Warn)),
        ),
{
    let l = header_line(m, w, ui, d, uptime, age);
    let mark = screen::styled(" \u{b7} \u{26a0} insecure TLS"@, plain(Tone::Warn));
    if ui.insecure {
        let base = match d {
            Some(_) => match uptime {
                Some(_) => 4int,
                None => 3,
            },
            None => 2,
        };
        assert(l[base] == mark);
    } else {
        reveal_strlit(" \u{b7} \u{26a0} insecure TLS");
        reveal_strlit(" \u{b7} data ");
        assert forall|i: int| 0 <= i < l.len() implies l[i] != mark by {
            if l[i].style == plain(Tone::Warn) {
                assert(l[i].text[3] == 'd');
            }
        }
    }
}

// ---- hero strip -------------------------------------------------------------

/// How full the fullest pool may be before it is an alarm.
pub open spec fn usage_tone(v: Num) -> Tone {
    if num(FULL).at_most(v) {
        Tone::Bad
    } else if num(FILLING).at_most(v) {
        Tone::Warn
    } else {
        Tone::Good
    }
}

pub fn usage_color(v: Num) -> (r: Tone)
    ensures
        r == usage_tone(v),
{
    if num(FULL).is_at_most(v) {
        Tone::Bad
    } else if num(FILLING).is_at_most(v) {
        Tone::Warn
    } else {
        Tone::Good
    }
}

/// Two seconds are bad, half a second deserves a warning.
pub open spec fn latency_tone(v: Option<Num>) -> Tone {
    match v {
        Some(x) => if num(TWO).below(x) {
            Tone::Bad
        } else if num(HALF).below(x) {
            Tone::Warn
        } else {
            Tone::Good
        },
        None => Tone::Dim,
    }
}

pub fn latency_color(v: Option<Num>) -> (r: Tone)
    ensures
        r == latency_tone(v),
{
    match v {
        Some(x) => if num(TWO).is_below(x) {
            Tone::Bad
        } else if num(HALF).is_below(x) {
            Tone::Warn
        } else {
            Tone::Good
        },
        None => Tone::Dim,
    }
}

/// A queue of more than twenty is bad, of more than five deserves a warning.
pub open spec fn queue_tone(v: Option<Num>) -> Tone {
    let q = crate::derive::or_zero(v);
    if num(TWENTY).below(q) {
        Tone::Bad
    } else if num(FIVE).below(q) {
        Tone::Warn
    } else {
        Tone::Fg
    }
}

fn queue_color(v: Option<Num>) -> (r: Tone)
    ensures
        r == queue_tone(v),
{
    let q = v.unwrap_or(num(ZERO));
    if num(TWENTY).is_below(q) {
        Tone::Bad
    } else if num(FIVE).is_below(q) {
        Tone::Warn
    } else {
        Tone::Fg
    }
}

/// The usage of the fullest pool. The host tier is left out: it idles near 100%
/// by design, and only full KV and state pools block requests.
pub open spec fn worst_of(pools: Seq<PoolView>) -> Num
    decreases pools.len(),
{
    if pools.len() == 0 {
        num(ZERO)
    } else if pools.last().name == "host"@ {
        worst_of(pools.drop_last())
    } else {
        worst_of(pools.drop_last()).larger(pools.last().usage)
    }
}

fn find_worst(pools: &Vec<Pool>) -> (r: Num)
    ensures
        r == worst_of(crate::derive::pools_view(pools@)),
{
    let ghost all = crate::derive::pools_view(pools@);
    let mut out = num(ZERO);
    let mut i: usize = 0;
    while i < pools.len()
        invariant
            i <= pools.len(),
            all == crate::derive::pools_view(pools@),
            out == worst_of(all.take(i as int)),
        decreases pools.len() - i,
    {
        proof {
            assert(all.take(i + 1).drop_last() =~= all.take(i as int));
        }
        if !same(pools[i].name, "host") {
            out = out.max(pools[i].usage);
        }
        i = i + 1;
    }
    proof {
        assert(all.take(all.len() as int) =~= all);
    }
    out
}

/// Adding a host tier changes no alarm.
pub proof fn law_host_tier_raises_no_alarm(pools: Seq<PoolView>, host: PoolView)
    requires
        host.name == "host"@,
    ensures
        worst_of(pools.push(host)) == worst_of(pools),
{
    assert(pools.push(host).drop_last() =~= pools);
}

/// The rates of three windows.
pub open spec fn triple_text(w: Printer, v: Seq<Option<Num>>) -> Seq<char> {
    show::whole_text(w, v[0]) + "/"@ + show::whole_text(w, v[1]) + "/"@ + show::whole_text(w, v[2])
}

pub fn triple<S: Fn(Num, u8) -> String + Copy>(v: &[Option<Num>; 3], show: S) -> (r: String)
    requires
        show::printable(show),
    ensures
        forall|w: Printer| #[trigger] show::prints(show, w) ==> r@ == triple_text(w, v@),
{
    let mut out = tok_gauge(v[0], show);
    let b = tok_gauge(v[1], show);
    let c = tok_gauge(v[2], show);
    out.append("/");
    out.append(b.as_str());
    out.append("/");
    out.append(c.as_str());
    out
}

/// A cell of the hero strip: its caption, a value and what it means.
pub open spec fn hero_cell(
    caption: Seq<char>,
    value: Seq<char>,
    sub: Seq<char>,
    style: Style,
) -> Seq<LineView> {
    seq![
        seq![screen::styled(caption, plain(Tone::Dim))],
        seq![screen::styled(" "@ + value, style)],
        seq![screen::styled(" "@ + sub, plain(Tone::Dim))],
    ]
}

fn write_cell(caption: &str, value: &str, sub: &str, style: Style) -> (r: Vec<Line>)
    ensures
        screen::lines_view(r@) == hero_cell(caption@, value@, sub@, style),
{
    let r = vec![
        line1(span(caption, plain(Tone::Dim))),
        line1(span2(" ", value, style)),
        line1(span2(" ", sub, plain(Tone::Dim))),
    ];
    proof {
        assert(screen::lines_view(r@) =~= hero_cell(caption@, value@, sub@, style));
    }
    r
}

/// A rate now and over the windows.
pub open spec fn rate_line(
    w: Printer,
    tag: Seq<char>,
    instant: Option<Num>,
    win: Seq<Option<Num>>,
    tone: Tone,
) -> LineView {
    seq![
        screen::styled(" "@ + tag + " "@, plain(Tone::Dim)),
        screen::styled(w(crate::derive::or_zero(instant), 0) + " tok/s"@, bold(tone)),
        screen::styled("  \u{b7}  "@ + triple_text(w, win), plain(Tone::Dim)),
    ]
}

fn write_rate<S: Fn(Num, u8) -> String + Copy>(
    tag: &str,
    instant: Option<Num>,
    win: &[Option<Num>; 3],
    tone: Tone,
    show: S,
) -> (r: Line)
    requires
        show::printable(show),
    ensures
        forall|w: Printer| #[trigger]
            show::prints(show, w) ==> r@ == rate_line(w, tag@, instant, win@, tone),
{
    let now = show(instant.unwrap_or(num(ZERO)), 0);
    let windows = triple(win, show);
    line3(
        span3(" ", tag, " ", plain(Tone::Dim)),
        span2(now.as_str(), " tok/s", bold(tone)),
        span2("  \u{b7}  ", windows.as_str(), plain(Tone::Dim)),
    )
}

/// A caption: small letters in the compact layout.
pub open spec fn caption(compact: bool, full: Seq<char>, small: Seq<char>) -> Seq<char> {
    if compact {
        small
    } else {
        full
    }
}

/// The cell on running requests.
pub open spec fn running_cell(m: Model, w: Printer, d: DerivedView, compact: bool) -> Seq<
    LineView,
> {
    hero_cell(
        caption(compact, "RUNNING"@, "running"@),
        show::number_text(m, w, d.running),
        "being answered now"@,
        bold(Tone::Fg),
    )
}

/// The cell on waiting requests.
pub open spec fn queue_cell(m: Model, w: Printer, d: DerivedView, compact: bool) -> Seq<LineView> {
    hero_cell(
        caption(compact, "QUEUE"@, "queue"@),
        show::number_text(m, w, d.queue),
        "waiting to start"@,
        bold(queue_tone(d.queue)),
    )
}

/// The cell on the token rates.
pub open spec fn words_cell(w: Printer, d: DerivedView, compact: bool) -> Seq<LineView> {
    seq![
        seq![
            screen::styled(caption(compact, "WORDS OUT"@, "words out"@), plain(Tone::Dim)),
        ],
        rate_line(w, "prefill"@, d.prefill_instant, d.prefill_rate, Tone::Second),
        rate_line(w, "decode"@, d.decode_instant, d.decode_rate, Tone::First),
    ]
}

/// The cell on the memory pools.
pub open spec fn pools_cell(m: Model, w: Printer, d: DerivedView, compact: bool) -> Seq<LineView> {
    let worst = worst_of(d.pools);
    hero_cell(
        caption(compact, "MEMORY POOLS"@, "memory pools"@),
        show::percent_text(m, w, Some(worst)),
        show::joined(once::named_pools(m, w, d.pools), " \u{b7} "@),
        bold(usage_tone(worst)),
    )
}

/// What the first token's time is; a percentile of everything counted so far is
/// labeled as such, in front, where a narrow cell does not cut it off.
pub open spec fn first_word_sub(q: crate::derive::Quantiles) -> Seq<char> {
    if q.fell_back() {
        "cumulative p95 \u{b7} first token"@
    } else {
        "p95 \u{b7} first token"@
    }
}

/// The cell on the time to the first token.
pub open spec fn first_word_cell(
    m: Model,
    w: Printer,
    d: DerivedView,
    focus: int,
    compact: bool,
) -> Seq<LineView> {
    let p95 = d.ttft[focus].p95;
    hero_cell(
        caption(compact, "FIRST WORD"@, "first word"@),
        show::seconds_text(m, w, p95),
        first_word_sub(d.ttft[focus]),
        bold(latency_tone(p95)),
    )
}

/// The cell on stalls.
pub open spec fn stalls_cell(w: Printer, d: DerivedView, focus: int, compact: bool) -> Seq<
    LineView,
> {
    let s = d.stalls[focus];
    hero_cell(
        caption(compact, "STALLS"@, "stalls"@),
        if s.count > 0 {
            text::digits(s.count as nat) + "\u{d7}"@
        } else {
            "0"@
        },
        w(s.seconds, 1) + "s frozen in "@ + WIN_LABELS@[focus]@,
        if s.count > 0 {
            bold(Tone::Bad)
        } else {
            plain(Tone::Good)
        },
    )
}

/// The cells of the hero strip.
pub open spec fn hero_cells(
    m: Model,
    w: Printer,
    d: DerivedView,
    focus: int,
    compact: bool,
) -> Seq<Seq<LineView>> {
    seq![
        running_cell(m, w, d, compact),
        queue_cell(m, w, d, compact),
        words_cell(w, d, compact),
        pools_cell(m, w, d, compact),
        first_word_cell(m, w, d, focus, compact),
        stalls_cell(w, d, focus, compact),
    ]
}

fn choose_caption(compact: bool, full: &'static str, small: &'static str) -> (r: &'static str)
    ensures
        r@ == caption(compact, full@, small@),
{
    if compact {
        small
    } else {
        full
    }
}

fn write_words<S: Fn(Num, u8) -> String + Copy>(d: &Derived, compact: bool, show: S) -> (r: Vec<
    Line,
>)
    requires
        show::printable(show),
    ensures
        forall|w: Printer| #[trigger]
            show::prints(show, w) ==> screen::lines_view(r@) == words_cell(w, d@, compact),
{
    let caption = choose_caption(compact, "WORDS OUT", "words out");
    let r = vec![
        line1(span(caption, plain(Tone::Dim))),
        write_rate("prefill", d.prefill_instant, &d.prefill_rate, Tone::Second, show),
        write_rate("decode", d.decode_instant, &d.decode_rate, Tone::First, show),
    ];
    proof {
        assert forall|w: Printer| #[trigger] show::prints(show, w) implies screen::lines_view(r@)
            == words_cell(w, d@, compact) by {
            assert(screen::lines_view(r@) =~= words_cell(w, d@, compact));
        }
    }
    r
}

fn write_pools<C: Fn(Calc) -> Num + Copy, S: Fn(Num, u8) -> String + Copy>(
    d: &Derived,
    compact: bool,
    calc: C,
    show: S,
) -> (r: Vec<Line>)
    requires
        show::ready(calc, show),
    ensures
        forall|m: Model, w: Printer| #[trigger]
            show::writes(calc, show, m, w) ==> screen::lines_view(r@) == pools_cell(
                m,
                w,
                d@,
                compact,
            ),
{
    let worst = find_worst(&d.pools);
    let value = fmt_pct(Some(worst), calc, show);
    let sub = join(&name_pools(&d.pools, calc, show), " \u{b7} ");
    write_cell(
        choose_caption(compact, "MEMORY POOLS", "memory pools"),
        value.as_str(),
        sub.as_str(),
        bold(usage_color(worst)),
    )
}

fn write_stall_cell<S: Fn(Num, u8) -> String + Copy>(
    d: &Derived,
    focus: usize,
    compact: bool,
    show: S,
) -> (r: Vec<Line>)
    requires
        show::printable(show),
        focus < 3,
    ensures
        forall|w: Printer| #[trigger]
            show::prints(show, w) ==> screen::lines_view(r@) == stalls_cell(
                w,
                d@,
                focus as int,
                compact,
            ),
{
    let s = d.stalls[focus];
    let mut sub = show(s.seconds, 1);
    sub.append("s frozen in ");
    sub.append(WIN_LABELS[focus]);
    let caption = choose_caption(compact, "STALLS", "stalls");
    if s.count > 0 {
        let mut value = decimal(s.count as u64);
        value.append("\u{d7}");
        write_cell(caption, value.as_str(), sub.as_str(), bold(Tone::Bad))
    } else {
        write_cell(caption, "0", sub.as_str(), plain(Tone::Good))
    }
}

/// Groups of lines as spans.
pub open spec fn groups_view(s: Seq<Vec<Line>>) -> Seq<Seq<LineView>> {
    Seq::new(s.len(), |i: int| screen::lines_view(s[i]@))
}

fn write_hero_cells<C: Fn(Calc) -> Num + Copy, S: Fn(Num, u8) -> String + Copy>(
    d: &Derived,
    focus: usize,
    compact: bool,
    calc: C,
    show: S,
) -> (r: Vec<Vec<Line>>)
    requires
        show::ready(calc, show),
        focus < 3,
    ensures
        r@.len() == 6,
        forall|m: Model, w: Printer| #[trigger]
            show::writes(calc, show, m, w) ==> groups_view(r@) == hero_cells(
                m,
                w,
                d@,
                focus as int,
                compact,
            ),
{
    let running = fmt_num(d.running, calc, show);
    let queue = fmt_num(d.queue, calc, show);
    let p95 = d.ttft[focus].p95;
    let first = fmt_secs(p95, calc, show);
    let sub = if d.ttft[focus].is_fallback() {
        "cumulative p95 \u{b7} first token"
    } else {
        "p95 \u{b7} first token"
    };
    let r = vec![
        write_cell(
            choose_caption(compact, "RUNNING", "running"),
            running.as_str(),
            "being answered now",
            bold(Tone::Fg),
        ),
        write_cell(
            choose_caption(compact, "QUEUE", "queue"),
            queue.as_str(),
            "waiting to start",
            bold(queue_color(d.queue)),
        ),
        write_words(d, compact, show),
        write_pools(d, compact, calc, show),
        write_cell(
            choose_caption(compact, "FIRST WORD", "first word"),
            first.as_str(),
            sub,
            bold(latency_color(p95)),
        ),
        write_stall_cell(d, focus, compact, show),
    ];
    proof {
        assert forall|m: Model, w: Printer| #[trigger]
            show::writes(calc, show, m, w) implies groups_view(r@) == hero_cells(
            m,
            w,
            d@,
            focus as int,
            compact,
        ) by {
            assert(groups_view(r@) =~= hero_cells(m, w, d@, focus as int, compact));
        }
    }
    r
}

/// Lines cut to a width.
pub open spec fn cut_all(lines: Seq<LineView>, width: nat) -> Seq<LineView> {
    Seq::new(lines.len(), |i: int| screen::cut(lines[i], width))
}

/// Truncates every line.
pub fn truncate_all(lines: Vec<Line>, width: usize) -> (r: Vec<Line>)
    ensures
        screen::lines_view(r@) == cut_all(screen::lines_view(lines@), width as nat),
{
    let ghost all = screen::lines_view(lines@);
    let mut rest = lines;
    let mut out: Vec<Line> = Vec::new();
    proof {
        assert(screen::lines_view(out@) =~= cut_all(all, width as nat).take(0));
        assert(screen::lines_view(rest@) =~= all.skip(0));
    }
    while rest.len() > 0
        invariant
            out.len() + rest.len() == all.len(),
            screen::lines_view(rest@) == all.skip(out.len() as int),
            screen::lines_view(out@) == cut_all(all, width as nat).take(out.len() as int),
        decreases rest.len(),
    {
        let ghost before = screen::lines_view(rest@);
        let ghost done = out@;
        let line = rest.remove(0);
        proof {
            assert(before[0] == line@);
            assert(before[0] == all[done.len() as int]);
            assert(screen::lines_view(rest@) =~= before.drop_first());
        }
        let t = truncate_line(line, width);
        let ghost added = t@;
        out.push(t);
        proof {
            assert(screen::lines_view(out@) =~= screen::lines_view(done).push(added));
            assert(screen::lines_view(out@) =~= cut_all(all, width as nat).take(out.len() as int));
            assert(screen::lines_view(rest@) =~= all.skip(out.len() as int));
        }
    }
    proof {
        assert(cut_all(all, width as nat).take(all.len() as int) =~= cut_all(all, width as nat));
    }
    out
}

/// The hero strip: a frame, and its cells in the given columns as far as those
/// go. Without figures the frame stays empty.
pub open spec fn hero_ops(
    m: Model,
    w: Printer,
    d: Option<DerivedView>,
    focus: int,
    compact: bool,
    area: Rect,
    cols: Seq<Rect>,
) -> Seq<OpView> {
    let head = seq![frame(area, "Engine status"@, None)];
    match d {
        Some(d) => head + cell_ops(hero_cells(m, w, d, focus, compact), cols),
        None => head,
    }
}

/// Cells in columns, each cut to its column.
pub open spec fn cell_ops(cells: Seq<Seq<LineView>>, cols: Seq<Rect>) -> Seq<OpView> {
    Seq::new(
        if cells.len() < cols.len() {
            cells.len()
        } else {
            cols.len()
        },
        |i: int| written(cols[i], cut_all(cells[i], cols[i].width as nat)),
    )
}

fn place_cells(out: &mut Vec<Op>, cells: Vec<Vec<Line>>, cols: &Vec<Rect>)
    ensures
        ops_view(final(out)@) == ops_view(old(out)@) + cell_ops(groups_view(cells@), cols@),
{
    let ghost all = groups_view(cells@);
    let ghost want = cell_ops(all, cols@);
    let ghost start = ops_view(out@);
    let mut rest = cells;
    let mut i: usize = 0;
    proof {
        assert(start + want.take(0) =~= start);
        assert(groups_view(rest@) =~= all.skip(0));
    }
    while rest.len() > 0 && i < cols.len()
        invariant
            i <= cols.len(),
            i + rest.len() == all.len(),
            want == cell_ops(all, cols@),
            groups_view(rest@) == all.skip(i as int),
            ops_view(out@) == start + want.take(i as int),
        decreases rest.len(),
    {
        let ghost before = groups_view(rest@);
        let ghost done = out@;
        let cell = rest.remove(0);
        proof {
            assert(before[0] == screen::lines_view(cell@));
            assert(before[0] == all[i as int]);
            assert(groups_view(rest@) =~= before.drop_first());
        }
        let lines = truncate_all(cell, cols[i].width as usize);
        let op = Op::Text { area: cols[i], lines, scroll: 0 };
        let ghost added = op@;
        out.push(op);
        i = i + 1;
        proof {
            assert(ops_view(out@) =~= ops_view(done).push(added));
            assert(added == want[i - 1]);
            assert(ops_view(out@) =~= start + want.take(i as int));
            assert(groups_view(rest@) =~= all.skip(i as int));
        }
    }
    proof {
        assert(want.take(i as int) =~= want);
    }
}

pub fn draw_hero<C: Fn(Calc) -> Num + Copy, S: Fn(Num, u8) -> String + Copy>(
    d: Option<&Derived>,
    focus: usize,
    compact: bool,
    area: Rect,
    cols: &Vec<Rect>,
    calc: C,
    show: S,
) -> (r: Vec<Op>)
    requires
        show::ready(calc, show),
        focus < 3,
    ensures
        forall|m: Model, w: Printer| #[trigger]
            show::writes(calc, show, m, w) ==> ops_view(r@) == hero_ops(
                m,
                w,
                seen(d),
                focus as int,
                compact,
                area,
                cols@,
            ),
{
    let mut out = vec![block(area, "Engine status", None)];
    proof {
        assert(ops_view(out@) =~= seq![frame(area, "Engine status"@, None)]);
    }
    if let Some(d) = d {
        let cells = write_hero_cells(d, focus, compact, calc, show);
        place_cells(&mut out, cells, cols);
    }
    out
}

/// A cell says a value below its caption.
pub open spec fn cell_says(cell: Seq<LineView>, caption: Seq<char>, value: Seq<char>) -> bool {
    &&& cell.len() == 3
    &&& cell[0].len() == 1
    &&& cell[0][0].text == caption
    &&& cell[1].len() == 1
    &&& cell[1][0].text == " "@ + value
}

/// A line says a token rate: its name, the newest rate, and the rates of the
/// last 5, 15 and 60 seconds.
pub open spec fn line_says_rate(
    w: Printer,
    line: LineView,
    name: Seq<char>,
    now: Option<Num>,
    win: Seq<Option<Num>>,
) -> bool {
    &&& line.len() == 3
    &&& line[0].text == " "@ + name + " "@
    &&& line[1].text == w(crate::derive::or_zero(now), 0) + " tok/s"@
    &&& line[2].text == "  \u{b7}  "@ + show::whole_text(w, win[0]) + "/"@ + show::whole_text(
        w,
        win[1],
    ) + "/"@ + show::whole_text(w, win[2])
}

/// Every cell of the hero strip says its own figure.
pub proof fn law_hero_cells_say_their_figures(
    m: Model,
    w: Printer,
    d: DerivedView,
    focus: int,
)
    requires
        0 <= focus < 3,
    ensures
        ({
            let c = hero_cells(m, w, d, focus, false);
            &&& c.len() == 6
            &&& cell_says(c[0], "RUNNING"@, show::number_text(m, w, d.running))
            &&& cell_says(c[1], "QUEUE"@, show::number_text(m, w, d.queue))
            &&& c[2].len() == 3
            &&& c[2][0][0].text == "WORDS OUT"@
            &&& line_says_rate(w, c[2][1], "prefill"@, d.prefill_instant, d.prefill_rate)
            &&& line_says_rate(w, c[2][2], "decode"@, d.decode_instant, d.decode_rate)
            &&& cell_says(c[4], "FIRST WORD"@, show::seconds_text(m, w, d.ttft[focus].p95))
            &&& cell_says(
                c[5],
                "STALLS"@,
                if d.stalls[focus].count > 0 {
                    text::digits(d.stalls[focus].count as nat) + "\u{d7}"@
                } else {
                    "0"@
                },
            )
            &&& c[5][2][0].text == " "@ + (w(d.stalls[focus].seconds, 1) + "s frozen in "@
                + WIN_LABELS@[focus]@)
            &&& exists|worst: Num| #[trigger]
                is_worst(d.pools, worst) && cell_says(
                    c[3],
                    "MEMORY POOLS"@,
                    show::percent_text(m, w, Some(worst)),
                )
        }),
{
    let c = hero_cells(m, w, d, focus, false);
    lemma_worst(d.pools);
    assert(is_worst(d.pools, worst_of(d.pools)));
    assert(c[2][2][2].text =~= "  \u{b7}  "@ + show::whole_text(w, d.decode_rate[0]) + "/"@
        + show::whole_text(w, d.decode_rate[1]) + "/"@ + show::whole_text(w, d.decode_rate[2]));
    assert(c[2][1][2].text =~= "  \u{b7}  "@ + show::whole_text(w, d.prefill_rate[0]) + "/"@
        + show::whole_text(w, d.prefill_rate[1]) + "/"@ + show::whole_text(w, d.prefill_rate[2]));
}

/// The usage of the fullest pool that requests wait for: no pool but the host
/// tier is fuller, and it is one of theirs, or nothing.
pub open spec fn is_worst(pools: Seq<PoolView>, v: Num) -> bool {
    &&& forall|i: int|
        0 <= i < pools.len() && (#[trigger] pools[i]).name != "host"@ && !pools[i].usage.nan()
            ==> pools[i].usage.at_most(v)
    &&& v == num(ZERO) || exists|i: int|
        0 <= i < pools.len() && (#[trigger] pools[i]).name != "host"@ && pools[i].usage == v
}

proof fn lemma_worst(pools: Seq<PoolView>)
    ensures
        is_worst(pools, worst_of(pools)),
        !worst_of(pools).nan(),
    decreases pools.len(),
{
    if pools.len() > 0 {
        let t = pools.drop_last();
        lemma_worst(t);
        let v = worst_of(pools);
        assert forall|i: int|
            0 <= i < pools.len() && (#[trigger] pools[i]).name != "host"@ && !pools[i].usage.nan()
            implies pools[i].usage.at_most(v) by {
            if i < t.len() {
                assert(t[i] == pools[i]);
            }
        }
        if v == worst_of(t) && v != num(ZERO) {
            let i = choose|i: int|
                0 <= i < t.len() && (#[trigger] t[i]).name != "host"@ && t[i].usage == v;
            assert(pools[i] == t[i]);
        } else if v != num(ZERO) {
            assert(pools[pools.len() - 1].usage == v);
        }
    }
}

// ---- what the colors and the header tell ---------------------------------------

/// Colors tell how bad a figure is: a pool is red from nine tenths on and yellow
/// from seven, a first token red above two seconds and yellow above half of one,
/// a queue red above twenty and yellow above five.
pub proof fn law_colors_tell_how_bad_it_is(v: Num)
    requires
        !v.nan(),
    ensures
        usage_tone(v) == Tone::Bad <==> num(0x3fec_cccc_cccc_cccd).at_most(v),
        usage_tone(v) == Tone::Good <==> v.below(num(0x3fe6_6666_6666_6666)),
        usage_tone(v) == Tone::Warn <==> num(0x3fe6_6666_6666_6666).at_most(v) && v.below(
            num(0x3fec_cccc_cccc_cccd),
        ),
        latency_tone(Some(v)) == Tone::Bad <==> num(0x4000_0000_0000_0000).below(v),
        latency_tone(Some(v)) == Tone::Good <==> v.at_most(num(0x3fe0_0000_0000_0000)),
        latency_tone(Some(v)) == Tone::Warn <==> num(0x3fe0_0000_0000_0000).below(v) && v.at_most(
            num(0x4000_0000_0000_0000),
        ),
        latency_tone(None) == Tone::Dim,
        queue_tone(Some(v)) == Tone::Bad <==> num(0x4034_0000_0000_0000).below(v),
        queue_tone(Some(v)) == Tone::Fg <==> v.at_most(num(0x4014_0000_0000_0000)),
        queue_tone(Some(v)) == Tone::Warn <==> num(0x4014_0000_0000_0000).below(v) && v.at_most(
            num(0x4034_0000_0000_0000),
        ),
        queue_tone(None) == Tone::Fg,
{
}

/// Cells of the hero strip have the color of the figure that they say.
pub proof fn law_hero_cells_have_the_color_of_their_figures(
    m: Model,
    w: Printer,
    d: DerivedView,
    focus: int,
    compact: bool,
)
    requires
        0 <= focus < 3,
    ensures
        ({
            let c = hero_cells(m, w, d, focus, compact);
            &&& c[1][1][0].style.tone == queue_tone(d.queue)
            &&& c[4][1][0].style.tone == latency_tone(d.ttft[focus].p95)
            &&& c[5][1][0].style.tone == Tone::Bad <==> d.stalls[focus].count > 0
            &&& c[5][1][0].style.tone == Tone::Good <==> d.stalls[focus].count == 0
            &&& exists|worst: Num| #[trigger]
                is_worst(d.pools, worst) && c[3][1][0].style.tone == usage_tone(worst)
        }),
{
    lemma_worst(d.pools);
    assert(is_worst(d.pools, worst_of(d.pools)));
}

/// A line has this text in it, in one piece.
pub open spec fn holds(line: LineView, text: Seq<char>) -> bool {
    exists|i: int| 0 <= i < line.len() && (#[trigger] line[i]).text == text
}

/// The header says which model runs in which engine, for how many seconds it
/// was seen, the poll interval, and how old the data is once it is older than
/// two seconds.
pub proof fn law_header_says_who_and_since_when(
    m: Model,
    w: Printer,
    ui: Ui,
    d: Option<DerivedView>,
    uptime: Option<u64>,
    age: Option<u64>,
)
    ensures
        ({
            let l = header_line(m, w, ui, d, uptime, age);
            &&& d matches Some(f) ==> holds(
                l,
                " \u{b7} "@ + f.model + " ("@ + f.engine + ")"@,
            )
            &&& d is Some ==> (uptime matches Some(t) ==> holds(
                l,
                " \u{b7} up "@ + show::duration_text((t / 1_000_000_000) as nat),
            ))
            &&& holds(l, " \u{b7} poll "@ + w(ui.interval, 1) + "s"@)
            &&& age matches Some(a) ==> (a > 2_000_000_000 ==> holds(
                l,
                " \u{b7} data "@ + w(m(Calc::Seconds(a)), 0) + "s old"@,
            ))
            &&& l.len() == 3 + (if d is Some {
                1int
            } else {
                0
            }) + (if d is Some && uptime is Some {
                1int
            } else {
                0
            }) + (if ui.insecure {
                1int
            } else {
                0
            }) + (if age matches Some(a) && a > 2_000_000_000 {
                1int
            } else {
                0
            })
        }),
{
    let l = header_line(m, w, ui, d, uptime, age);
    if let Some(f) = d {
        assert(l[1].text == " \u{b7} "@ + f.model + " ("@ + f.engine + ")"@);
        if let Some(t) = uptime {
            assert(l[2].text == " \u{b7} up "@ + show::duration_text((t / 1_000_000_000) as nat));
            assert(l[3].text == " \u{b7} poll "@ + w(ui.interval, 1) + "s"@);
        } else {
            assert(l[2].text == " \u{b7} poll "@ + w(ui.interval, 1) + "s"@);
        }
    } else {
        assert(l[1].text == " \u{b7} poll "@ + w(ui.interval, 1) + "s"@);
    }
    if let Some(a) = age {
        if a > 2_000_000_000 {
            assert(l[l.len() - 2].text == " \u{b7} data "@ + w(m(Calc::Seconds(a)), 0)
                + "s old"@);
        }
    }
}

/// Cells stand in their columns: the first cell in the first one, and so on.
pub proof fn law_cells_stand_in_their_columns(
    m: Model,
    w: Printer,
    d: DerivedView,
    focus: int,
    compact: bool,
    area: Rect,
    cols: Seq<Rect>,
    i: int,
)
    requires
        0 <= i < 6,
        cols.len() == 6,
    ensures
        ({
            let ops = hero_ops(m, w, Some(d), focus, compact, area, cols);
            let cells = hero_cells(m, w, d, focus, compact);
            &&& ops.len() == 7
            &&& ops[0].area() == area
            &&& ops[i + 1].area() == cols[i]
            &&& ops[i + 1] matches OpView::Text { lines, scroll, .. } && scroll == 0
                && lines.len() == cells[i].len() && forall|k: int|
                0 <= k < lines.len() ==> #[trigger] lines[k] == screen::cut(
                    cells[i][k],
                    cols[i].width as nat,
                )
        }),
{
}

} // verus!
