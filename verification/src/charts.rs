//! The graph panels: token rates, memory pools, and speed per stream.
use crate::derive::{Derived, DerivedView, Peaks, Pool, PoolView, WINDOWS};
use crate::graphs::{Graphs, GraphsView};
use crate::num;
use crate::num::{num, peak, Calc, Model, Num, ONE_05, ZERO};
use crate::once;
use crate::panels;
use crate::panels::{Op, OpView};
use crate::plot;
use crate::plot::{grid_for_scale, mini_line_graph, Curve, CurveView};
use crate::screen;
use crate::screen::{
    bold, line1, line2, line4, plain, span, span3, Line, LineView, Rect, Span, Tone,
};
use crate::show;
use crate::show::{count_chars, pool_value, repeat, tok_gauge, Printer};
use crate::text::{join2, same};
use vstd::prelude::*;

verus! {

/// Which rate series a standalone graph shows.
#[derive(Clone, Copy, PartialEq, Eq, Structural, Debug)]
pub enum RateGraph {
    Prefill,
    Decode,
}

/// A curve over the longest window.
pub open spec fn curve(
    m: Model,
    g: GraphsView,
    vals: Seq<Num>,
    ymax: Num,
    tone: Tone,
    stall: Option<Seq<bool>>,
    grid: Seq<Num>,
) -> CurveView {
    CurveView {
        vals,
        dt: g.dt,
        ymax,
        tone,
        stall,
        window: m(Calc::Seconds(WINDOWS@[2])),
        grid,
    }
}

/// A graph, where there is something to draw.
pub open spec fn graph_ops(m: Model, w: Printer, area: Rect, c: CurveView) -> Seq<OpView> {
    match plot::graph_of(m, w, area, c) {
        Some(plot) => seq![OpView::Graph { area, plot }],
        None => seq![],
    }
}

fn push_op(out: &mut Vec<Op>, op: Op)
    ensures
        panels::ops_view(final(out)@) == panels::ops_view(old(out)@).push(op@),
{
    let ghost before = panels::ops_view(out@);
    out.push(op);
    proof {
        assert(panels::ops_view(out@) =~= before.push(op@));
    }
}

fn push_graph<C: Fn(Calc) -> Num + Copy, S: Fn(Num, u8) -> String + Copy>(
    out: &mut Vec<Op>,
    area: Rect,
    c: &Curve,
    calc: C,
    show: S,
)
    requires
        show::ready(calc, show),
    ensures
        forall|m: Model, w: Printer| #[trigger]
            show::writes(calc, show, m, w) ==> panels::ops_view(final(out)@) == panels::ops_view(
                old(out)@,
            ) + graph_ops(m, w, area, c@),
{
    let ghost before = panels::ops_view(out@);
    match mini_line_graph(area, c, calc, show) {
        Some(plot) => {
            let op = Op::Graph { area, plot };
            let ghost added = op@;
            push_op(out, op);
            proof {
                assert(panels::ops_view(out@) =~= before + seq![added]);
            }
        },
        None => {
            proof {
                assert(panels::ops_view(out@) =~= before + seq![]);
            }
        },
    }
}

/// The values of a rate graph.
pub open spec fn rates_shown(d: DerivedView, which: RateGraph) -> Seq<Num> {
    match which {
        RateGraph::Prefill => d.graphs.prefill.vals,
        RateGraph::Decode => d.graphs.decode.vals,
    }
}

/// The larger of the window's peak and the session's.
pub open spec fn scale_shown(d: DerivedView, which: RateGraph, peaks: Peaks) -> Num {
    num::peak_of(rates_shown(d, which)).larger(
        crate::derive::or_zero(
            match which {
                RateGraph::Prefill => peaks.prefill,
                RateGraph::Decode => peaks.decode,
            },
        ),
    )
}

/// The title of a rate graph.
pub open spec fn rate_title(w: Printer, d: DerivedView, which: RateGraph, scale: Num) -> LineView {
    let (title, gloss, instant, tone) = match which {
        RateGraph::Prefill => ("Prefill"@, "prompt processing"@, d.prefill_instant, Tone::Second),
        RateGraph::Decode => ("Decode"@, "token generation"@, d.decode_instant, Tone::First),
    };
    seq![
        screen::styled(" "@ + title + " "@, bold(Tone::Fg)),
        screen::styled("("@ + gloss + ") "@, plain(Tone::Dim)),
        screen::styled(
            "\u{2014} now "@ + w(crate::derive::or_zero(instant), 0) + " \u{b7} peak "@ + w(
                scale,
                0,
            ) + " "@,
            bold(Tone::Fg),
        ),
        screen::styled("\u{25cf} "@, bold(tone)),
    ]
}

/// A rate graph in its frame.
pub open spec fn rate_graph_ops(
    m: Model,
    w: Printer,
    d: DerivedView,
    which: RateGraph,
    peaks: Peaks,
    area: Rect,
) -> Seq<OpView> {
    let scale = scale_shown(d, which, peaks);
    let (foot, tone, stall) = match which {
        RateGraph::Prefill => (" bursts freeze streams "@, Tone::Second, None),
        RateGraph::Decode => (" red ticks are stalls "@, Tone::First, Some(d.graphs.stall)),
    };
    seq![
        OpView::Frame {
            area,
            title: rate_title(w, d, which, scale),
            foot: Some(seq![screen::styled(foot, plain(Tone::Dim))]),
            border: Tone::Dim,
        },
    ] + graph_ops(
        m,
        w,
        area.framed(),
        curve(
            m,
            d.graphs,
            rates_shown(d, which),
            plot::headroom(m, scale),
            tone,
            stall,
            plot::gridlines(m, scale),
        ),
    )
}

fn write_rate_title<S: Fn(Num, u8) -> String + Copy>(
    d: &Derived,
    which: RateGraph,
    scale: Num,
    show: S,
) -> (r: Line)
    requires
        show::printable(show),
    ensures
        forall|w: Printer| #[trigger]
            show::prints(show, w) ==> r@ == rate_title(w, d@, which, scale),
{
    let (title, gloss, instant, tone) = match which {
        RateGraph::Prefill => ("Prefill", "prompt processing", d.prefill_instant, Tone::Second),
        RateGraph::Decode => ("Decode", "token generation", d.decode_instant, Tone::First),
    };
    let now = show(instant.unwrap_or(num(ZERO)), 0);
    let top = show(scale, 0);
    let mut text = join2("\u{2014} now ", now.as_str());
    text.append(" \u{b7} peak ");
    text.append(top.as_str());
    text.append(" ");
    line4(
        span3(" ", title, " ", bold(Tone::Fg)),
        span3("(", gloss, ") ", plain(Tone::Dim)),
        Span { text, style: bold(Tone::Fg) },
        span("\u{25cf} ", bold(tone)),
    )
}

pub fn draw_rate_graph<C: Fn(Calc) -> Num + Copy, S: Fn(Num, u8) -> String + Copy>(
    d: &Derived,
    which: RateGraph,
    peaks: &Peaks,
    area: Rect,
    calc: C,
    show: S,
) -> (r: Vec<Op>)
    requires
        show::ready(calc, show),
    ensures
        forall|m: Model, w: Printer| #[trigger]
            show::writes(calc, show, m, w) ==> panels::ops_view(r@) == rate_graph_ops(
                m,
                w,
                d@,
                which,
                *peaks,
                area,
            ),
{
    let g = &d.graphs;
    let (vals, session, foot, tone, stall) = match which {
        RateGraph::Prefill => (
            g.prefill.vals.as_slice(),
            peaks.prefill,
            " bursts freeze streams ",
            Tone::Second,
            None,
        ),
        RateGraph::Decode => (
            g.decode.vals.as_slice(),
            peaks.decode,
            " red ticks are stalls ",
            Tone::First,
            Some(g.stall.as_slice()),
        ),
    };
    let scale = peak(vals).max(session.unwrap_or(num(ZERO)));
    let (grid, ymax) = grid_for_scale(scale, calc);
    let op = Op::Frame {
        area,
        title: write_rate_title(d, which, scale, show),
        foot: Some(line1(span(foot, plain(Tone::Dim)))),
        border: Tone::Dim,
    };
    let ghost head = op@;
    let mut out = vec![op];
    proof {
        assert(panels::ops_view(out@) =~= seq![head]);
    }
    let c = Curve {
        vals,
        dt: g.dt.as_slice(),
        ymax,
        tone,
        stall,
        window: calc(Calc::Seconds(WINDOWS[2])),
        grid: grid.as_slice(),
    };
    push_graph(&mut out, area.inner(), &c, calc, show);
    out
}

// ---- memory pools -----------------------------------------------------------

/// What full pools mean.
pub const POOLS_FOOT: &'static str =
    " KV/mamba full = requests wait \u{b7} host full is normal \
     (it recycles its own old entries) ";

/// The tone of the `i`-th pool.
pub open spec fn pool_tone(i: int) -> Tone {
    if i % 4 == 0 {
        Tone::First
    } else if i % 4 == 1 {
        Tone::Warn
    } else if i % 4 == 2 {
        Tone::Accent
    } else {
        Tone::Second
    }
}

fn pool_color(i: usize) -> (r: Tone)
    ensures
        r == pool_tone(i as int),
{
    if i % 4 == 0 {
        Tone::First
    } else if i % 4 == 1 {
        Tone::Warn
    } else if i % 4 == 2 {
        Tone::Accent
    } else {
        Tone::Second
    }
}

/// The title with the first `n` pools.
pub open spec fn pool_spans(m: Model, w: Printer, pools: Seq<PoolView>) -> LineView
    decreases pools.len(),
{
    if pools.len() == 0 {
        seq![screen::styled(" Memory pools"@, bold(Tone::Fg))]
    } else {
        pool_spans(m, w, pools.drop_last()).push(
            screen::styled(" \u{b7} "@, plain(Tone::Dim)),
        ).push(
            screen::styled(
                once::named_pool(m, w, pools.last()),
                bold(pool_tone(pools.len() - 1)),
            ),
        )
    }
}

/// The title of the pools panel: every pool in its lane's tone.
pub open spec fn pools_title(m: Model, w: Printer, pools: Seq<PoolView>) -> LineView {
    pool_spans(m, w, pools).push(screen::styled(" "@, plain(Tone::Fg)))
}

fn write_pools_title<C: Fn(Calc) -> Num + Copy, S: Fn(Num, u8) -> String + Copy>(
    pools: &Vec<Pool>,
    calc: C,
    show: S,
) -> (r: Line)
    requires
        show::ready(calc, show),
    ensures
        forall|m: Model, w: Printer| #[trigger]
            show::writes(calc, show, m, w) ==> r@ == pools_title(
                m,
                w,
                crate::derive::pools_view(pools@),
            ),
{
    let ghost all = crate::derive::pools_view(pools@);
    let mut line = line1(span(" Memory pools", bold(Tone::Fg)));
    let mut i: usize = 0;
    while i < pools.len()
        invariant
            i <= pools.len(),
            show::ready(calc, show),
            all == crate::derive::pools_view(pools@),
            forall|m: Model, w: Printer| #[trigger]
                show::writes(calc, show, m, w) ==> line@ == pool_spans(m, w, all.take(i as int)),
        decreases pools.len() - i,
    {
        proof {
            assert(all.take(i + 1).drop_last() =~= all.take(i as int));
        }
        line.add(span(" \u{b7} ", plain(Tone::Dim)));
        let value = pool_value(&pools[i], calc, show);
        line.add(span3(pools[i].name, " ", value.as_str(), bold(pool_color(i))));
        i = i + 1;
    }
    proof {
        assert(all.take(all.len() as int) =~= all);
    }
    line.add(span(" ", plain(Tone::Fg)));
    line
}

/// How many lanes there are: one per pool, at least one, and never more than the
/// area has room for, since each lane needs a graph row and an axis row.
pub open spec fn lane_count(pools: nat, height: u16) -> nat {
    let room = if height / 2 > 1 {
        (height / 2) as nat
    } else {
        1
    };
    if pools < 1 {
        1
    } else if pools > room {
        room
    } else {
        pools
    }
}

pub fn count_lanes(pools: usize, height: u16) -> (r: usize)
    ensures
        r == lane_count(pools as nat, height),
        1 <= r <= u16::MAX,
{
    let room: usize = if height / 2 > 1 {
        (height / 2) as usize
    } else {
        1
    };
    if pools < 1 {
        1
    } else if pools > room {
        room
    } else {
        pools
    }
}

/// The history of a pool.
pub open spec fn pool_series(g: GraphsView, name: Seq<char>) -> Option<Seq<Num>> {
    if name == "KV"@ {
        Some(g.pool_kv)
    } else if name == "mamba"@ {
        Some(g.pool_mamba)
    } else if name == "host"@ {
        Some(g.pool_host)
    } else if name == "SWA"@ {
        Some(g.pool_swa)
    } else {
        None
    }
}

fn find_series<'a>(g: &'a Graphs, name: &str) -> (r: Option<&'a [Num]>)
    ensures
        match r {
            Some(s) => pool_series(g@, name@) == Some(s@),
            None => pool_series(g@, name@) is None,
        },
{
    if same(name, "KV") {
        Some(g.pool_kv.as_slice())
    } else if same(name, "mamba") {
        Some(g.pool_mamba.as_slice())
    } else if same(name, "host") {
        Some(g.pool_host.as_slice())
    } else if same(name, "SWA") {
        Some(g.pool_swa.as_slice())
    } else {
        None
    }
}

/// A lane without its axis row.
pub open spec fn above_axis(lane: Rect) -> Rect {
    Rect {
        height: if lane.height > 0 {
            (lane.height - 1) as u16
        } else {
            0
        },
        ..lane
    }
}

/// The axis row of a lane.
pub open spec fn axis_row(lane: Rect) -> Rect {
    Rect { x: lane.x, y: (lane.y + lane.height - 1) as u16, width: lane.width, height: 1 }
}

/// The labeled zero-axis of a lane; it fills the lane's width exactly.
pub open spec fn axis_line(name: Seq<char>, width: u16, tone: Tone) -> LineView {
    seq![
        screen::styled(" "@ + name + " "@, bold(tone)),
        screen::styled(
            Seq::new(
                if width > name.len() + 2 {
                    (width - (name.len() + 2)) as nat
                } else {
                    0
                },
                |i: int| '\u{2500}',
            ),
            plain(tone),
        ),
    ]
}

fn write_axis(name: &str, width: u16, tone: Tone) -> (r: Line)
    ensures
        r@ == axis_line(name@, width, tone),
{
    let n = count_chars(name);
    let fill: usize = if width >= 2 && (width - 2) as usize > n {
        (width - 2) as usize - n
    } else {
        0
    };
    let rule = repeat('\u{2500}', fill);
    let r = line2(
        span3(" ", name, " ", bold(tone)),
        Span { text: rule, style: plain(tone) },
    );
    proof {
        assert(r@[1] =~= axis_line(name@, width, tone)[1]);
        assert(r@ =~= axis_line(name@, width, tone));
    }
    r
}

/// One pool's lane: its history above a labeled axis. Each lane has its own
/// scale from nothing to full.
pub open spec fn lane_ops(
    m: Model,
    w: Printer,
    g: GraphsView,
    p: PoolView,
    i: int,
    lane: Rect,
) -> Seq<OpView> {
    match pool_series(g, p.name) {
        Some(series) => {
            let graph = graph_ops(
                m,
                w,
                above_axis(lane),
                curve(m, g, series, num(ONE_05), pool_tone(i), None, seq![]),
            );
            if lane.height >= 1 {
                graph.push(
                    panels::written(
                        axis_row(lane),
                        seq![axis_line(p.name, lane.width, pool_tone(i))],
                    ),
                )
            } else {
                graph
            }
        },
        None => seq![],
    }
}

fn push_lane<C: Fn(Calc) -> Num + Copy, S: Fn(Num, u8) -> String + Copy>(
    out: &mut Vec<Op>,
    g: &Graphs,
    p: &Pool,
    i: usize,
    lane: Rect,
    calc: C,
    show: S,
)
    requires
        show::ready(calc, show),
        lane.fits(),
    ensures
        forall|m: Model, w: Printer| #[trigger]
            show::writes(calc, show, m, w) ==> panels::ops_view(final(out)@) == panels::ops_view(
                old(out)@,
            ) + lane_ops(m, w, g@, p@, i as int, lane),
{
    let ghost start = panels::ops_view(out@);
    let tone = pool_color(i);
    let series = match find_series(g, p.name) {
        Some(s) => s,
        None => {
            proof {
                assert(start + Seq::<OpView>::empty() =~= start);
            }
            return;
        },
    };
    let none: Vec<Num> = Vec::new();
    let upper = Rect {
        x: lane.x,
        y: lane.y,
        width: lane.width,
        height: if lane.height > 0 {
            lane.height - 1
        } else {
            0
        },
    };
    let c = Curve {
        vals: series,
        dt: g.dt.as_slice(),
        ymax: num(ONE_05),
        tone,
        stall: None,
        window: calc(Calc::Seconds(WINDOWS[2])),
        grid: none.as_slice(),
    };
    proof {
        assert(none@ =~= seq![]);
    }
    push_graph(out, upper, &c, calc, show);
    if lane.height >= 1 {
        let ghost mid = panels::ops_view(out@);
        let row = Rect { x: lane.x, y: lane.y + (lane.height - 1), width: lane.width, height: 1 };
        let line = write_axis(p.name, lane.width, tone);
        let ghost text = line@;
        let lines = vec![line];
        proof {
            assert(screen::lines_view(lines@) =~= seq![text]);
        }
        let op = Op::Text { area: row, lines, scroll: 0 };
        let ghost added = op@;
        push_op(out, op);
        proof {
            assert forall|m: Model, w: Printer| #[trigger]
                show::writes(calc, show, m, w) implies panels::ops_view(out@) == start + lane_ops(
                m,
                w,
                g@,
                p@,
                i as int,
                lane,
            ) by {
                assert(mid.push(added) =~= start + lane_ops(m, w, g@, p@, i as int, lane));
            }
        }
    }
}

/// The lanes of the first `n` pools.
pub open spec fn lanes_ops(
    m: Model,
    w: Printer,
    g: GraphsView,
    pools: Seq<PoolView>,
    lanes: Seq<Rect>,
    n: nat,
) -> Seq<OpView>
    decreases n,
{
    if n == 0 {
        seq![]
    } else {
        lanes_ops(m, w, g, pools, lanes, (n - 1) as nat) + lane_ops(
            m,
            w,
            g,
            pools[n - 1],
            n - 1,
            lanes[n - 1],
        )
    }
}

/// The pools panel: one lane per pool, as far as there is room.
pub open spec fn pool_ops(
    m: Model,
    w: Printer,
    d: DerivedView,
    area: Rect,
    lanes: Seq<Rect>,
) -> Seq<OpView> {
    let n = if d.pools.len() < lanes.len() {
        d.pools.len()
    } else {
        lanes.len()
    };
    seq![
        OpView::Frame {
            area,
            title: pools_title(m, w, d.pools),
            foot: Some(
                seq![
                    screen::styled(
                        POOLS_FOOT@,
                        plain(Tone::Dim),
                    ),
                ],
            ),
            border: Tone::Dim,
        },
    ] + lanes_ops(m, w, d.graphs, d.pools, lanes, n)
}

pub fn draw_pools<C: Fn(Calc) -> Num + Copy, S: Fn(Num, u8) -> String + Copy>(
    d: &Derived,
    area: Rect,
    lanes: &Vec<Rect>,
    calc: C,
    show: S,
) -> (r: Vec<Op>)
    requires
        show::ready(calc, show),
        forall|i: int| 0 <= i < lanes@.len() ==> (#[trigger] lanes@[i]).fits(),
    ensures
        forall|m: Model, w: Printer| #[trigger]
            show::writes(calc, show, m, w) ==> panels::ops_view(r@) == pool_ops(
                m,
                w,
                d@,
                area,
                lanes@,
            ),
{
    let op = Op::Frame {
        area,
        title: write_pools_title(&d.pools, calc, show),
        foot: Some(
            line1(
                span(
                    POOLS_FOOT,
                    plain(Tone::Dim),
                ),
            ),
        ),
        border: Tone::Dim,
    };
    let ghost head = op@;
    let mut out = vec![op];
    let ghost all = crate::derive::pools_view(d.pools@);
    let mut i: usize = 0;
    proof {
        assert(panels::ops_view(out@) =~= seq![head] + Seq::<OpView>::empty());
    }
    while i < d.pools.len() && i < lanes.len()
        invariant
            i <= d.pools.len(),
            i <= lanes.len(),
            show::ready(calc, show),
            all == crate::derive::pools_view(d.pools@),
            forall|j: int| 0 <= j < lanes@.len() ==> (#[trigger] lanes@[j]).fits(),
            forall|m: Model, w: Printer| #[trigger]
                show::writes(calc, show, m, w) ==> panels::ops_view(out@) == seq![head] + lanes_ops(
                    m,
                    w,
                    d.graphs@,
                    all,
                    lanes@,
                    i as nat,
                ),
        decreases d.pools.len() - i,
    {
        let ghost before = panels::ops_view(out@);
        push_lane(&mut out, &d.graphs, &d.pools[i], i, lanes[i], calc, show);
        i = i + 1;
        proof {
            assert forall|m: Model, w: Printer| #[trigger]
                show::writes(calc, show, m, w) implies panels::ops_view(out@) == seq![head]
                + lanes_ops(m, w, d.graphs@, all, lanes@, i as nat) by {
                let rest = lanes_ops(m, w, d.graphs@, all, lanes@, (i - 1) as nat);
                let more = lane_ops(m, w, d.graphs@, all[i - 1], i - 1, lanes@[i - 1]);
                assert(before + more =~= seq![head] + (rest + more));
            }
        }
    }
    out
}

// ---- speed per stream -------------------------------------------------------

/// The speeds that are known.
pub open spec fn known(s: Seq<Option<Num>>) -> Seq<Num>
    decreases s.len(),
{
    if s.len() == 0 {
        seq![]
    } else {
        match s.last() {
            Some(v) => known(s.drop_last()).push(v),
            None => known(s.drop_last()),
        }
    }
}

/// The speeds, with zero where none is known.
pub open spec fn filled(s: Seq<Option<Num>>) -> Seq<Num> {
    Seq::new(s.len(), |i: int| crate::derive::or_zero(s[i]))
}

fn find_speeds(s: &Vec<Option<Num>>) -> (r: (Vec<Num>, Vec<Num>))
    ensures
        r.0@ == known(s@),
        r.1@ == filled(s@),
{
    let mut a: Vec<Num> = Vec::new();
    let mut b: Vec<Num> = Vec::new();
    let mut i: usize = 0;
    proof {
        assert(s@.take(0) =~= seq![]);
    }
    while i < s.len()
        invariant
            i <= s.len(),
            a@ == known(s@.take(i as int)),
            b@ == filled(s@.take(i as int)),
        decreases s.len() - i,
    {
        proof {
            assert(s@.take(i + 1).drop_last() =~= s@.take(i as int));
        }
        match s[i] {
            Some(v) => {
                a.push(v);
                b.push(v);
            },
            None => {
                b.push(num(ZERO));
            },
        }
        i = i + 1;
        proof {
            assert(b@ =~= filled(s@.take(i as int)));
        }
    }
    proof {
        assert(s@.take(s@.len() as int) =~= s@);
    }
    (a, b)
}

/// The larger of the window's fastest stream and the session's.
pub open spec fn speed_scale(g: GraphsView, peaks: Peaks) -> Num {
    num::peak_of(known(g.per_stream)).larger(crate::derive::or_zero(peaks.decode_single))
}

/// The title of the speed panel.
pub open spec fn speed_title(w: Printer, g: GraphsView, peaks: Peaks) -> Seq<char> {
    "Speed per stream \u{2014} now "@ + (if g.per_stream.len() > 0 && g.per_stream.last() is Some {
        w(g.per_stream.last()->0, 0) + " tok/s"@
    } else {
        "idle"@
    }) + " \u{b7} peak "@ + show::whole_text(w, peaks.decode_single)
}

/// The speed panel: total decode rate divided by running requests.
pub open spec fn speed_ops(
    m: Model,
    w: Printer,
    g: GraphsView,
    peaks: Peaks,
    area: Rect,
) -> Seq<OpView> {
    let scale = speed_scale(g, peaks);
    seq![
        panels::frame(
            area,
            speed_title(w, g, peaks),
            Some("how fast each answer is being written \u{2014} dips are stalls"@),
        ),
    ] + graph_ops(
        m,
        w,
        area.framed(),
        curve(
            m,
            g,
            filled(g.per_stream),
            plot::headroom(m, scale),
            Tone::Warn,
            None,
            plot::gridlines(m, scale),
        ),
    )
}

fn write_speed_title<S: Fn(Num, u8) -> String + Copy>(g: &Graphs, peaks: &Peaks, show: S) -> (r:
    String)
    requires
        show::printable(show),
    ensures
        forall|w: Printer| #[trigger] show::prints(show, w) ==> r@ == speed_title(w, g@, *peaks),
{
    let n = g.per_stream.len();
    let now = if n > 0 {
        g.per_stream[n - 1]
    } else {
        None
    };
    let text = match now {
        Some(v) => {
            let mut t = show(v, 0);
            t.append(" tok/s");
            t
        },
        None => String::from_str("idle"),
    };
    let top = tok_gauge(peaks.decode_single, show);
    let mut out = join2("Speed per stream \u{2014} now ", text.as_str());
    out.append(" \u{b7} peak ");
    out.append(top.as_str());
    out
}

pub fn draw_speed<C: Fn(Calc) -> Num + Copy, S: Fn(Num, u8) -> String + Copy>(
    g: &Graphs,
    peaks: &Peaks,
    area: Rect,
    calc: C,
    show: S,
) -> (r: Vec<Op>)
    requires
        show::ready(calc, show),
    ensures
        forall|m: Model, w: Printer| #[trigger]
            show::writes(calc, show, m, w) ==> panels::ops_view(r@) == speed_ops(
                m,
                w,
                g@,
                *peaks,
                area,
            ),
{
    let (speeds, vals) = find_speeds(&g.per_stream);
    let scale = peak(speeds.as_slice()).max(peaks.decode_single.unwrap_or(num(ZERO)));
    let (grid, ymax) = grid_for_scale(scale, calc);
    let title = write_speed_title(g, peaks, show);
    let op = panels::block(
        area,
        title.as_str(),
        Some("how fast each answer is being written \u{2014} dips are stalls"),
    );
    let ghost head = op@;
    let mut out = vec![op];
    proof {
        assert(panels::ops_view(out@) =~= seq![head]);
    }
    let c = Curve {
        vals: vals.as_slice(),
        dt: g.dt.as_slice(),
        ymax,
        tone: Tone::Warn,
        stall: None,
        window: calc(Calc::Seconds(WINDOWS[2])),
        grid: grid.as_slice(),
    };
    push_graph(&mut out, area.inner(), &c, calc, show);
    out
}

// ---- what the graphs show ----------------------------------------------------

/// The axes of a graph of the last minute.
pub open spec fn minute_axes(m: Model, area: Rect, dt: Seq<Num>, ymax: Num) -> plot::Axes {
    plot::Axes {
        dots: (2 * area.width) as u32,
        rows: (4 * area.height) as u32,
        ymax,
        span: num::sum_of(m, dt),
        window: m(Calc::Seconds(60_000_000_000)),
    }
}

/// The graph of a lane in an area: where an interval's column is left of the
/// next one's, the bar in it has the height of the interval's value, and so has
/// the newest interval's bar.
pub open spec fn plots(
    m: Model,
    op: OpView,
    area: Rect,
    vals: Seq<Num>,
    dt: Seq<Num>,
    ymax: Num,
    tone: Tone,
) -> bool {
    let a = minute_axes(m, area, dt, ymax);
    op matches OpView::Graph { area: at, plot: p } && at == area && forall|i: int|
        0 <= i < vals.len() ==> ({
            let x = a.column(m, plot::cum(m, dt, i as nat));
            let h = a.height(m, #[trigger] vals[i]).larger(num(num::ONE));
            &&& i + 1 < vals.len() && x.below(a.column(m, plot::cum(m, dt, (i + 1) as nat)))
                ==> plot::stands(p, x, h, tone)
            &&& i + 1 == vals.len() && x.whole() < a.dots ==> plot::stands(
                p,
                m(Calc::Whole(x.whole() as u64)),
                h,
                tone,
            )
        })
}

/// There is room for a graph, and something to draw.
pub open spec fn has_room(m: Model, area: Rect, dt: Seq<Num>, ymax: Num) -> bool {
    &&& dt.len() > 0
    &&& area.width > 0
    &&& area.height > 0
    &&& !ymax.at_most(num(ZERO))
    &&& !m(Calc::Seconds(60_000_000_000)).at_most(num(ZERO))
}

proof fn lemma_graph_plots(
    m: Model,
    w: Printer,
    area: Rect,
    g: GraphsView,
    vals: Seq<Num>,
    ymax: Num,
    tone: Tone,
    stall: Option<Seq<bool>>,
    grid: Seq<Num>,
)
    requires
        plot::settles(m),
        has_room(m, area, g.dt, ymax),
    ensures
        ({
            let ops = graph_ops(m, w, area, curve(m, g, vals, ymax, tone, stall, grid));
            ops.len() == 1 && plots(m, ops[0], area, vals, g.dt, ymax, tone)
        }),
{
    let c = curve(m, g, vals, ymax, tone, stall, grid);
    let ops = graph_ops(m, w, area, c);
    assert(WINDOWS@[2] == 60_000_000_000);
    assert(plot::drawable(area, c));
    assert(plot::axes_of(m, area, c) == minute_axes(m, area, g.dt, ymax));
    assert forall|i: int| 0 <= i < vals.len() implies ({
        let a = minute_axes(m, area, g.dt, ymax);
        let p = plot::plot_of(m, w, area, c);
        let x = a.column(m, plot::cum(m, g.dt, i as nat));
        let h = a.height(m, #[trigger] vals[i]).larger(num(num::ONE));
        &&& i + 1 < vals.len() && x.below(a.column(m, plot::cum(m, g.dt, (i + 1) as nat)))
            ==> plot::stands(p, x, h, tone)
        &&& i + 1 == vals.len() && x.whole() < a.dots ==> plot::stands(
            p,
            m(Calc::Whole(x.whole() as u64)),
            h,
            tone,
        )
    }) by {
        plot::law_bars_have_the_height_of_their_values(m, w, area, c, i);
    }
}

/// A scale that no rate of a lane is above, nor the session's peak.
pub open spec fn spans(scale: Num, vals: Seq<Num>, peak: Option<Num>) -> bool {
    &&& forall|i: int| 0 <= i < vals.len() && !vals[i].nan() ==> (#[trigger] vals[i]).at_most(scale)
    &&& peak matches Some(p) ==> p.nan() || p.at_most(scale)
    &&& scale == num(ZERO) || vals.contains(scale) || peak == Some(scale)
}

proof fn lemma_peak_spans(vals: Seq<Num>, peak: Option<Num>)
    ensures
        spans(num::peak_of(vals).larger(crate::derive::or_zero(peak)), vals, peak),
{
    num::law_peak_bounds_every_number(vals);
    lemma_peak_is_attained(vals);
    let top = num::peak_of(vals);
    let scale = top.larger(crate::derive::or_zero(peak));
    assert forall|i: int| 0 <= i < vals.len() && !vals[i].nan() implies (
    #[trigger] vals[i]).at_most(scale) by {
        assert(vals[i].at_most(top));
    }
}

proof fn lemma_peak_is_attained(vals: Seq<Num>)
    ensures
        num::peak_of(vals) == num(ZERO) || vals.contains(num::peak_of(vals)),
    decreases vals.len(),
{
    if vals.len() > 0 {
        let t = vals.drop_last();
        lemma_peak_is_attained(t);
        let p = num::peak_of(vals);
        if p == vals.last() {
            assert(vals[vals.len() - 1] == p);
        } else if t.contains(p) {
            let k = choose|k: int| 0 <= k < t.len() && t[k] == p;
            assert(vals[k] == p);
        }
    }
}

/// The graph titled Prefill shows the prefill lane and the graph titled Decode
/// the decode lane: every bar has the height of its own lane's rate, on a scale
/// that none of that lane's rates is above. The title tells the lane's newest
/// rate and that scale.
pub proof fn law_rate_graphs_show_their_own_lanes(
    m: Model,
    w: Printer,
    d: DerivedView,
    peaks: Peaks,
    area: Rect,
)
    requires
        plot::settles(m),
    ensures
        exists|scale: Num| #[trigger]
            shows_rates(
                m,
                w,
                rate_graph_ops(m, w, d, RateGraph::Prefill, peaks, area),
                area,
                " Prefill "@,
                d.graphs.prefill.vals,
                d.graphs.dt,
                d.prefill_instant,
                peaks.prefill,
                Tone::Second,
                scale,
            ),
        exists|scale: Num| #[trigger]
            shows_rates(
                m,
                w,
                rate_graph_ops(m, w, d, RateGraph::Decode, peaks, area),
                area,
                " Decode "@,
                d.graphs.decode.vals,
                d.graphs.dt,
                d.decode_instant,
                peaks.decode,
                Tone::First,
                scale,
            ),
{
    let a = num::peak_of(d.graphs.prefill.vals).larger(crate::derive::or_zero(peaks.prefill));
    let b = num::peak_of(d.graphs.decode.vals).larger(crate::derive::or_zero(peaks.decode));
    lemma_peak_spans(d.graphs.prefill.vals, peaks.prefill);
    lemma_peak_spans(d.graphs.decode.vals, peaks.decode);
    if has_room(m, area.framed(), d.graphs.dt, plot::headroom(m, a)) {
        lemma_graph_plots(
            m,
            w,
            area.framed(),
            d.graphs,
            d.graphs.prefill.vals,
            plot::headroom(m, a),
            Tone::Second,
            None,
            plot::gridlines(m, a),
        );
    }
    if has_room(m, area.framed(), d.graphs.dt, plot::headroom(m, b)) {
        lemma_graph_plots(
            m,
            w,
            area.framed(),
            d.graphs,
            d.graphs.decode.vals,
            plot::headroom(m, b),
            Tone::First,
            Some(d.graphs.stall),
            plot::gridlines(m, b),
        );
    }
    assert(" "@ + "Prefill"@ + " "@ =~= " Prefill "@) by {
        reveal_strlit(" ");
        reveal_strlit("Prefill");
        reveal_strlit(" Prefill ");
    }
    assert(" "@ + "Decode"@ + " "@ =~= " Decode "@) by {
        reveal_strlit(" ");
        reveal_strlit("Decode");
        reveal_strlit(" Decode ");
    }
    assert(shows_rates(
        m,
        w,
        rate_graph_ops(m, w, d, RateGraph::Prefill, peaks, area),
        area,
        " Prefill "@,
        d.graphs.prefill.vals,
        d.graphs.dt,
        d.prefill_instant,
        peaks.prefill,
        Tone::Second,
        a,
    ));
    assert(shows_rates(
        m,
        w,
        rate_graph_ops(m, w, d, RateGraph::Decode, peaks, area),
        area,
        " Decode "@,
        d.graphs.decode.vals,
        d.graphs.dt,
        d.decode_instant,
        peaks.decode,
        Tone::First,
        b,
    ));
}

/// A panel with this name shows the rates of a lane.
pub open spec fn shows_rates(
    m: Model,
    w: Printer,
    ops: Seq<OpView>,
    area: Rect,
    name: Seq<char>,
    vals: Seq<Num>,
    dt: Seq<Num>,
    now: Option<Num>,
    peak: Option<Num>,
    tone: Tone,
    scale: Num,
) -> bool {
    &&& spans(scale, vals, peak)
    &&& ops.len() >= 1
    &&& ops[0] matches OpView::Frame { area: at, title, .. } && at == area && title.len() == 4
        && title[0].text == name && title[2].text == "\u{2014} now "@ + w(
        match now {
            Some(v) => v,
            None => num(ZERO),
        },
        0,
    ) + " \u{b7} peak "@ + w(scale, 0) + " "@
    &&& has_room(m, area.framed(), dt, plot::headroom(m, scale)) ==> ops.len() == 2 && plots(
        m,
        ops[1],
        area.framed(),
        vals,
        dt,
        plot::headroom(m, scale),
        tone,
    )
}

/// Neither rate graph changes with the other's lane, newest rate or peak.
pub proof fn law_rate_graphs_do_not_mix(
    m: Model,
    w: Printer,
    d: DerivedView,
    f: DerivedView,
    p: Peaks,
    q: Peaks,
    area: Rect,
)
    requires
        d.graphs.dt == f.graphs.dt,
    ensures
        d.graphs.prefill.vals == f.graphs.prefill.vals && d.prefill_instant == f.prefill_instant
            && p.prefill == q.prefill ==> rate_graph_ops(m, w, d, RateGraph::Prefill, p, area)
            == rate_graph_ops(m, w, f, RateGraph::Prefill, q, area),
        d.graphs.decode.vals == f.graphs.decode.vals && d.decode_instant == f.decode_instant
            && p.decode == q.decode && d.graphs.stall == f.graphs.stall ==> rate_graph_ops(
            m,
            w,
            d,
            RateGraph::Decode,
            p,
            area,
        ) == rate_graph_ops(m, w, f, RateGraph::Decode, q, area),
{
}

/// The decode graph has a red tick in the column of every flagged interval.
pub proof fn law_stalls_are_ticked_on_the_decode_graph(
    m: Model,
    w: Printer,
    d: DerivedView,
    peaks: Peaks,
    area: Rect,
    i: int,
)
    requires
        0 <= i < d.graphs.decode.vals.len(),
        i < d.graphs.stall.len(),
        d.graphs.stall[i],
    ensures
        ({
            let ops = rate_graph_ops(m, w, d, RateGraph::Decode, peaks, area);
            ops.len() == 2 ==> exists|scale: Num, tick: Num| #[trigger]
                ticked(
                    m,
                    ops[1],
                    d.graphs.dt,
                    area.framed(),
                    i,
                    scale,
                    tick,
                )
        }),
{
    let ops = rate_graph_ops(m, w, d, RateGraph::Decode, peaks, area);
    if ops.len() == 2 {
        let scale = scale_shown(d, RateGraph::Decode, peaks);
        let c = curve(
            m,
            d.graphs,
            d.graphs.decode.vals,
            plot::headroom(m, scale),
            Tone::First,
            Some(d.graphs.stall),
            plot::gridlines(m, scale),
        );
        let at = area.framed();
        let a = plot::axes_of(m, at, c);
        let tops = plot::tops_of(m, a, c.vals, c.dt);
        let tick = m(
            Calc::Product(m(Calc::Whole(a.rows as u64)), num(num::TICK)),
        ).larger(num(num::TWO));
        plot::law_flagged_intervals_have_ticks(tops, c.stall, tick, i);
        let ticks = plot::tick_marks(tops, c.stall, tick);
        let mark = plot::upright(tops[i].0, tick, Tone::Red);
        let k = choose|k: int| 0 <= k < ticks.len() && ticks[k] == mark;
        let p = plot::plot_of(m, w, at, c);
        assert(ops[1] == (OpView::Graph { area: at, plot: p }));
        assert(p.marks[p.marks.len() - ticks.len() + k] == mark);
        assert(ticked(m, ops[1], d.graphs.dt, at, i, plot::headroom(m, scale), tick));
    }
}

/// A red tick stands in the column of an interval.
pub open spec fn ticked(
    m: Model,
    op: OpView,
    dt: Seq<Num>,
    area: Rect,
    i: int,
    ymax: Num,
    tick: Num,
) -> bool {
    op matches OpView::Graph { plot: p, .. } && plot::stands(
        p,
        minute_axes(m, area, dt, ymax).column(m, plot::cum(m, dt, i as nat)),
        tick,
        Tone::Red,
    )
}

/// The lane with a pool's name on its axis shows that pool's history, on a scale
/// from nothing to a little above full.
pub proof fn law_pool_lanes_show_their_own_pools(
    m: Model,
    w: Printer,
    g: GraphsView,
    p: PoolView,
    i: int,
    lane: Rect,
)
    requires
        plot::settles(m),
        lane.fits(),
        lane.height >= 1,
        has_room(m, above_axis(lane), g.dt, num(0x3ff0_cccc_cccc_cccd)),
    ensures
        p.name == "KV"@ ==> shows_pool(
            m,
            lane_ops(m, w, g, p, i, lane),
            lane,
            p.name,
            g.pool_kv,
            g.dt,
        ),
        p.name == "mamba"@ ==> shows_pool(
            m,
            lane_ops(m, w, g, p, i, lane),
            lane,
            p.name,
            g.pool_mamba,
            g.dt,
        ),
        p.name == "SWA"@ ==> shows_pool(
            m,
            lane_ops(m, w, g, p, i, lane),
            lane,
            p.name,
            g.pool_swa,
            g.dt,
        ),
        p.name == "host"@ ==> shows_pool(
            m,
            lane_ops(m, w, g, p, i, lane),
            lane,
            p.name,
            g.pool_host,
            g.dt,
        ),
{
    reveal_strlit("KV");
    reveal_strlit("mamba");
    reveal_strlit("SWA");
    reveal_strlit("host");
    assert("KV"@.len() == 2 && "mamba"@.len() == 5 && "SWA"@.len() == 3 && "host"@.len() == 4);
    if let Some(series) = pool_series(g, p.name) {
        lemma_graph_plots(
            m,
            w,
            above_axis(lane),
            g,
            series,
            num(ONE_05),
            pool_tone(i),
            None,
            seq![],
        );
        let ops = lane_ops(m, w, g, p, i, lane);
        let graph = graph_ops(
            m,
            w,
            above_axis(lane),
            curve(m, g, series, num(ONE_05), pool_tone(i), None, seq![]),
        );
        assert(ops == graph.push(ops[1]));
        assert(plots(
            m,
            ops[0],
            above_axis(lane),
            series,
            g.dt,
            num(0x3ff0_cccc_cccc_cccd),
            pool_tone(i),
        ));
        assert(shows_pool(m, ops, lane, p.name, series, g.dt));
    }
}

/// A lane with this name on its axis row shows these shares above it.
pub open spec fn shows_pool(
    m: Model,
    ops: Seq<OpView>,
    lane: Rect,
    name: Seq<char>,
    vals: Seq<Num>,
    dt: Seq<Num>,
) -> bool {
    &&& ops.len() == 2
    &&& exists|tone: Tone| #[trigger]
        plots(m, ops[0], above_axis(lane), vals, dt, num(0x3ff0_cccc_cccc_cccd), tone)
    &&& ops[1] matches OpView::Text { area, lines, .. } && area.y == lane.y + lane.height - 1
        && lines.len() == 1 && lines[0].len() == 2 && lines[0][0].text == " "@ + name + " "@
}

/// The speed graph shows the speed of a stream in every interval, nothing where
/// there is none, on a scale that no speed is above.
pub proof fn law_speed_graph_shows_the_streams(
    m: Model,
    w: Printer,
    g: GraphsView,
    peaks: Peaks,
    area: Rect,
)
    requires
        plot::settles(m),
    ensures
        exists|scale: Num| #[trigger]
            shows_speed(m, speed_ops(m, w, g, peaks, area), area, g, peaks.decode_single, scale),
{
    let scale = speed_scale(g, peaks);
    lemma_peak_spans(known(g.per_stream), peaks.decode_single);
    assert forall|i: int| 0 <= i < g.per_stream.len() implies (
    #[trigger] g.per_stream[i] matches Some(v) ==> v.nan() || v.at_most(scale)) by {
        if let Some(v) = g.per_stream[i] {
            lemma_known_holds(g.per_stream, i);
            let k = known(g.per_stream);
            let j = choose|j: int| 0 <= j < k.len() && k[j] == v;
            assert(k[j].nan() || k[j].at_most(scale));
        }
    }
    if has_room(m, area.framed(), g.dt, plot::headroom(m, scale)) {
        lemma_graph_plots(
            m,
            w,
            area.framed(),
            g,
            filled(g.per_stream),
            plot::headroom(m, scale),
            Tone::Warn,
            None,
            plot::gridlines(m, scale),
        );
    }
    assert(filled(g.per_stream) =~= Seq::new(
        g.per_stream.len(),
        |i: int|
            match g.per_stream[i] {
                Some(v) => v,
                None => num(ZERO),
            },
    ));
    assert(shows_speed(m, speed_ops(m, w, g, peaks, area), area, g, peaks.decode_single, scale));
}

proof fn lemma_known_holds(s: Seq<Option<Num>>, i: int)
    requires
        0 <= i < s.len(),
        s[i] is Some,
    ensures
        known(s).contains(s[i]->0),
    decreases s.len(),
{
    let t = s.drop_last();
    if i < t.len() {
        lemma_known_holds(t, i);
        assert(t[i] == s[i]);
        let k = choose|k: int| 0 <= k < known(t).len() && known(t)[k] == s[i]->0;
        assert(known(s)[k] == s[i]->0);
    } else {
        assert(known(s)[known(t).len() as int] == s[i]->0);
    }
}

/// A panel shows the speed of a stream over the last minute.
pub open spec fn shows_speed(
    m: Model,
    ops: Seq<OpView>,
    area: Rect,
    g: GraphsView,
    peak: Option<Num>,
    scale: Num,
) -> bool {
    &&& forall|i: int|
        0 <= i < g.per_stream.len() ==> (#[trigger] g.per_stream[i] matches Some(v) ==> v.nan()
            || v.at_most(scale))
    &&& peak matches Some(p) ==> p.nan() || p.at_most(scale)
    &&& has_room(m, area.framed(), g.dt, plot::headroom(m, scale)) ==> ops.len() == 2 && plots(
        m,
        ops[1],
        area.framed(),
        Seq::new(
            g.per_stream.len(),
            |i: int|
                match g.per_stream[i] {
                    Some(v) => v,
                    None => num(ZERO),
                },
        ),
        g.dt,
        plot::headroom(m, scale),
        Tone::Warn,
    )
}

/// The title of the pools panel names every pool, with what is used of it, in
/// the tone of its lane.
pub proof fn law_pools_title_names_every_pool(m: Model, w: Printer, pools: Seq<PoolView>, i: int)
    requires
        0 <= i < pools.len(),
    ensures
        pool_spans(m, w, pools).len() == 2 * pools.len() + 1,
        pool_spans(m, w, pools)[2 * i + 2].text == pools[i].name + " "@ + show::pool_text(
            m,
            w,
            pools[i],
        ),
        pool_spans(m, w, pools)[2 * i + 2].style.tone == pool_tone(i),
        pools_title(m, w, pools).len() == 2 * pools.len() + 2,
        pools_title(m, w, pools)[2 * i + 2] == pool_spans(m, w, pools)[2 * i + 2],
    decreases pools.len(),
{
    lemma_pool_spans_len(m, w, pools);
    lemma_pool_spans_len(m, w, pools.drop_last());
    if i < pools.len() - 1 {
        law_pools_title_names_every_pool(m, w, pools.drop_last(), i);
        assert(pools.drop_last()[i] == pools[i]);
    }
}

proof fn lemma_pool_spans_len(m: Model, w: Printer, pools: Seq<PoolView>)
    ensures
        pool_spans(m, w, pools).len() == 2 * pools.len() + 1,
    decreases pools.len(),
{
    if pools.len() > 0 {
        lemma_pool_spans_len(m, w, pools.drop_last());
    }
}

/// The operations of a lane, in one piece, between those before and those
/// behind it.
pub open spec fn lane_between(
    all: Seq<OpView>,
    a: Seq<OpView>,
    lane: Seq<OpView>,
    b: Seq<OpView>,
) -> bool {
    all == a + lane + b
}

/// Every pool is drawn in its own lane, as far as there are lanes.
pub proof fn law_pools_have_their_own_lanes(
    m: Model,
    w: Printer,
    d: DerivedView,
    area: Rect,
    lanes: Seq<Rect>,
    i: int,
)
    requires
        0 <= i < d.pools.len(),
        i < lanes.len(),
    ensures
        exists|a: Seq<OpView>, b: Seq<OpView>| #[trigger]
            lane_between(
                pool_ops(m, w, d, area, lanes),
                a,
                lane_ops(m, w, d.graphs, d.pools[i], i, lanes[i]),
                b,
            ),
{
    let n = if d.pools.len() < lanes.len() {
        d.pools.len()
    } else {
        lanes.len()
    };
    let all = pool_ops(m, w, d, area, lanes);
    let lane = lane_ops(m, w, d.graphs, d.pools[i], i, lanes[i]);
    lemma_lane_is_drawn(m, w, d.graphs, d.pools, lanes, n, i);
    let mid = lanes_ops(m, w, d.graphs, d.pools, lanes, n);
    let (a, b) = choose|a: Seq<OpView>, b: Seq<OpView>| #[trigger] lane_between(mid, a, lane, b);
    let head = all.take(1);
    assert(all =~= head + mid);
    assert(all =~= (head + a) + lane + b);
    assert(lane_between(all, head + a, lane, b));
}

proof fn lemma_lane_is_drawn(
    m: Model,
    w: Printer,
    g: GraphsView,
    pools: Seq<PoolView>,
    lanes: Seq<Rect>,
    n: nat,
    i: int,
)
    requires
        0 <= i < n,
    ensures
        exists|a: Seq<OpView>, b: Seq<OpView>| #[trigger]
            lane_between(
                lanes_ops(m, w, g, pools, lanes, n),
                a,
                lane_ops(m, w, g, pools[i], i, lanes[i]),
                b,
            ),
    decreases n,
{
    let all = lanes_ops(m, w, g, pools, lanes, n);
    let lane = lane_ops(m, w, g, pools[i], i, lanes[i]);
    let front = lanes_ops(m, w, g, pools, lanes, (n - 1) as nat);
    if i == n - 1 {
        assert(all =~= front + lane + Seq::<OpView>::empty());
        assert(lane_between(all, front, lane, Seq::empty()));
    } else {
        lemma_lane_is_drawn(m, w, g, pools, lanes, (n - 1) as nat, i);
        let (a, b) = choose|a: Seq<OpView>, b: Seq<OpView>| #[trigger]
            lane_between(front, a, lane, b);
        let last = lane_ops(m, w, g, pools[n - 1], n - 1, lanes[n - 1]);
        assert(all =~= a + lane + (b + last));
        assert(lane_between(all, a, lane, b + last));
    }
}

/// There is a lane for every pool where each can have two rows, never more than
/// have two rows, and always one.
pub proof fn law_lanes_have_two_rows(pools: nat, height: u16)
    ensures
        lane_count(pools, height) >= 1,
        pools >= 1 && 2 * pools <= height ==> lane_count(pools, height) == pools,
        height >= 2 ==> 2 * lane_count(pools, height) <= height,
        pools >= 1 && height >= 2 && 2 * pools > height ==> 2 * (lane_count(pools, height) + 1)
            > height,
{
}

/// Neighboring pools have lanes of different tones; the fifth pool has the tone
/// of the first one again.
pub proof fn law_neighboring_lanes_differ(i: int, j: int)
    requires
        0 <= i < j < i + 4,
    ensures
        pool_tone(i) != pool_tone(j),
        pool_tone(i + 4) == pool_tone(i),
        i % 4 == 0 ==> pool_tone(i) == Tone::First && pool_tone(i + 1) == Tone::Warn && pool_tone(
            i + 2,
        ) == Tone::Accent && pool_tone(i + 3) == Tone::Second,
{
}

/// The title of the speed panel tells the newest speed of a stream and the
/// fastest so far, and says so where no request runs.
pub proof fn law_speed_title_says_now_and_peak(w: Printer, g: GraphsView, peaks: Peaks)
    requires
        g.per_stream.len() > 0,
    ensures
        show::says(
            speed_title(w, g, peaks),
            "now "@,
            match g.per_stream[g.per_stream.len() - 1] {
                Some(v) => w(v, 0) + " tok/s"@,
                None => "idle"@,
            },
        ),
        show::says(
            speed_title(w, g, peaks),
            "peak "@,
            show::whole_text(w, peaks.decode_single),
        ),
{
    let t = speed_title(w, g, peaks);
    let now = match g.per_stream[g.per_stream.len() - 1] {
        Some(v) => w(v, 0) + " tok/s"@,
        None => "idle"@,
    };
    let top = show::whole_text(w, peaks.decode_single);
    reveal_strlit("Speed per stream \u{2014} now ");
    reveal_strlit("Speed per stream \u{2014} ");
    reveal_strlit("now ");
    reveal_strlit(" \u{b7} peak ");
    reveal_strlit(" \u{b7} ");
    reveal_strlit("peak ");
    let (a, b) = ("Speed per stream \u{2014} "@, " \u{b7} "@);
    assert("Speed per stream \u{2014} now "@ =~= a + "now "@);
    assert(" \u{b7} peak "@ =~= b + "peak "@);
    let tail = " \u{b7} peak "@ + top;
    assert(t =~= a + "now "@ + now + tail);
    assert(show::made_of(t, a, "now "@, now, tail));
    let front = "Speed per stream \u{2014} now "@ + now + b;
    assert(t =~= front + "peak "@ + top + Seq::<char>::empty());
    assert(show::made_of(t, front, "peak "@, top, Seq::empty()));
}

} // verus!
