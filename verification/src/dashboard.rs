//! The whole screen: how it is divided, and what is drawn on it.
use crate::charts;
use crate::charts::{count_lanes, draw_pools, draw_rate_graph, draw_speed, RateGraph};
use crate::derive::{Derived, DerivedView, Peaks};
use crate::detail;
use crate::detail::{detail_height, draw_compact_detail, draw_detail};
use crate::graphs;
use crate::history::SECOND;
use crate::latency;
use crate::latency::draw_latency;
use crate::num;
use crate::num::{num, Calc, Model, Num, ONE, THREE};
use crate::overlays;
use crate::overlays::{draw_explain, draw_help};
use crate::panels;
use crate::panels::{draw_hero, write_header, Op, OpView};
use crate::scrape::{Shared, SharedView};
use crate::screen;
use crate::screen::{bold, line1, split, Axis, LineView, Rect, Size, Span, Tone};
use crate::show;
use crate::show::Printer;
use crate::text::{decimal, join2};
use crate::text;
use crate::ui;
use crate::ui::{Overlay, Ui, FULL_MIN_COLS, FULL_MIN_ROWS};
use vstd::prelude::*;

verus! {

// ---- layout -----------------------------------------------------------------

/// Whether the compact layout is drawn in an area.
pub open spec fn compact_in(ui: Ui, area: Rect) -> bool {
    match ui.compact {
        Some(c) => c,
        None => ui::too_small(area.width, area.height),
    }
}

pub fn is_compact(ui: &Ui, area: Rect) -> (r: bool)
    ensures
        r == compact_in(*ui, area),
{
    match ui.compact {
        Some(c) => c,
        None => area.height < FULL_MIN_ROWS || area.width < FULL_MIN_COLS,
    }
}

/// The rows that the screen is stacked from: header, hero strip, graphs,
/// latency, detail. The graphs are the only row that grows: all spare rows go
/// to them.
pub open spec fn stack(compact: bool, graphs_on: bool, detail: u16) -> Seq<Size> {
    let head = seq![
        Size::Length(1),
        Size::Length(
            if compact {
                3
            } else {
                5
            },
        ),
    ];
    let graphs = if graphs_on {
        seq![
            Size::Min(
                if compact {
                    3
                } else {
                    7
                },
            ),
        ]
    } else {
        seq![]
    };
    head + graphs + seq![
        Size::Length(
            if compact {
                5
            } else {
                8
            },
        ),
        Size::Length(
            if compact {
                3
            } else {
                detail
            },
        ),
    ]
}

fn find_stack(compact: bool, graphs_on: bool, detail: u16) -> (r: Vec<Size>)
    ensures
        r@ == stack(compact, graphs_on, detail),
{
    let mut out = vec![
        Size::Length(1),
        Size::Length(
            if compact {
                3
            } else {
                5
            },
        ),
    ];
    if graphs_on {
        out.push(
            Size::Min(
                if compact {
                    3
                } else {
                    7
                },
            ),
        );
    }
    out.push(
        Size::Length(
            if compact {
                5
            } else {
                8
            },
        ),
    );
    out.push(
        Size::Length(
            if compact {
                3
            } else {
                detail
            },
        ),
    );
    proof {
        assert(out@ =~= stack(compact, graphs_on, detail));
    }
    out
}

/// Where everything goes.
#[derive(Debug)]
pub struct Plan {
    /// The rows of the screen.
    pub rows: Vec<Rect>,
    /// The cells of the hero strip.
    pub hero: Vec<Rect>,
    /// The graph panels of the full layout.
    pub graphs: Vec<Rect>,
    /// The pools panel and the speed panel.
    pub right: Vec<Rect>,
    /// The pools' lanes.
    pub lanes: Vec<Rect>,
    /// The detail panels of the full layout.
    pub detail: Vec<Rect>,
}

#[verifier::ext_equal]
pub struct PlanView {
    pub rows: Seq<Rect>,
    pub hero: Seq<Rect>,
    pub graphs: Seq<Rect>,
    pub right: Seq<Rect>,
    pub lanes: Seq<Rect>,
    pub detail: Seq<Rect>,
}

impl View for Plan {
    type V = PlanView;

    open spec fn view(&self) -> PlanView {
        PlanView {
            rows: self.rows@,
            hero: self.hero@,
            graphs: self.graphs@,
            right: self.right@,
            lanes: self.lanes@,
            detail: self.detail@,
        }
    }
}

/// The row of the latency panel.
pub open spec fn latency_row(graphs_on: bool) -> int {
    if graphs_on {
        3
    } else {
        2
    }
}

/// Whether the full layout's graphs are drawn. `pools` is how many pools there
/// are, where there are figures.
pub open spec fn graphs_drawn(compact: bool, graphs_on: bool, pools: Option<nat>) -> bool {
    !compact && graphs_on && pools is Some
}

/// What the hero strip's cells ask for. The third gets double width so that
/// decode and prefill both fit in full.
pub open spec fn hero_sizes() -> Seq<Size> {
    seq![
        Size::Ratio(1, 7),
        Size::Ratio(1, 7),
        Size::Ratio(2, 7),
        Size::Ratio(1, 7),
        Size::Ratio(1, 7),
        Size::Ratio(1, 7),
    ]
}

/// What the detail panels ask for.
pub open spec fn detail_sizes() -> Seq<Size> {
    seq![Size::Percent(24), Size::Percent(25), Size::Percent(28), Size::Percent(23)]
}

/// What the graph panels ask for.
pub open spec fn graph_sizes() -> Seq<Size> {
    seq![Size::Percent(29), Size::Percent(29), Size::Percent(42)]
}

/// What the pools panel and the speed panel ask for.
pub open spec fn right_sizes() -> Seq<Size> {
    seq![Size::Percent(52), Size::Percent(48)]
}

/// Equal shares.
pub open spec fn even_sizes(n: nat) -> Seq<Size> {
    Seq::new(n, |i: int| Size::Ratio(1, n as u32))
}

impl PlanView {
    /// The plan divides the area as the layout asks. `detail` is the height of
    /// the detail row.
    pub open spec fn divides(
        self,
        area: Rect,
        compact: bool,
        graphs_on: bool,
        detail: u16,
        pools: Option<nat>,
    ) -> bool {
        &&& screen::laid_out(
            self.rows,
            area,
            Axis::Down,
            0,
            stack(compact, graphs_on, detail),
        )
        &&& screen::laid_out(self.hero, self.rows[1].framed(), Axis::Across, 0, hero_sizes())
        &&& !compact ==> screen::laid_out(
            self.detail,
            self.rows[latency_row(graphs_on) + 1],
            Axis::Across,
            0,
            detail_sizes(),
        )
        &&& graphs_drawn(compact, graphs_on, pools) ==> {
            &&& screen::laid_out(self.graphs, self.rows[2], Axis::Across, 0, graph_sizes())
            &&& screen::laid_out(self.right, self.graphs[2], Axis::Down, 0, right_sizes())
            &&& screen::laid_out(
                self.lanes,
                self.right[0].framed(),
                Axis::Down,
                1,
                even_sizes(charts::lane_count(pools->0, self.right[0].framed().height)),
            )
        }
    }
}

fn even(n: usize) -> (r: Vec<Size>)
    requires
        n <= u16::MAX,
    ensures
        r@ == even_sizes(n as nat),
{
    let mut out: Vec<Size> = Vec::new();
    let mut i: usize = 0;
    while i < n
        invariant
            i <= n <= u16::MAX,
            out@ =~= Seq::new(i as nat, |j: int| Size::Ratio(1, n as u32)),
        decreases n - i,
    {
        out.push(Size::Ratio(1, n as u32));
        i = i + 1;
    }
    proof {
        assert(out@ =~= even_sizes(n as nat));
    }
    out
}

/// Divides the screen. `detail` is the height of the detail row, `pools` how
/// many pools there are, where there are figures.
pub fn plan(area: Rect, compact: bool, graphs_on: bool, detail: u16, pools: Option<usize>) -> (r:
    Plan)
    requires
        area.fits(),
    ensures
        r@.divides(
            area,
            compact,
            graphs_on,
            detail,
            match pools {
                Some(n) => Some(n as nat),
                None => None,
            },
        ),
{
    let rows = split(area, Axis::Down, 0, &find_stack(compact, graphs_on, detail));
    proof {
        assert(screen::part_of(rows@[0], area, Axis::Down));
        assert(screen::part_of(rows@[1], area, Axis::Down));
        assert(screen::part_of(rows@[2], area, Axis::Down));
    }
    let cells = vec![
        Size::Ratio(1, 7),
        Size::Ratio(1, 7),
        Size::Ratio(2, 7),
        Size::Ratio(1, 7),
        Size::Ratio(1, 7),
        Size::Ratio(1, 7),
    ];
    proof {
        assert(cells@ =~= hero_sizes());
    }
    let hero = split(rows[1].inner(), Axis::Across, 0, &cells);
    let mut p = Plan {
        rows,
        hero,
        graphs: Vec::new(),
        right: Vec::new(),
        lanes: Vec::new(),
        detail: Vec::new(),
    };
    if compact {
        return p;
    }
    let below: usize = if graphs_on {
        4
    } else {
        3
    };
    proof {
        assert(screen::part_of(p.rows@[below as int], area, Axis::Down));
    }
    let panels = vec![Size::Percent(24), Size::Percent(25), Size::Percent(28), Size::Percent(23)];
    proof {
        assert(panels@ =~= detail_sizes());
    }
    p.detail = split(p.rows[below], Axis::Across, 0, &panels);
    if let Some(n) = pools {
        if graphs_on {
            let charts = vec![Size::Percent(29), Size::Percent(29), Size::Percent(42)];
            let halves = vec![Size::Percent(52), Size::Percent(48)];
            proof {
                assert(charts@ =~= graph_sizes());
                assert(halves@ =~= right_sizes());
            }
            p.graphs = split(p.rows[2], Axis::Across, 0, &charts);
            proof {
                assert(screen::part_of(p.graphs@[2], p.rows@[2], Axis::Across));
            }
            p.right = split(p.graphs[2], Axis::Down, 0, &halves);
            proof {
                assert(screen::part_of(p.right@[0], p.graphs@[2], Axis::Down));
            }
            let inner = p.right[0].inner();
            p.lanes = split(inner, Axis::Down, 1, &even(count_lanes(n, inner.height)));
        }
    }
    p
}

// ---- drawing ----------------------------------------------------------------

/// What there is to draw. Times are in nanoseconds.
pub struct Scene<'a> {
    pub ui: Ui,
    /// The figures, once something was scraped.
    pub figures: Option<&'a Derived>,
    pub peaks: Peaks,
    /// Since the first scrape.
    pub uptime: Option<u64>,
    /// Since the last good scrape.
    pub age: Option<u64>,
    /// Since scraping was paused.
    pub paused: Option<u64>,
    /// Why the last scrape failed.
    pub error: Option<&'a str>,
}

pub struct SceneView {
    pub ui: Ui,
    pub figures: Option<DerivedView>,
    pub peaks: Peaks,
    pub uptime: Option<u64>,
    pub age: Option<u64>,
    pub paused: Option<u64>,
    pub error: Option<Seq<char>>,
}

impl<'a> View for Scene<'a> {
    type V = SceneView;

    open spec fn view(&self) -> SceneView {
        SceneView {
            ui: self.ui,
            figures: panels::seen(self.figures),
            peaks: self.peaks,
            uptime: self.uptime,
            age: self.age,
            paused: self.paused,
            error: match self.error {
                Some(e) => Some(e@),
                None => None,
            },
        }
    }
}

/// Whether the data is older than three polls and a second.
pub open spec fn stale(m: Model, age: Option<u64>, interval: Num) -> bool {
    match age {
        None => true,
        Some(a) => a > m(
            Calc::Nanos(m(Calc::Sum(m(Calc::Product(interval, num(THREE))), num(ONE)))),
        ).whole(),
    }
}

pub fn age_is_stale<C: Fn(Calc) -> Num + Copy>(age: Option<u64>, interval: Num, calc: C) -> (r:
    bool)
    requires
        num::total(calc),
    ensures
        forall|m: Model| #[trigger] num::models(calc, m) ==> r == stale(m, age, interval),
        age is None ==> r,
{
    match age {
        None => true,
        Some(a) => {
            let limit = calc(
                Calc::Nanos(calc(Calc::Sum(calc(Calc::Product(interval, num(THREE))), num(ONE)))),
            ).to_count();
            a > limit
        },
    }
}

/// The banner over the last row, if there is one: the pause, or else a lost
/// connection once the data is gone or stale.
pub open spec fn banner_of(m: Model, s: SceneView) -> Option<(Seq<char>, Tone)> {
    match s.paused {
        Some(t) => Some(
            (
                "\u{23f8} paused "@ + text::digits((t / SECOND) as nat)
                    + "s \u{2014} press space to resume"@,
                Tone::Warn,
            ),
        ),
        None => match s.error {
            Some(e) => if s.figures is None || stale(m, s.age, s.ui.interval) {
                Some(
                    (
                        "\u{26a0} connection lost \u{2014} retrying\u{2026} last data "@
                            + text::digits(
                            match s.age {
                                Some(a) => (a / SECOND) as nat,
                                None => 0,
                            },
                        ) + "s ago \u{2014} "@ + e,
                        Tone::Bad,
                    ),
                )
            } else {
                None
            },
            None => None,
        },
    }
}

/// The last row of an area.
pub open spec fn last_row(area: Rect) -> Rect {
    Rect {
        x: area.x,
        y: if area.height > 0 {
            (area.y + area.height - 1) as u16
        } else {
            area.y
        },
        width: area.width,
        height: 1,
    }
}

/// The banner's operation.
pub open spec fn banner_ops(m: Model, area: Rect, s: SceneView) -> Seq<OpView> {
    match banner_of(m, s) {
        Some((text, tone)) => seq![
            panels::written(last_row(area), seq![seq![screen::styled(text, bold(tone))]]),
        ],
        None => seq![],
    }
}

fn find_banner<C: Fn(Calc) -> Num + Copy>(s: &Scene, calc: C) -> (r: Option<(String, Tone)>)
    requires
        num::total(calc),
    ensures
        forall|m: Model| #[trigger]
            num::models(calc, m) ==> (match r {
                Some((text, tone)) => Some((text@, tone)),
                None => None,
            }) == banner_of(m, s@),
{
    if let Some(t) = s.paused {
        let secs = decimal(t / SECOND);
        let mut text = join2("\u{23f8} paused ", secs.as_str());
        text.append("s \u{2014} press space to resume");
        return Some((text, Tone::Warn));
    }
    if let Some(e) = s.error {
        if s.figures.is_none() || age_is_stale(s.age, s.ui.interval, calc) {
            let secs = decimal(
                match s.age {
                    Some(a) => a / SECOND,
                    None => 0,
                },
            );
            let mut text = join2(
                "\u{26a0} connection lost \u{2014} retrying\u{2026} last data ",
                secs.as_str(),
            );
            text.append("s ago \u{2014} ");
            text.append(e);
            return Some((text, Tone::Bad));
        }
    }
    None
}

pub fn banner<C: Fn(Calc) -> Num + Copy>(area: Rect, s: &Scene, calc: C) -> (r: Vec<Op>)
    requires
        num::total(calc),
        area.fits(),
    ensures
        forall|m: Model| #[trigger]
            num::models(calc, m) ==> panels::ops_view(r@) == banner_ops(m, area, s@),
{
    match find_banner(s, calc) {
        Some((text, tone)) => {
            let row = Rect {
                x: area.x,
                y: if area.height > 0 {
                    area.y + (area.height - 1)
                } else {
                    area.y
                },
                width: area.width,
                height: 1,
            };
            let line = line1(Span { text, style: bold(tone) });
            let ghost shown = line@;
            let lines = vec![line];
            proof {
                assert(screen::lines_view(lines@) =~= seq![shown]);
            }
            let op = Op::Text { area: row, lines, scroll: 0 };
            let ghost added = op@;
            let r = vec![op];
            proof {
                assert(panels::ops_view(r@) =~= seq![added]);
            }
            r
        },
        None => {
            let r: Vec<Op> = Vec::new();
            proof {
                assert(panels::ops_view(r@) =~= seq![]);
            }
            r
        },
    }
}

/// The graphs: all of them in the full layout, only the decode rate in the
/// compact one. Without figures, or switched off, there is none.
pub open spec fn graph_part(
    m: Model,
    w: Printer,
    compact: bool,
    s: SceneView,
    p: PlanView,
) -> Seq<OpView> {
    match s.figures {
        Some(d) => if !s.ui.graphs_on {
            seq![]
        } else if compact {
            charts::rate_graph_ops(m, w, d, RateGraph::Decode, s.peaks, p.rows[2])
        } else {
            charts::rate_graph_ops(m, w, d, RateGraph::Prefill, s.peaks, p.graphs[0])
                + charts::rate_graph_ops(m, w, d, RateGraph::Decode, s.peaks, p.graphs[1])
                + charts::pool_ops(m, w, d, p.right[0], p.lanes) + charts::speed_ops(
                m,
                w,
                d.graphs,
                s.peaks,
                p.right[1],
            )
        },
        None => seq![],
    }
}

/// The detail row.
pub open spec fn detail_part(
    m: Model,
    w: Printer,
    compact: bool,
    s: SceneView,
    p: PlanView,
) -> Seq<OpView> {
    let focus = s.ui.window_focus as int;
    if compact {
        detail::compact_ops(m, w, s.figures, focus, p.rows[latency_row(s.ui.graphs_on) + 1])
    } else {
        detail::full_ops(m, w, s.figures, focus, s.peaks, p.detail)
    }
}

/// What covers the panels.
pub open spec fn overlay_part(area: Rect, ui: Ui) -> Seq<OpView> {
    match ui.overlay {
        Overlay::Closed => seq![],
        Overlay::Help => overlays::help_ops(area),
        Overlay::Explain => overlays::explain_ops(area, ui.scroll),
    }
}

/// The whole screen, in the order in which it is drawn.
pub open spec fn picture(
    m: Model,
    w: Printer,
    area: Rect,
    compact: bool,
    s: SceneView,
    p: PlanView,
) -> Seq<OpView> {
    let focus = s.ui.window_focus as int;
    seq![
        OpView::Fill { area },
        panels::written(
            p.rows[0],
            seq![panels::header_line(m, w, s.ui, s.figures, s.uptime, s.age)],
        ),
    ] + panels::hero_ops(m, w, s.figures, focus, compact, p.rows[1], p.hero) + graph_part(
        m,
        w,
        compact,
        s,
        p,
    ) + latency::latency_ops(
        m,
        w,
        s.figures,
        focus,
        compact,
        p.rows[latency_row(s.ui.graphs_on)],
    ) + detail_part(m, w, compact, s, p) + overlay_part(area, s.ui) + banner_ops(m, area, s)
}

impl PlanView {
    /// The plan has a place for everything that is drawn.
    pub open spec fn usable(self, compact: bool, graphs_on: bool, figures: bool) -> bool {
        &&& self.rows.len() == latency_row(graphs_on) + 2
        &&& !compact ==> self.detail.len() == 4
        &&& !compact && graphs_on && figures ==> {
            &&& self.graphs.len() == 3
            &&& self.right.len() == 2
            &&& forall|i: int| 0 <= i < self.lanes.len() ==> (#[trigger] self.lanes[i]).fits()
        }
    }
}

fn add_ops(out: &mut Vec<Op>, more: Vec<Op>)
    ensures
        panels::ops_view(final(out)@) == panels::ops_view(old(out)@) + panels::ops_view(more@),
{
    let ghost before = panels::ops_view(out@);
    let mut rest = more;
    out.append(&mut rest);
    proof {
        assert(panels::ops_view(out@) =~= before + panels::ops_view(more@));
    }
}

fn draw_graph_part<C: Fn(Calc) -> Num + Copy, S: Fn(Num, u8) -> String + Copy>(
    compact: bool,
    s: &Scene,
    p: &Plan,
    calc: C,
    show: S,
) -> (r: Vec<Op>)
    requires
        show::ready(calc, show),
        p@.usable(compact, s.ui.graphs_on, s.figures is Some),
    ensures
        forall|m: Model, w: Printer| #[trigger]
            show::writes(calc, show, m, w) ==> panels::ops_view(r@) == graph_part(
                m,
                w,
                compact,
                s@,
                p@,
            ),
{
    if let Some(d) = s.figures {
        if s.ui.graphs_on {
            if compact {
                return draw_rate_graph(d, RateGraph::Decode, &s.peaks, p.rows[2], calc, show);
            }
            let mut out = draw_rate_graph(
                d,
                RateGraph::Prefill,
                &s.peaks,
                p.graphs[0],
                calc,
                show,
            );
            add_ops(
                &mut out,
                draw_rate_graph(d, RateGraph::Decode, &s.peaks, p.graphs[1], calc, show),
            );
            proof {
                assert forall|i: int| 0 <= i < p.lanes@.len() implies (
                #[trigger] p.lanes@[i]).fits() by {
                    assert(p@.lanes[i].fits());
                }
            }
            add_ops(&mut out, draw_pools(d, p.right[0], &p.lanes, calc, show));
            add_ops(&mut out, draw_speed(&d.graphs, &s.peaks, p.right[1], calc, show));
            return out;
        }
    }
    let r: Vec<Op> = Vec::new();
    proof {
        assert(panels::ops_view(r@) =~= seq![]);
    }
    r
}

fn draw_detail_part<C: Fn(Calc) -> Num + Copy, S: Fn(Num, u8) -> String + Copy>(
    compact: bool,
    s: &Scene,
    p: &Plan,
    calc: C,
    show: S,
) -> (r: Vec<Op>)
    requires
        show::ready(calc, show),
        s.ui.wf(),
        p@.usable(compact, s.ui.graphs_on, s.figures is Some),
    ensures
        forall|m: Model, w: Printer| #[trigger]
            show::writes(calc, show, m, w) ==> panels::ops_view(r@) == detail_part(
                m,
                w,
                compact,
                s@,
                p@,
            ),
{
    let focus = s.ui.window_focus;
    if compact {
        let row: usize = if s.ui.graphs_on {
            4
        } else {
            3
        };
        draw_compact_detail(s.figures, focus, p.rows[row], calc, show)
    } else {
        draw_detail(s.figures, focus, &s.peaks, &p.detail, calc, show)
    }
}

fn draw_overlay(area: Rect, ui: &Ui) -> (r: Vec<Op>)
    requires
        area.fits(),
    ensures
        panels::ops_view(r@) == overlay_part(area, *ui),
{
    match ui.overlay {
        Overlay::Closed => {
            let r: Vec<Op> = Vec::new();
            proof {
                assert(panels::ops_view(r@) =~= seq![]);
            }
            r
        },
        Overlay::Help => draw_help(area),
        Overlay::Explain => draw_explain(area, ui.scroll),
    }
}

/// Draws a scene where a plan says.
pub fn draw_planned<C: Fn(Calc) -> Num + Copy, S: Fn(Num, u8) -> String + Copy>(
    area: Rect,
    compact: bool,
    s: &Scene,
    p: &Plan,
    calc: C,
    show: S,
) -> (r: Vec<Op>)
    requires
        show::ready(calc, show),
        area.fits(),
        s.ui.wf(),
        p@.usable(compact, s.ui.graphs_on, s.figures is Some),
    ensures
        forall|m: Model, w: Printer| #[trigger]
            show::writes(calc, show, m, w) ==> panels::ops_view(r@) == picture(
                m,
                w,
                area,
                compact,
                s@,
                p@,
            ),
{
    let focus = s.ui.window_focus;
    let header = write_header(&s.ui, s.figures, s.uptime, s.age, calc, show);
    let ghost head = header@;
    let lines = vec![header];
    proof {
        assert(screen::lines_view(lines@) =~= seq![head]);
    }
    let top = Op::Text { area: p.rows[0], lines, scroll: 0 };
    let ghost first = top@;
    let mut out = vec![Op::Fill { area }, top];
    proof {
        assert(panels::ops_view(out@) =~= seq![OpView::Fill { area }, first]);
    }
    let row: usize = if s.ui.graphs_on {
        3
    } else {
        2
    };
    add_ops(&mut out, draw_hero(s.figures, focus, compact, p.rows[1], &p.hero, calc, show));
    add_ops(&mut out, draw_graph_part(compact, s, p, calc, show));
    add_ops(&mut out, draw_latency(s.figures, focus, compact, p.rows[row], calc, show));
    add_ops(&mut out, draw_detail_part(compact, s, p, calc, show));
    add_ops(&mut out, draw_overlay(area, &s.ui));
    add_ops(&mut out, banner(area, s, calc));
    out
}

/// The scene that a state amounts to at the time `now`.
pub open spec fn scene_of(m: Model, ui: Ui, s: SharedView, now: u64) -> SceneView {
    SceneView {
        ui,
        figures: crate::derive::derived_of(m, s.history, ui.window_focus),
        peaks: s.peaks,
        uptime: since(s.history.first_seen, now),
        age: since(s.last_ok, now),
        paused: since(ui.paused_since, now),
        error: s.last_error,
    }
}

/// Time since an event.
pub open spec fn since(t: Option<u64>, now: u64) -> Option<u64> {
    match t {
        Some(x) => Some(graphs::elapsed(x, now)),
        None => None,
    }
}

fn find_since(t: Option<u64>, now: u64) -> (r: Option<u64>)
    ensures
        r == since(t, now),
{
    match t {
        Some(x) => Some(
            if x <= now {
                now - x
            } else {
                0
            },
        ),
        None => None,
    }
}

/// How many pools a scene has, once there are figures.
pub open spec fn pool_count(s: SceneView) -> Option<nat> {
    match s.figures {
        Some(d) => Some(d.pools.len()),
        None => None,
    }
}

/// The screen is drawn for a state: some division of it, and the picture for
/// that division.
pub open spec fn drawn(
    m: Model,
    w: Printer,
    ops: Seq<OpView>,
    area: Rect,
    s: SceneView,
    p: PlanView,
) -> bool {
    let compact = compact_in(s.ui, area);
    &&& p.divides(
        area,
        compact,
        s.ui.graphs_on,
        detail::height_of(m, w, s.figures, s.ui.window_focus as int),
        pool_count(s),
    )
    &&& ops == picture(m, w, area, compact, s, p)
}

/// The operations draw a state at the time `now`, for one division of the
/// screen.
pub open spec fn draws<C: Fn(Calc) -> Num, S: Fn(Num, u8) -> String>(
    calc: C,
    show: S,
    ops: Seq<OpView>,
    area: Rect,
    ui: Ui,
    s: SharedView,
    now: u64,
    p: PlanView,
) -> bool {
    forall|m: Model, w: Printer| #[trigger]
        show::writes(calc, show, m, w) ==> drawn(m, w, ops, area, scene_of(m, ui, s, now), p)
}

/// Draws the screen of a state at the time `now`. How the rows share the area is
/// up to the layout solver; everything else is fixed by the state.
pub fn draw<C: Fn(Calc) -> Num + Copy, S: Fn(Num, u8) -> String + Copy>(
    area: Rect,
    ui: &Ui,
    shared: &Shared,
    now: u64,
    calc: C,
    show: S,
) -> (r: Vec<Op>)
    requires
        show::ready(calc, show),
        area.fits(),
        ui.wf(),
        shared.wf(),
    ensures
        exists|p: PlanView| #[trigger]
            draws(calc, show, panels::ops_view(r@), area, *ui, shared@, now, p),
{
    let d = crate::derive::derive(&shared.history, ui.window_focus, calc);
    let figures = match &d {
        Some(x) => Some(x),
        None => None,
    };
    let compact = is_compact(ui, area);
    let height = detail_height(figures, ui.window_focus, calc, show);
    let pools = match figures {
        Some(x) => Some(x.pools.len()),
        None => None,
    };
    let p = plan(area, compact, ui.graphs_on, height, pools);
    let error = match &shared.last_error {
        Some(e) => Some(e.as_str()),
        None => None,
    };
    let s = Scene {
        ui: *ui,
        figures,
        peaks: shared.peaks,
        uptime: find_since(shared.history.first_seen, now),
        age: find_since(shared.last_ok, now),
        paused: find_since(ui.paused_since, now),
        error,
    };
    proof {
        lemma_plan_is_usable(p@, area, compact, ui.graphs_on, height, pool_count(s@));
    }
    let r = draw_planned(area, compact, &s, &p, calc, show);
    proof {
        assert forall|m: Model, w: Printer| #[trigger] show::writes(calc, show, m, w) implies drawn(
            m,
            w,
            panels::ops_view(r@),
            area,
            scene_of(m, *ui, shared@, now),
            p@,
        ) by {
            assert(s@ == scene_of(m, *ui, shared@, now));
        }
        assert(draws(calc, show, panels::ops_view(r@), area, *ui, shared@, now, p@));
    }
    r
}

proof fn lemma_plan_is_usable(
    p: PlanView,
    area: Rect,
    compact: bool,
    graphs_on: bool,
    height: u16,
    pools: Option<nat>,
)
    requires
        area.fits(),
        p.divides(area, compact, graphs_on, height, pools),
    ensures
        p.usable(compact, graphs_on, pools is Some),
{
    assert(screen::part_of(p.rows[2], area, Axis::Down));
    if graphs_drawn(compact, graphs_on, pools) {
        assert(screen::part_of(p.graphs[2], p.rows[2], Axis::Across));
        assert(screen::part_of(p.right[0], p.graphs[2], Axis::Down));
        assert forall|i: int| 0 <= i < p.lanes.len() implies (#[trigger] p.lanes[i]).fits() by {
            assert(screen::part_of(p.lanes[i], p.right[0].framed(), Axis::Down));
        }
    }
}

// ---- what holds of every screen ---------------------------------------------

/// Every operation stays in the area.
pub open spec fn inside(ops: Seq<OpView>, area: Rect) -> bool {
    forall|i: int| 0 <= i < ops.len() ==> (#[trigger] ops[i]).area().within(area)
}

proof fn lemma_inside_add(a: Seq<OpView>, b: Seq<OpView>, area: Rect)
    requires
        inside(a, area),
        inside(b, area),
    ensures
        inside(a + b, area),
{
    assert forall|i: int| 0 <= i < (a + b).len() implies (#[trigger] (a + b)[i]).area().within(
        area,
    ) by {
        if i < a.len() {
            assert((a + b)[i] == a[i]);
        } else {
            assert((a + b)[i] == b[i - a.len()]);
        }
    }
}

proof fn lemma_rate_graph_inside(
    m: Model,
    w: Printer,
    d: DerivedView,
    which: RateGraph,
    peaks: Peaks,
    r: Rect,
    area: Rect,
)
    requires
        r.fits(),
        r.within(area),
    ensures
        inside(charts::rate_graph_ops(m, w, d, which, peaks, r), area),
{
    let ops = charts::rate_graph_ops(m, w, d, which, peaks, r);
    assert(r.framed().within(area));
    assert forall|i: int| 0 <= i < ops.len() implies (#[trigger] ops[i]).area().within(area) by {}
}

proof fn lemma_lane_inside(
    m: Model,
    w: Printer,
    g: graphs::GraphsView,
    pool: crate::derive::PoolView,
    i: int,
    lane: Rect,
    area: Rect,
)
    requires
        lane.fits(),
        lane.within(area),
    ensures
        inside(charts::lane_ops(m, w, g, pool, i, lane), area),
{
    let ops = charts::lane_ops(m, w, g, pool, i, lane);
    assert(charts::above_axis(lane).within(area));
    if lane.height >= 1 {
        assert(charts::axis_row(lane).within(area));
    }
    assert forall|k: int| 0 <= k < ops.len() implies (#[trigger] ops[k]).area().within(area) by {}
}

proof fn lemma_lanes_inside(
    m: Model,
    w: Printer,
    g: graphs::GraphsView,
    pools: Seq<crate::derive::PoolView>,
    lanes: Seq<Rect>,
    n: nat,
    area: Rect,
)
    requires
        n <= lanes.len(),
        forall|i: int|
            0 <= i < lanes.len() ==> (#[trigger] lanes[i]).fits() && lanes[i].within(area),
    ensures
        inside(charts::lanes_ops(m, w, g, pools, lanes, n), area),
    decreases n,
{
    if n > 0 {
        lemma_lanes_inside(m, w, g, pools, lanes, (n - 1) as nat, area);
        assert(lanes[n - 1].fits());
        lemma_lane_inside(m, w, g, pools[n - 1], n - 1, lanes[n - 1], area);
        lemma_inside_add(
            charts::lanes_ops(m, w, g, pools, lanes, (n - 1) as nat),
            charts::lane_ops(m, w, g, pools[n - 1], n - 1, lanes[n - 1]),
            area,
        );
    }
}

proof fn lemma_pools_inside(
    m: Model,
    w: Printer,
    d: DerivedView,
    r: Rect,
    lanes: Seq<Rect>,
    area: Rect,
)
    requires
        r.fits(),
        r.within(area),
        forall|i: int|
            0 <= i < lanes.len() ==> (#[trigger] lanes[i]).fits() && lanes[i].within(area),
    ensures
        inside(charts::pool_ops(m, w, d, r, lanes), area),
{
    let n = if d.pools.len() < lanes.len() {
        d.pools.len()
    } else {
        lanes.len()
    };
    lemma_lanes_inside(m, w, d.graphs, d.pools, lanes, n, area);
    let tail = charts::lanes_ops(m, w, d.graphs, d.pools, lanes, n);
    let ops = charts::pool_ops(m, w, d, r, lanes);
    let head = seq![ops[0]];
    assert(inside(head, area));
    lemma_inside_add(head, tail, area);
    assert(ops =~= head + tail);
}

proof fn lemma_graphs_inside(
    m: Model,
    w: Printer,
    area: Rect,
    compact: bool,
    height: u16,
    s: SceneView,
    p: PlanView,
)
    requires
        area.fits(),
        p.divides(area, compact, s.ui.graphs_on, height, pool_count(s)),
    ensures
        inside(graph_part(m, w, compact, s, p), area),
{
    if let Some(d) = s.figures {
        if s.ui.graphs_on {
            assert(screen::part_of(p.rows[2], area, Axis::Down));
            if compact {
                lemma_rate_graph_inside(m, w, d, RateGraph::Decode, s.peaks, p.rows[2], area);
            } else {
                assert(screen::part_of(p.graphs[0], p.rows[2], Axis::Across));
                assert(screen::part_of(p.graphs[1], p.rows[2], Axis::Across));
                assert(screen::part_of(p.graphs[2], p.rows[2], Axis::Across));
                assert(screen::part_of(p.right[0], p.graphs[2], Axis::Down));
                assert(screen::part_of(p.right[1], p.graphs[2], Axis::Down));
                assert forall|i: int| 0 <= i < p.lanes.len() implies (
                #[trigger] p.lanes[i]).fits() && p.lanes[i].within(area) by {
                    assert(screen::part_of(p.lanes[i], p.right[0].framed(), Axis::Down));
                }
                let a = charts::rate_graph_ops(m, w, d, RateGraph::Prefill, s.peaks, p.graphs[0]);
                let b = charts::rate_graph_ops(m, w, d, RateGraph::Decode, s.peaks, p.graphs[1]);
                let c = charts::pool_ops(m, w, d, p.right[0], p.lanes);
                let e = charts::speed_ops(m, w, d.graphs, s.peaks, p.right[1]);
                lemma_rate_graph_inside(m, w, d, RateGraph::Prefill, s.peaks, p.graphs[0], area);
                lemma_rate_graph_inside(m, w, d, RateGraph::Decode, s.peaks, p.graphs[1], area);
                lemma_pools_inside(m, w, d, p.right[0], p.lanes, area);
                assert(p.right[1].framed().within(area));
                assert(inside(e, area));
                lemma_inside_add(a, b, area);
                lemma_inside_add(a + b, c, area);
                lemma_inside_add(a + b + c, e, area);
            }
        }
    }
}

proof fn lemma_hero_inside(
    m: Model,
    w: Printer,
    d: Option<DerivedView>,
    focus: int,
    compact: bool,
    r: Rect,
    cols: Seq<Rect>,
    area: Rect,
)
    requires
        r.fits(),
        r.within(area),
        screen::divides(cols, r.framed(), Axis::Across, 6),
    ensures
        inside(panels::hero_ops(m, w, d, focus, compact, r, cols), area),
{
    let ops = panels::hero_ops(m, w, d, focus, compact, r, cols);
    assert forall|i: int| 0 <= i < ops.len() implies (#[trigger] ops[i]).area().within(area) by {
        if i > 0 {
            assert(screen::part_of(cols[i - 1], r.framed(), Axis::Across));
        }
    }
}

proof fn lemma_detail_inside(
    m: Model,
    w: Printer,
    area: Rect,
    compact: bool,
    height: u16,
    s: SceneView,
    p: PlanView,
)
    requires
        area.fits(),
        p.divides(area, compact, s.ui.graphs_on, height, pool_count(s)),
    ensures
        inside(detail_part(m, w, compact, s, p), area),
{
    let row = p.rows[latency_row(s.ui.graphs_on) + 1];
    assert(screen::part_of(row, area, Axis::Down));
    let ops = detail_part(m, w, compact, s, p);
    if compact {
        assert(row.framed().within(area));
        assert forall|i: int| 0 <= i < ops.len() implies (#[trigger] ops[i]).area().within(
            area,
        ) by {}
    } else {
        assert forall|i: int| 0 <= i < 4 implies (#[trigger] p.detail[i]).within(area)
            && p.detail[i].framed().within(area) by {
            assert(screen::part_of(p.detail[i], row, Axis::Across));
        }
        assert forall|i: int| 0 <= i < ops.len() implies (#[trigger] ops[i]).area().within(
            area,
        ) by {
            assert(p.detail[i / 2].within(area));
        }
    }
}

proof fn lemma_latency_inside(
    m: Model,
    w: Printer,
    d: Option<DerivedView>,
    focus: int,
    compact: bool,
    row: Rect,
    area: Rect,
)
    requires
        area.fits(),
        row.within(area),
    ensures
        inside(latency::latency_ops(m, w, d, focus, compact, row), area),
{
    let ops = latency::latency_ops(m, w, d, focus, compact, row);
    assert(row.framed().within(area));
    assert forall|i: int| 0 <= i < ops.len() implies (#[trigger] ops[i]).area().within(area) by {
        assert(i == 0 || i == 1);
    }
}

proof fn lemma_overlay_inside(area: Rect, ui: Ui)
    requires
        area.fits(),
    ensures
        inside(overlay_part(area, ui), area),
{
    assert(area.framed().within(area));
    assert(overlays::popup(area).within(area));
    assert(overlays::popup(area).framed().within(area));
}

proof fn lemma_banner_inside(m: Model, area: Rect, s: SceneView)
    requires
        area.fits(),
        area.height > 0,
    ensures
        inside(banner_ops(m, area, s), area),
{
    assert(last_row(area).within(area));
}

/// Nothing is drawn outside of the screen, however small it is.
pub proof fn law_nothing_leaves_the_screen(
    m: Model,
    w: Printer,
    area: Rect,
    compact: bool,
    height: u16,
    s: SceneView,
    p: PlanView,
)
    requires
        area.fits(),
        area.height > 0,
        p.divides(area, compact, s.ui.graphs_on, height, pool_count(s)),
    ensures
        inside(picture(m, w, area, compact, s, p), area),
{
    let focus = s.ui.window_focus as int;
    let row = p.rows[latency_row(s.ui.graphs_on)];
    assert(screen::part_of(p.rows[0], area, Axis::Down));
    assert(screen::part_of(p.rows[1], area, Axis::Down));
    assert(screen::part_of(row, area, Axis::Down));
    let a = seq![
        OpView::Fill { area },
        panels::written(
            p.rows[0],
            seq![panels::header_line(m, w, s.ui, s.figures, s.uptime, s.age)],
        ),
    ];
    let b = panels::hero_ops(m, w, s.figures, focus, compact, p.rows[1], p.hero);
    let c = graph_part(m, w, compact, s, p);
    let d = latency::latency_ops(m, w, s.figures, focus, compact, row);
    let e = detail_part(m, w, compact, s, p);
    let f = overlay_part(area, s.ui);
    let g = banner_ops(m, area, s);
    assert(inside(a, area));
    lemma_hero_inside(m, w, s.figures, focus, compact, p.rows[1], p.hero, area);
    lemma_graphs_inside(m, w, area, compact, height, s, p);
    lemma_latency_inside(m, w, s.figures, focus, compact, row, area);
    lemma_detail_inside(m, w, area, compact, height, s, p);
    lemma_overlay_inside(area, s.ui);
    lemma_banner_inside(m, area, s);
    lemma_inside_add(a, b, area);
    lemma_inside_add(a + b, c, area);
    lemma_inside_add(a + b + c, d, area);
    lemma_inside_add(a + b + c + d, e, area);
    lemma_inside_add(a + b + c + d + e, f, area);
    lemma_inside_add(a + b + c + d + e + f, g, area);
}

/// What [`draw`] draws stays on the screen.
pub proof fn law_drawn_screens_stay_inside(
    m: Model,
    w: Printer,
    ops: Seq<OpView>,
    area: Rect,
    s: SceneView,
    p: PlanView,
)
    requires
        area.fits(),
        area.height > 0,
        drawn(m, w, ops, area, s, p),
    ensures
        inside(ops, area),
{
    let height = detail::height_of(m, w, s.figures, s.ui.window_focus as int);
    law_nothing_leaves_the_screen(m, w, area, compact_in(s.ui, area), height, s, p);
}

/// Before the first scrape no graph is drawn and the hero strip is an empty
/// frame: no number is made up.
pub proof fn law_cold_start_makes_nothing_up(
    m: Model,
    w: Printer,
    area: Rect,
    compact: bool,
    s: SceneView,
    p: PlanView,
)
    requires
        s.figures is None,
    ensures
        graph_part(m, w, compact, s, p) == Seq::<OpView>::empty(),
        panels::hero_ops(
            m,
            w,
            s.figures,
            s.ui.window_focus as int,
            compact,
            p.rows[1],
            p.hero,
        ) == seq![panels::frame(p.rows[1], "Engine status"@, None)],
        latency::lines_of(m, w, s.figures, s.ui.window_focus as int, compact) == Seq::<
            LineView,
        >::empty(),
        forall|i: int|
            0 <= i < picture(m, w, area, compact, s, p).len() ==> !(#[trigger] picture(
                m,
                w,
                area,
                compact,
                s,
                p,
            )[i] is Graph),
{
    let focus = s.ui.window_focus as int;
    let row = p.rows[latency_row(s.ui.graphs_on)];
    let a = seq![
        OpView::Fill { area },
        panels::written(
            p.rows[0],
            seq![panels::header_line(m, w, s.ui, s.figures, s.uptime, s.age)],
        ),
    ];
    let b = panels::hero_ops(m, w, s.figures, focus, compact, p.rows[1], p.hero);
    let c = graph_part(m, w, compact, s, p);
    let d = latency::latency_ops(m, w, s.figures, focus, compact, row);
    let e = detail_part(m, w, compact, s, p);
    let f = overlay_part(area, s.ui);
    let g = banner_ops(m, area, s);
    lemma_no_graph_add(a, b);
    lemma_no_graph_add(a + b, c);
    lemma_no_graph_add(a + b + c, d);
    lemma_no_graph_add(a + b + c + d, e);
    lemma_no_graph_add(a + b + c + d + e, f);
    lemma_no_graph_add(a + b + c + d + e + f, g);
}

/// None of the operations paints a graph.
pub open spec fn graphless(ops: Seq<OpView>) -> bool {
    forall|i: int| 0 <= i < ops.len() ==> !(#[trigger] ops[i] is Graph)
}

proof fn lemma_no_graph_add(a: Seq<OpView>, b: Seq<OpView>)
    requires
        graphless(a),
        graphless(b),
    ensures
        graphless(a + b),
{
    assert forall|i: int| 0 <= i < (a + b).len() implies !(#[trigger] (a + b)[i] is Graph) by {
        if i < a.len() {
            assert((a + b)[i] == a[i]);
        } else {
            assert((a + b)[i] == b[i - a.len()]);
        }
    }
}

/// While scraping is paused the banner says so, and nothing else.
pub proof fn law_pause_banner_goes_first(m: Model, s: SceneView)
    requires
        s.paused is Some,
    ensures
        banner_of(m, s) matches Some(b) && b.1 == Tone::Warn,
{
}

/// Without an error and without a pause there is no banner.
pub proof fn law_no_banner_without_cause(m: Model, s: SceneView)
    requires
        s.paused is None,
        s.error is None,
    ensures
        banner_of(m, s) is None,
{
}

/// A lost connection is told of once the data is gone or stale, and not before.
pub proof fn law_lost_connection_is_told(m: Model, s: SceneView)
    requires
        s.paused is None,
        s.error is Some,
    ensures
        banner_of(m, s) is Some <==> s.figures is None || stale(m, s.age, s.ui.interval),
        banner_of(m, s) matches Some(b) ==> b.1 == Tone::Bad,
{
}

// ---- when, and where -----------------------------------------------------------

/// Whole seconds, as far as `limit`, on which the arithmetic is exact.
pub open spec fn counts_seconds(m: Model, secs: spec_fn(int) -> Num, limit: int) -> bool {
    &&& secs(1) == num(0x3ff0_0000_0000_0000)
    &&& secs(3) == num(0x4008_0000_0000_0000)
    &&& forall|a: int|
        0 <= a && 3 * a <= limit ==> #[trigger] m(Calc::Product(secs(a), secs(3))) == secs(3 * a)
    &&& forall|a: int|
        0 <= a < limit ==> #[trigger] m(Calc::Sum(secs(a), secs(1))) == secs(a + 1)
    &&& forall|a: int|
        0 <= a <= limit ==> m(Calc::Nanos(#[trigger] secs(a))).whole() == a * 1_000_000_000
}

/// Data is stale once it is older than three polls and one more second, and
/// where there never was any.
pub proof fn law_data_is_stale_after_three_polls(
    m: Model,
    secs: spec_fn(int) -> Num,
    limit: int,
    poll: int,
    age: u64,
)
    requires
        counts_seconds(m, secs, limit),
        0 <= poll,
        3 * poll + 1 <= limit,
    ensures
        stale(m, Some(age), secs(poll)) <==> age > (3 * poll + 1) * 1_000_000_000,
        stale(m, None, secs(poll)),
{
    assert(m(Calc::Product(secs(poll), secs(3))) == secs(3 * poll));
    assert(m(Calc::Sum(secs(3 * poll), secs(1))) == secs(3 * poll + 1));
    assert(m(Calc::Nanos(secs(3 * poll + 1))).whole() == (3 * poll + 1) * 1_000_000_000);
}

/// The uptime runs since the first scrape, the age of the data since the last
/// good one, and the pause since it began.
pub proof fn law_times_run_since_their_events(m: Model, ui: Ui, s: SharedView, now: u64, t: u64)
    requires
        t <= now,
    ensures
        ({
            let scene = scene_of(m, ui, s, now);
            &&& s.history.first_seen == Some(t) ==> scene.uptime == Some((now - t) as u64)
            &&& s.history.first_seen is None ==> scene.uptime is None
            &&& s.last_ok == Some(t) ==> scene.age == Some((now - t) as u64)
            &&& s.last_ok is None ==> scene.age is None
            &&& ui.paused_since == Some(t) ==> scene.paused == Some((now - t) as u64)
            &&& ui.paused_since is None ==> scene.paused is None
            &&& scene.error == s.last_error
            &&& scene.peaks == s.peaks
            &&& scene.ui == ui
            &&& scene.figures == crate::derive::derived_of(m, s.history, ui.window_focus)
        }),
{
}

/// The banner says for how many seconds scraping is paused; or how many seconds
/// ago the last data came, and what went wrong.
pub proof fn law_banner_says_what_happened(m: Model, s: SceneView)
    ensures
        s.paused matches Some(t) ==> (banner_of(m, s) matches Some(b) && show::says(
            b.0,
            "\u{23f8} paused "@,
            text::digits((t / 1_000_000_000) as nat),
        )),
        s.paused is None ==> (banner_of(m, s) matches Some(b) ==> s.error matches Some(e)
            && show::says(b.0, "s ago \u{2014} "@, e)),
        s.paused is None ==> (banner_of(m, s) matches Some(b) ==> (s.age matches Some(a)
            ==> show::says(b.0, "last data "@, text::digits((a / 1_000_000_000) as nat)))),
{
    if let Some(b) = banner_of(m, s) {
        if let Some(t) = s.paused {
            let n = text::digits((t / 1_000_000_000) as nat);
            let tail = "s \u{2014} press space to resume"@;
            assert(b.0 =~= Seq::<char>::empty() + "\u{23f8} paused "@ + n + tail);
            assert(show::made_of(b.0, Seq::empty(), "\u{23f8} paused "@, n, tail));
        } else {
            let e = s.error->0;
            let secs = match s.age {
                Some(a) => (a / 1_000_000_000) as nat,
                None => 0,
            };
            let head = "\u{26a0} connection lost \u{2014} retrying\u{2026} last data "@;
            let n = text::digits(secs);
            assert(b.0 =~= (head + n) + "s ago \u{2014} "@ + e + Seq::<char>::empty());
            assert(show::made_of(b.0, head + n, "s ago \u{2014} "@, e, Seq::empty()));
            reveal_strlit("\u{26a0} connection lost \u{2014} retrying\u{2026} last data ");
            reveal_strlit("\u{26a0} connection lost \u{2014} retrying\u{2026} ");
            reveal_strlit("last data ");
            let front = "\u{26a0} connection lost \u{2014} retrying\u{2026} "@;
            assert(head =~= front + "last data "@);
            let tail = "s ago \u{2014} "@ + e;
            assert(b.0 =~= front + "last data "@ + n + tail);
            assert(show::made_of(b.0, front, "last data "@, n, tail));
        }
    }
}

/// The operations of a part, in one piece, between those before and those
/// behind it.
pub open spec fn lies_between(
    all: Seq<OpView>,
    a: Seq<OpView>,
    part: Seq<OpView>,
    b: Seq<OpView>,
) -> bool {
    all == a + part + b
}

/// A part is drawn.
pub open spec fn draws_part(all: Seq<OpView>, part: Seq<OpView>) -> bool {
    exists|a: Seq<OpView>, b: Seq<OpView>| #[trigger] lies_between(all, a, part, b)
}

proof fn lemma_three_parts(a: Seq<OpView>, b: Seq<OpView>, c: Seq<OpView>)
    ensures
        draws_part(a + b + c, a),
        draws_part(a + b + c, b),
        draws_part(a + b + c, c),
        draws_part(a + b + c, a + b),
{
    let all = a + b + c;
    let none = Seq::<OpView>::empty();
    assert(all =~= none + a + (b + c));
    assert(lies_between(all, none, a, b + c));
    assert(lies_between(all, a, b, c));
    assert(all =~= (a + b) + c + none);
    assert(lies_between(all, a + b, c, none));
    assert(all =~= none + (a + b) + c);
    assert(lies_between(all, none, a + b, c));
}

proof fn lemma_seven_parts(
    a: Seq<OpView>,
    b: Seq<OpView>,
    c: Seq<OpView>,
    d: Seq<OpView>,
    e: Seq<OpView>,
    f: Seq<OpView>,
    g: Seq<OpView>,
)
    ensures
        ({
            let all = a + b + c + d + e + f + g;
            &&& draws_part(all, b)
            &&& draws_part(all, c)
            &&& draws_part(all, d)
            &&& draws_part(all, e)
            &&& draws_part(all, f + g)
            &&& all.len() >= a.len()
            &&& forall|i: int| 0 <= i < a.len() ==> #[trigger] all[i] == a[i]
            &&& all.len() >= g.len()
            &&& all.skip(all.len() - g.len()) == g
        }),
{
    let all = a + b + c + d + e + f + g;
    let fg = f + g;
    let efg = e + fg;
    let defg = d + efg;
    let rest = c + defg;
    lemma_three_parts(a + b + c + d, e, fg);
    assert(all =~= a + b + c + d + e + fg);
    lemma_three_parts(a + b + c, d, efg);
    assert(all =~= a + b + c + d + efg);
    lemma_three_parts(a + b, c, defg);
    assert(all =~= a + b + c + defg);
    lemma_three_parts(a, b, rest);
    assert(all =~= a + b + rest);
    assert(all.skip(all.len() - g.len()) =~= g);
}

/// Every panel is drawn in its own row: header, hero strip, graphs, latency and
/// detail from top to bottom. What covers them comes behind them, and the banner
/// comes last.
pub proof fn law_panels_stand_in_their_rows(
    m: Model,
    w: Printer,
    area: Rect,
    compact: bool,
    s: SceneView,
    p: PlanView,
)
    ensures
        ({
            let all = picture(m, w, area, compact, s, p);
            let focus = s.ui.window_focus as int;
            let row: int = if s.ui.graphs_on {
                3
            } else {
                2
            };
            let end = banner_ops(m, area, s);
            &&& all.len() >= 2
            &&& all[0] == (OpView::Fill { area })
            &&& all[1].area() == p.rows[0]
            &&& all[1] matches OpView::Text { lines, scroll, .. } && scroll == 0 && lines == seq![
                panels::header_line(m, w, s.ui, s.figures, s.uptime, s.age),
            ]
            &&& draws_part(
                all,
                panels::hero_ops(m, w, s.figures, focus, compact, p.rows[1], p.hero),
            )
            &&& draws_part(all, graph_part(m, w, compact, s, p))
            &&& draws_part(
                all,
                latency::latency_ops(m, w, s.figures, focus, compact, p.rows[row]),
            )
            &&& compact ==> draws_part(
                all,
                detail::compact_ops(m, w, s.figures, focus, p.rows[row + 1]),
            )
            &&& !compact ==> draws_part(
                all,
                detail::full_ops(m, w, s.figures, focus, s.peaks, p.detail),
            )
            &&& s.ui.overlay == Overlay::Help ==> draws_part(all, overlays::help_ops(area) + end)
            &&& s.ui.overlay == Overlay::Explain ==> draws_part(
                all,
                overlays::explain_ops(area, s.ui.scroll) + end,
            )
            &&& all.len() >= end.len() && all.skip(all.len() - end.len()) == end
        }),
{
    let focus = s.ui.window_focus as int;
    let row = p.rows[latency_row(s.ui.graphs_on)];
    let a = seq![
        OpView::Fill { area },
        panels::written(
            p.rows[0],
            seq![panels::header_line(m, w, s.ui, s.figures, s.uptime, s.age)],
        ),
    ];
    let b = panels::hero_ops(m, w, s.figures, focus, compact, p.rows[1], p.hero);
    let c = graph_part(m, w, compact, s, p);
    let d = latency::latency_ops(m, w, s.figures, focus, compact, row);
    let e = detail_part(m, w, compact, s, p);
    let f = overlay_part(area, s.ui);
    let g = banner_ops(m, area, s);
    let all = picture(m, w, area, compact, s, p);
    lemma_seven_parts(a, b, c, d, e, f, g);
    assert(all == a + b + c + d + e + f + g);
}

/// In the full layout the prefill graph stands left of the decode graph, with
/// the pools over the speed panel beside them; the compact layout has the decode
/// graph alone.
pub proof fn law_graphs_stand_in_their_places(
    m: Model,
    w: Printer,
    compact: bool,
    s: SceneView,
    p: PlanView,
    d: DerivedView,
)
    requires
        s.figures == Some(d),
    ensures
        ({
            let all = graph_part(m, w, compact, s, p);
            &&& !s.ui.graphs_on ==> all.len() == 0
            &&& s.ui.graphs_on && compact ==> all == charts::rate_graph_ops(
                m,
                w,
                d,
                RateGraph::Decode,
                s.peaks,
                p.rows[2],
            )
            &&& s.ui.graphs_on && !compact ==> {
                &&& draws_part(
                    all,
                    charts::rate_graph_ops(m, w, d, RateGraph::Prefill, s.peaks, p.graphs[0]),
                )
                &&& draws_part(
                    all,
                    charts::rate_graph_ops(m, w, d, RateGraph::Decode, s.peaks, p.graphs[1]),
                )
                &&& draws_part(all, charts::pool_ops(m, w, d, p.right[0], p.lanes))
                &&& draws_part(all, charts::speed_ops(m, w, d.graphs, s.peaks, p.right[1]))
            }
        }),
{
    if s.ui.graphs_on && !compact {
        let a = charts::rate_graph_ops(m, w, d, RateGraph::Prefill, s.peaks, p.graphs[0]);
        let b = charts::rate_graph_ops(m, w, d, RateGraph::Decode, s.peaks, p.graphs[1]);
        let c = charts::pool_ops(m, w, d, p.right[0], p.lanes);
        let e = charts::speed_ops(m, w, d.graphs, s.peaks, p.right[1]);
        lemma_three_parts(a, b, c);
        lemma_three_parts(a + b, c, e);
        lemma_three_parts(a, b, c + e);
        assert(a + b + c + e =~= a + b + (c + e));
    }
}

/// Only the row of the graphs grows. The other rows are as high as what they
/// hold needs with its frame: three lines of a hero cell, or its first one in
/// the compact layout, and all lines of the latency panel.
pub proof fn law_only_the_graphs_grow(
    m: Model,
    w: Printer,
    graphs_on: bool,
    compact: bool,
    rows: u16,
    d: DerivedView,
    focus: int,
)
    ensures
        ({
            let s = stack(compact, graphs_on, rows);
            let at: int = if graphs_on {
                3
            } else {
                2
            };
            &&& s.len() == at + 2
            &&& s[0] == Size::Length(1)
            &&& forall|i: int|
                0 <= i < s.len() ==> (#[trigger] s[i] is Min <==> graphs_on && i == 2)
            &&& s[1] matches Size::Length(n) && n == (if compact {
                1int
            } else {
                panels::hero_cells(m, w, d, focus, compact)[0].len() as int
            }) + 2
            &&& s[at] matches Size::Length(n) && n - 2 >= latency::lines_of(
                m,
                w,
                Some(d),
                focus,
                compact,
            ).len()
            &&& compact ==> s[at + 1] == Size::Length(3)
            &&& !compact ==> s[at + 1] == Size::Length(rows)
        }),
{
}

/// The compact layout is drawn below 26 rows or 90 columns, unless the user
/// chose.
pub proof fn law_small_screens_are_compact(ui: Ui, area: Rect)
    ensures
        ui.compact is None ==> (compact_in(ui, area) <==> area.height < 26 || area.width < 90),
        ui.compact matches Some(c) ==> compact_in(ui, area) == c,
{
}

/// What the cells of a row ask for together.
pub open spec fn asked(s: Seq<Size>) -> (int, int)
    decreases s.len(),
{
    if s.len() == 0 {
        (0, 0)
    } else {
        let (ratio, percent) = asked(s.drop_last());
        match s.last() {
            Size::Ratio(a, b) => (ratio + a as int, percent),
            Size::Percent(p) => (ratio, percent + p as int),
            _ => (ratio, percent),
        }
    }
}

/// Columns share the whole of their row: the cell with the token rates is twice
/// as wide as every other cell of the hero strip, the two rate graphs are equally
/// wide, and the pools have the larger part of the column beside them.
pub proof fn law_columns_share_their_row()
    ensures
        hero_sizes().len() == 6,
        forall|i: int|
            0 <= i < 6 ==> (#[trigger] hero_sizes()[i] matches Size::Ratio(a, b) && b == asked(
                hero_sizes(),
            ).0 && a == (if i == 2 {
                2int
            } else {
                1
            })),
        detail_sizes().len() == 4,
        asked(detail_sizes()).1 == 100,
        graph_sizes().len() == 3,
        asked(graph_sizes()).1 == 100,
        graph_sizes()[0] == graph_sizes()[1],
        graph_sizes()[2] matches Size::Percent(p) && p > 33,
        right_sizes().len() == 2,
        asked(right_sizes()).1 == 100,
        right_sizes()[0] matches Size::Percent(p) && 50 < p < 60,
{
    reveal_with_fuel(asked, 7);
    let h = hero_sizes();
    assert(h.drop_last() =~= h.take(5));
    assert(h.take(5).drop_last() =~= h.take(4));
    assert(h.take(4).drop_last() =~= h.take(3));
    assert(h.take(3).drop_last() =~= h.take(2));
    assert(h.take(2).drop_last() =~= h.take(1));
    assert(h.take(1).drop_last() =~= seq![]);
}

} // verus!
