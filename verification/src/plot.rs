//! Line graphs: where their strokes and labels go.
//!
//! Coordinates are braille dots, two per character column and four per row,
//! from the lower left corner.
use crate::num;
use crate::num::{
    num, Calc, Model, Num, HEADROOM, LARGEST, MILLION, ONE, ONE_10, ONE_15, TEN, THOUSAND, TICK,
    TWO, ZERO,
};
use crate::screen::{Rect, Tone};
use crate::show;
use crate::show::Printer;
use vstd::prelude::*;

verus! {

/// One element of a graph.
#[derive(Debug)]
pub enum Mark {
    /// A straight line.
    Stroke { x1: Num, y1: Num, x2: Num, y2: Num, tone: Tone },
    /// A label that starts at a point.
    Note { x: Num, y: Num, text: String, tone: Tone },
}

pub enum MarkView {
    Stroke { x1: Num, y1: Num, x2: Num, y2: Num, tone: Tone },
    Note { x: Num, y: Num, text: Seq<char>, tone: Tone },
}

impl View for Mark {
    type V = MarkView;

    open spec fn view(&self) -> MarkView {
        match self {
            Mark::Stroke { x1, y1, x2, y2, tone } => MarkView::Stroke {
                x1: *x1,
                y1: *y1,
                x2: *x2,
                y2: *y2,
                tone: *tone,
            },
            Mark::Note { x, y, text, tone } => MarkView::Note {
                x: *x,
                y: *y,
                text: text@,
                tone: *tone,
            },
        }
    }
}

pub open spec fn marks_view(s: Seq<Mark>) -> Seq<MarkView> {
    Seq::new(s.len(), |i: int| s[i]@)
}

/// The marks of a graph, in the order in which they are painted.
#[derive(Debug)]
pub struct Plot {
    /// Dots from left to right.
    pub width: u32,
    /// Dots from bottom to top.
    pub height: u32,
    pub marks: Vec<Mark>,
}

#[verifier::ext_equal]
pub struct PlotView {
    pub width: u32,
    pub height: u32,
    pub marks: Seq<MarkView>,
}

impl View for Plot {
    type V = PlotView;

    open spec fn view(&self) -> PlotView {
        PlotView { width: self.width, height: self.height, marks: marks_view(self.marks@) }
    }
}

/// The axes of a graph. The horizontal axis is wall-clock time: it is always
/// `window` seconds wide, with the newest sample pinned to the right edge.
#[derive(Clone, Copy, Debug)]
pub struct Axes {
    pub dots: u32,
    pub rows: u32,
    /// What the full height stands for.
    pub ymax: Num,
    /// Seconds that the samples cover.
    pub span: Num,
    pub window: Num,
}

impl Axes {
    /// The last column.
    pub open spec fn last(self, m: Model) -> Num {
        m(Calc::Whole((self.dots - 1) as u64))
    }

    /// The column of a point in time, in seconds from the oldest sample.
    pub open spec fn column(self, m: Model, cum: Num) -> Num {
        let age = m(Calc::Difference(self.span, cum));
        let back = m(Calc::Product(m(Calc::Quotient(age, self.window)), self.last(m)));
        m(Calc::Difference(self.last(m), back)).between(num(ZERO), self.last(m))
    }

    /// The height of a value, before it is kept from the upper edge.
    pub open spec fn raw_height(self, m: Model, v: Num) -> Num {
        let tall = m(Calc::Whole(self.rows as u64));
        m(
            Calc::Product(
                m(Calc::Product(m(Calc::Quotient(v, self.ymax)), tall)),
                num(HEADROOM),
            ),
        )
    }

    /// The height of a bar.
    pub open spec fn height(self, m: Model, v: Num) -> Num {
        let tall = m(Calc::Whole(self.rows as u64));
        self.raw_height(m, v).smaller(m(Calc::Product(tall, num(HEADROOM))))
    }

    /// The height of a gridline, kept off the edges.
    pub open spec fn level(self, m: Model, v: Num) -> Num {
        self.raw_height(m, v).between(num(ONE), m(Calc::Whole((self.rows - 2) as u64)))
    }

    fn find_last<C: Fn(Calc) -> Num + Copy>(self, calc: C) -> (r: Num)
        requires
            num::total(calc),
            self.dots > 0,
        ensures
            forall|m: Model| #[trigger] num::models(calc, m) ==> r == self.last(m),
    {
        calc(Calc::Whole((self.dots - 1) as u64))
    }

    fn find_column<C: Fn(Calc) -> Num + Copy>(self, cum: Num, calc: C) -> (r: Num)
        requires
            num::total(calc),
            self.dots > 0,
        ensures
            forall|m: Model| #[trigger] num::models(calc, m) ==> r == self.column(m, cum),
    {
        let last = self.find_last(calc);
        let age = calc(Calc::Difference(self.span, cum));
        let back = calc(Calc::Product(calc(Calc::Quotient(age, self.window)), last));
        calc(Calc::Difference(last, back)).clamp(num(ZERO), last)
    }

    fn find_raw_height<C: Fn(Calc) -> Num + Copy>(self, v: Num, calc: C) -> (r: Num)
        requires
            num::total(calc),
        ensures
            forall|m: Model| #[trigger] num::models(calc, m) ==> r == self.raw_height(m, v),
    {
        let tall = calc(Calc::Whole(self.rows as u64));
        let part = calc(Calc::Product(calc(Calc::Quotient(v, self.ymax)), tall));
        calc(Calc::Product(part, num(HEADROOM)))
    }

    fn find_height<C: Fn(Calc) -> Num + Copy>(self, v: Num, calc: C) -> (r: Num)
        requires
            num::total(calc),
        ensures
            forall|m: Model| #[trigger] num::models(calc, m) ==> r == self.height(m, v),
    {
        let tall = calc(Calc::Whole(self.rows as u64));
        let top = calc(Calc::Product(tall, num(HEADROOM)));
        self.find_raw_height(v, calc).min(top)
    }

    fn find_level<C: Fn(Calc) -> Num + Copy>(self, v: Num, calc: C) -> (r: Num)
        requires
            num::total(calc),
            self.rows >= 4,
        ensures
            forall|m: Model| #[trigger] num::models(calc, m) ==> r == self.level(m, v),
    {
        let top = calc(Calc::Whole((self.rows - 2) as u64));
        self.find_raw_height(v, calc).clamp(num(ONE), top)
    }
}

/// Seconds from the oldest sample to the `i`-th. An interval whose length is
/// not known counts as one second.
pub open spec fn cum(m: Model, dt: Seq<Num>, i: nat) -> Num
    decreases i,
{
    if i == 0 {
        num(ZERO)
    } else {
        m(
            Calc::Sum(
                cum(m, dt, (i - 1) as nat),
                if i - 1 < dt.len() {
                    dt[i - 1]
                } else {
                    num(ONE)
                },
            ),
        )
    }
}

/// The top of each sample's bar.
pub open spec fn tops_of(m: Model, a: Axes, vals: Seq<Num>, dt: Seq<Num>) -> Seq<(Num, Num)> {
    Seq::new(vals.len(), |i: int| (a.column(m, cum(m, dt, i as nat)), a.height(m, vals[i])))
}

fn find_tops<C: Fn(Calc) -> Num + Copy>(a: Axes, vals: &[Num], dt: &[Num], calc: C) -> (r: Vec<
    (Num, Num),
>)
    requires
        num::total(calc),
        a.dots > 0,
    ensures
        r@.len() == vals@.len(),
        forall|m: Model| #[trigger] num::models(calc, m) ==> r@ == tops_of(m, a, vals@, dt@),
{
    let mut out: Vec<(Num, Num)> = Vec::new();
    let mut x = num(ZERO);
    let mut i: usize = 0;
    while i < vals.len()
        invariant
            i <= vals.len(),
            out.len() == i,
            num::total(calc),
            a.dots > 0,
            forall|m: Model| #[trigger] num::models(calc, m) ==> x == cum(m, dt@, i as nat),
            forall|m: Model| #[trigger]
                num::models(calc, m) ==> out@ == tops_of(m, a, vals@, dt@).take(i as int),
        decreases vals.len() - i,
    {
        let ghost before = out@;
        let top = (a.find_column(x, calc), a.find_height(vals[i], calc));
        out.push(top);
        let d = if i < dt.len() {
            dt[i]
        } else {
            num(ONE)
        };
        x = calc(Calc::Sum(x, d));
        i = i + 1;
        proof {
            assert forall|m: Model| #[trigger] num::models(calc, m) implies out@ == tops_of(
                m,
                a,
                vals@,
                dt@,
            ).take(i as int) by {
                assert(before == tops_of(m, a, vals@, dt@).take(i - 1));
                assert(out@ =~= tops_of(m, a, vals@, dt@).take(i as int));
            }
        }
    }
    proof {
        assert forall|m: Model| #[trigger] num::models(calc, m) implies out@ == tops_of(
            m,
            a,
            vals@,
            dt@,
        ) by {
            assert(tops_of(m, a, vals@, dt@).take(vals@.len() as int) =~= tops_of(
                m,
                a,
                vals@,
                dt@,
            ));
        }
    }
    out
}

/// The bar in a column between two tops.
pub open spec fn slope(m: Model, a: (Num, Num), b: (Num, Num), x: Num) -> (Num, Num) {
    let run = m(Calc::Difference(b.0, a.0)).larger(num(ONE));
    let t = m(Calc::Quotient(m(Calc::Difference(x, a.0)), run));
    let h = m(Calc::Sum(a.1, m(Calc::Product(m(Calc::Difference(b.1, a.1)), t))));
    (x, h.larger(num(ONE)))
}

fn find_slope<C: Fn(Calc) -> Num + Copy>(a: (Num, Num), b: (Num, Num), x: Num, calc: C) -> (r: (
    Num,
    Num,
))
    requires
        num::total(calc),
    ensures
        forall|m: Model| #[trigger] num::models(calc, m) ==> r == slope(m, a, b, x),
{
    let run = calc(Calc::Difference(b.0, a.0)).max(num(ONE));
    let t = calc(Calc::Quotient(calc(Calc::Difference(x, a.0)), run));
    let h = calc(Calc::Sum(a.1, calc(Calc::Product(calc(Calc::Difference(b.1, a.1)), t))));
    (x, h.max(num(ONE)))
}

/// The bars from the column `x` up to the second top, one dot apart and at most
/// `dots` of them.
pub open spec fn climb(
    m: Model,
    a: (Num, Num),
    b: (Num, Num),
    x: Num,
    dots: nat,
) -> Seq<(Num, Num)>
    decreases dots,
{
    if dots == 0 || !x.below(b.0) {
        seq![]
    } else {
        seq![slope(m, a, b, x)] + climb(m, a, b, m(Calc::Sum(x, num(ONE))), (dots - 1) as nat)
    }
}

fn push_climb<C: Fn(Calc) -> Num + Copy>(
    out: &mut Vec<(Num, Num)>,
    a: (Num, Num),
    b: (Num, Num),
    dots: u32,
    calc: C,
)
    requires
        num::total(calc),
    ensures
        forall|m: Model| #[trigger]
            num::models(calc, m) ==> final(out)@ == old(out)@ + climb(m, a, b, a.0, dots as nat),
{
    let mut x = a.0;
    let mut left = dots;
    let ghost start = out@;
    while left > 0 && x.is_below(b.0)
        invariant
            num::total(calc),
            forall|m: Model| #[trigger]
                num::models(calc, m) ==> out@ + climb(m, a, b, x, left as nat) == start + climb(
                    m,
                    a,
                    b,
                    a.0,
                    dots as nat,
                ),
        decreases left,
    {
        let ghost before = out@;
        let ghost at = x;
        out.push(find_slope(a, b, x, calc));
        x = calc(Calc::Sum(x, num(ONE)));
        left = left - 1;
        proof {
            assert forall|m: Model| #[trigger] num::models(calc, m) implies out@ + climb(
                m,
                a,
                b,
                x,
                left as nat,
            ) == start + climb(m, a, b, a.0, dots as nat) by {
                assert(out@ + climb(m, a, b, x, left as nat) =~= before + (seq![
                    slope(m, a, b, at),
                ] + climb(m, a, b, x, left as nat)));
            }
        }
    }
    proof {
        assert(out@ + Seq::<(Num, Num)>::empty() =~= out@);
    }
}

/// The bars between the tops: columns interpolate between the ends of an
/// interval, so that the bars form a solid histogram.
pub open spec fn walls(m: Model, tops: Seq<(Num, Num)>, dots: nat) -> Seq<(Num, Num)>
    decreases tops.len(),
{
    if tops.len() < 2 {
        seq![]
    } else {
        let (a, b) = (tops[tops.len() - 2], tops.last());
        walls(m, tops.drop_last(), dots) + climb(m, a, b, a.0, dots)
    }
}

/// The newest sample, held out to the right edge: the graph always touches the
/// present moment.
pub open spec fn hold(m: Model, top: (Num, Num), dots: nat) -> Seq<(Num, Num)> {
    let start = top.0.whole();
    Seq::new(
        if start < dots {
            (dots - start) as nat
        } else {
            0
        },
        |k: int| (m(Calc::Whole((start + k) as u64)), top.1.larger(num(ONE))),
    )
}

/// All bars of a graph.
pub open spec fn bars_of(m: Model, tops: Seq<(Num, Num)>, dots: nat) -> Seq<(Num, Num)> {
    if tops.len() == 0 {
        seq![]
    } else {
        walls(m, tops, dots) + hold(m, tops.last(), dots)
    }
}

fn push_hold<C: Fn(Calc) -> Num + Copy>(
    out: &mut Vec<(Num, Num)>,
    top: (Num, Num),
    dots: u32,
    calc: C,
)
    requires
        num::total(calc),
    ensures
        forall|m: Model| #[trigger]
            num::models(calc, m) ==> final(out)@ == old(out)@ + hold(m, top, dots as nat),
{
    let start: u64 = top.0.to_count();
    let h = top.1.max(num(ONE));
    let ghost before = out@;
    let mut k: u64 = start;
    while k < dots as u64
        invariant
            start <= k,
            k <= dots || k == start,
            num::total(calc),
            h == top.1.larger(num(ONE)),
            start == top.0.whole(),
            forall|m: Model| #[trigger]
                num::models(calc, m) ==> out@ == before + hold(m, top, dots as nat).take(k - start),
        decreases dots - k,
    {
        let ghost so_far = out@;
        let x = calc(Calc::Whole(k));
        out.push((x, h));
        k = k + 1;
        proof {
            assert forall|m: Model| #[trigger] num::models(calc, m) implies out@ == before + hold(
                m,
                top,
                dots as nat,
            ).take(k - start) by {
                assert(out@ =~= before + hold(m, top, dots as nat).take(k - start));
            }
        }
    }
    proof {
        assert forall|m: Model| #[trigger] num::models(calc, m) implies out@ == before + hold(
            m,
            top,
            dots as nat,
        ) by {
            assert(hold(m, top, dots as nat).take(k - start) =~= hold(m, top, dots as nat));
        }
    }
}

fn find_bars<C: Fn(Calc) -> Num + Copy>(tops: &Vec<(Num, Num)>, dots: u32, calc: C) -> (r: Vec<
    (Num, Num),
>)
    requires
        num::total(calc),
    ensures
        forall|m: Model| #[trigger] num::models(calc, m) ==> r@ == bars_of(m, tops@, dots as nat),
{
    let mut out: Vec<(Num, Num)> = Vec::new();
    if tops.len() == 0 {
        return out;
    }
    let mut i: usize = 1;
    while i < tops.len()
        invariant
            1 <= i <= tops.len(),
            num::total(calc),
            forall|m: Model| #[trigger]
                num::models(calc, m) ==> out@ == walls(m, tops@.take(i as int), dots as nat),
        decreases tops.len() - i,
    {
        proof {
            assert(tops@.take(i + 1).drop_last() =~= tops@.take(i as int));
        }
        push_climb(&mut out, tops[i - 1], tops[i], dots, calc);
        i = i + 1;
    }
    proof {
        assert(tops@.take(tops@.len() as int) =~= tops@);
    }
    push_hold(&mut out, tops[tops.len() - 1], dots, calc);
    out
}

/// A bar from the lower edge.
pub open spec fn upright(x: Num, h: Num, tone: Tone) -> MarkView {
    MarkView::Stroke { x1: x, y1: num(ZERO), x2: x, y2: h, tone }
}

/// The strokes of the bars.
pub open spec fn bar_marks(bars: Seq<(Num, Num)>, tone: Tone) -> Seq<MarkView> {
    Seq::new(bars.len(), |i: int| upright(bars[i].0, bars[i].1, tone))
}

fn push_bars(out: &mut Vec<Mark>, bars: &Vec<(Num, Num)>, tone: Tone)
    ensures
        marks_view(final(out)@) == marks_view(old(out)@) + bar_marks(bars@, tone),
{
    let ghost before = marks_view(out@);
    let mut i: usize = 0;
    proof {
        assert(before + bar_marks(bars@, tone).take(0) =~= before);
    }
    while i < bars.len()
        invariant
            i <= bars.len(),
            marks_view(out@) == before + bar_marks(bars@, tone).take(i as int),
        decreases bars.len() - i,
    {
        let ghost so_far = marks_view(out@);
        let (x, h) = bars[i];
        out.push(Mark::Stroke { x1: x, y1: num(ZERO), x2: x, y2: h, tone });
        i = i + 1;
        proof {
            assert(marks_view(out@) =~= so_far.push(upright(x, h, tone)));
            assert(marks_view(out@) =~= before + bar_marks(bars@, tone).take(i as int));
        }
    }
    proof {
        assert(bar_marks(bars@, tone).take(bars@.len() as int) =~= bar_marks(bars@, tone));
    }
}

/// Whether the `i`-th interval is flagged.
pub open spec fn is_flagged(stall: Option<Seq<bool>>, i: int) -> bool {
    match stall {
        Some(s) => i < s.len() && s[i],
        None => false,
    }
}

/// A red tick at the lower edge for each flagged interval.
pub open spec fn tick_marks(
    tops: Seq<(Num, Num)>,
    stall: Option<Seq<bool>>,
    tick: Num,
) -> Seq<MarkView>
    decreases tops.len(),
{
    if tops.len() == 0 {
        seq![]
    } else {
        let t = tick_marks(tops.drop_last(), stall, tick);
        if is_flagged(stall, tops.len() - 1) {
            t.push(upright(tops.last().0, tick, Tone::Red))
        } else {
            t
        }
    }
}

pub open spec fn flags_view(stall: Option<&[bool]>) -> Option<Seq<bool>> {
    match stall {
        Some(s) => Some(s@),
        None => None,
    }
}

fn push_ticks(out: &mut Vec<Mark>, tops: &Vec<(Num, Num)>, stall: Option<&[bool]>, tick: Num)
    ensures
        marks_view(final(out)@) == marks_view(old(out)@) + tick_marks(
            tops@,
            flags_view(stall),
            tick,
        ),
{
    let ghost before = marks_view(out@);
    let ghost flags = flags_view(stall);
    let mut i: usize = 0;
    proof {
        assert(tops@.take(0) =~= seq![]);
        assert(before + tick_marks(tops@.take(0), flags, tick) =~= before);
    }
    while i < tops.len()
        invariant
            i <= tops.len(),
            flags == flags_view(stall),
            marks_view(out@) == before + tick_marks(tops@.take(i as int), flags, tick),
        decreases tops.len() - i,
    {
        let ghost so_far = marks_view(out@);
        proof {
            assert(tops@.take(i + 1).drop_last() =~= tops@.take(i as int));
        }
        let flagged = match stall {
            Some(s) => i < s.len() && s[i],
            None => false,
        };
        if flagged {
            let x = tops[i].0;
            out.push(Mark::Stroke { x1: x, y1: num(ZERO), x2: x, y2: tick, tone: Tone::Red });
            proof {
                assert(marks_view(out@) =~= so_far.push(upright(x, tick, Tone::Red)));
            }
        }
        i = i + 1;
        proof {
            assert(marks_view(out@) =~= before + tick_marks(tops@.take(i as int), flags, tick));
        }
    }
    proof {
        assert(tops@.take(tops@.len() as int) =~= tops@);
    }
}

/// A dash of a gridline: two dots wide, every five dots.
pub open spec fn dash(m: Model, a: Axes, y: Num, k: int) -> MarkView {
    MarkView::Stroke {
        x1: m(Calc::Whole((5 * k) as u64)),
        y1: y,
        x2: m(Calc::Whole((5 * k + 2) as u64)).smaller(a.last(m)),
        y2: y,
        tone: Tone::Dim,
    }
}

/// A dashed gridline.
pub open spec fn dashes(m: Model, a: Axes, y: Num) -> Seq<MarkView> {
    Seq::new(((a.dots + 4) / 5) as nat, |k: int| dash(m, a, y, k))
}

fn push_dashes<C: Fn(Calc) -> Num + Copy>(out: &mut Vec<Mark>, a: Axes, y: Num, calc: C)
    requires
        num::total(calc),
        a.dots > 0,
    ensures
        forall|m: Model| #[trigger]
            num::models(calc, m) ==> marks_view(final(out)@) == marks_view(old(out)@) + dashes(
                m,
                a,
                y,
            ),
{
    let ghost before = marks_view(out@);
    let last = a.find_last(calc);
    let n: u64 = (a.dots as u64 + 4) / 5;
    let mut k: u64 = 0;
    proof {
        assert forall|m: Model| #[trigger] num::models(calc, m) implies marks_view(out@) == before
            + dashes(m, a, y).take(0) by {
            assert(before + dashes(m, a, y).take(0) =~= before);
        }
    }
    while k < n
        invariant
            k <= n,
            n == (a.dots + 4) / 5,
            num::total(calc),
            forall|m: Model| #[trigger] num::models(calc, m) ==> last == a.last(m),
            forall|m: Model| #[trigger]
                num::models(calc, m) ==> marks_view(out@) == before + dashes(m, a, y).take(
                    k as int,
                ),
        decreases n - k,
    {
        let ghost so_far = out@;
        let x1 = calc(Calc::Whole(5 * k));
        let x2 = calc(Calc::Whole(5 * k + 2)).min(last);
        out.push(Mark::Stroke { x1, y1: y, x2, y2: y, tone: Tone::Dim });
        k = k + 1;
        proof {
            assert forall|m: Model| #[trigger] num::models(calc, m) implies marks_view(out@)
                == before + dashes(m, a, y).take(k as int) by {
                assert(marks_view(so_far) == before + dashes(m, a, y).take(k - 1));
                assert(marks_view(out@) =~= marks_view(so_far).push(dash(m, a, y, k - 1)));
                assert(marks_view(out@) =~= before + dashes(m, a, y).take(k as int));
            }
        }
    }
    proof {
        assert forall|m: Model| #[trigger] num::models(calc, m) implies marks_view(out@) == before
            + dashes(m, a, y) by {
            assert(dashes(m, a, y).take(n as int) =~= dashes(m, a, y));
        }
    }
}

/// The lowest gridline.
pub open spec fn lowest(grid: Seq<Num>) -> Num
    decreases grid.len(),
{
    if grid.len() == 0 {
        num(LARGEST)
    } else {
        lowest(grid.drop_last()).smaller(grid.last())
    }
}

fn find_lowest(grid: &[Num]) -> (r: Num)
    ensures
        r == lowest(grid@),
{
    let mut out = num(LARGEST);
    let mut i: usize = 0;
    while i < grid.len()
        invariant
            i <= grid.len(),
            out == lowest(grid@.take(i as int)),
        decreases grid.len() - i,
    {
        out = out.min(grid[i]);
        i = i + 1;
        proof {
            assert(grid@.take(i as int).drop_last() =~= grid@.take(i - 1));
        }
    }
    proof {
        assert(grid@.take(grid@.len() as int) =~= grid@);
    }
    out
}

/// The label of a gridline: whole, in k or in M.
pub open spec fn grid_number(m: Model, w: Printer, v: Num) -> Seq<char> {
    if num(MILLION).at_most(v) {
        w(m(Calc::Quotient(v, num(MILLION))), 0) + "M"@
    } else if num(THOUSAND).at_most(v) {
        w(m(Calc::Quotient(v, num(THOUSAND))), 0) + "k"@
    } else {
        w(v, 0)
    }
}

/// The lowest gridline carries the unit, the rest are bare numbers.
pub open spec fn grid_label(m: Model, w: Printer, v: Num, low: Num) -> Seq<char> {
    if v.at_most(low) && low.at_most(v) {
        grid_number(m, w, v) + " tok/s"@
    } else {
        grid_number(m, w, v)
    }
}

fn write_grid_label<C: Fn(Calc) -> Num + Copy, S: Fn(Num, u8) -> String + Copy>(
    v: Num,
    low: Num,
    calc: C,
    show: S,
) -> (r: String)
    requires
        show::ready(calc, show),
    ensures
        forall|m: Model, w: Printer| #[trigger]
            show::writes(calc, show, m, w) ==> r@ == grid_label(m, w, v, low),
{
    let mut out = if num(MILLION).is_at_most(v) {
        let mut t = show(calc(Calc::Quotient(v, num(MILLION))), 0);
        t.append("M");
        t
    } else if num(THOUSAND).is_at_most(v) {
        let mut t = show(calc(Calc::Quotient(v, num(THOUSAND))), 0);
        t.append("k");
        t
    } else {
        show(v, 0)
    };
    if v.is_at_most(low) && low.is_at_most(v) {
        out.append(" tok/s");
    }
    out
}

/// A gridline and its label.
pub open spec fn grid_mark(m: Model, w: Printer, a: Axes, v: Num, low: Num) -> Seq<MarkView> {
    let y = a.level(m, v);
    dashes(m, a, y).push(
        MarkView::Note {
            x: num(TWO),
            y: m(Calc::Sum(y, num(TWO))),
            text: grid_label(m, w, v, low),
            tone: Tone::Dim,
        },
    )
}

/// All gridlines.
pub open spec fn grid_marks(m: Model, w: Printer, a: Axes, grid: Seq<Num>, low: Num) -> Seq<
    MarkView,
>
    decreases grid.len(),
{
    if grid.len() == 0 {
        seq![]
    } else {
        grid_marks(m, w, a, grid.drop_last(), low) + grid_mark(m, w, a, grid.last(), low)
    }
}

fn find_grid<C: Fn(Calc) -> Num + Copy, S: Fn(Num, u8) -> String + Copy>(
    a: Axes,
    grid: &[Num],
    calc: C,
    show: S,
) -> (r: Vec<Mark>)
    requires
        show::ready(calc, show),
        a.dots > 0,
        a.rows >= 4,
    ensures
        forall|m: Model, w: Printer| #[trigger]
            show::writes(calc, show, m, w) ==> marks_view(r@) == grid_marks(
                m,
                w,
                a,
                grid@,
                lowest(grid@),
            ),
{
    let low = find_lowest(grid);
    let mut out: Vec<Mark> = Vec::new();
    let mut i: usize = 0;
    proof {
        assert(marks_view(out@) =~= seq![]);
        assert(grid@.take(0) =~= seq![]);
    }
    while i < grid.len()
        invariant
            i <= grid.len(),
            show::ready(calc, show),
            a.dots > 0,
            a.rows >= 4,
            forall|m: Model, w: Printer| #[trigger]
                show::writes(calc, show, m, w) ==> marks_view(out@) == grid_marks(
                    m,
                    w,
                    a,
                    grid@.take(i as int),
                    low,
                ),
        decreases grid.len() - i,
    {
        proof {
            assert(grid@.take(i + 1).drop_last() =~= grid@.take(i as int));
        }
        let ghost start = marks_view(out@);
        let v = grid[i];
        let y = a.find_level(v, calc);
        push_dashes(&mut out, a, y, calc);
        let ghost dashed = out@;
        let at = calc(Calc::Sum(y, num(TWO)));
        let text = write_grid_label(v, low, calc, show);
        let ghost note = MarkView::Note { x: num(TWO), y: at, text: text@, tone: Tone::Dim };
        out.push(Mark::Note { x: num(TWO), y: at, text, tone: Tone::Dim });
        i = i + 1;
        proof {
            assert(marks_view(out@) =~= marks_view(dashed).push(note));
            assert forall|m: Model, w: Printer| #[trigger]
                show::writes(calc, show, m, w) implies marks_view(out@) == grid_marks(
                m,
                w,
                a,
                grid@.take(i as int),
                low,
            ) by {
                assert(marks_view(dashed) == start + dashes(m, a, y));
                assert(marks_view(out@) =~= start + grid_mark(m, w, a, v, low));
            }
        }
    }
    proof {
        assert(grid@.take(grid@.len() as int) =~= grid@);
    }
    out
}

/// What a graph shows.
pub struct Curve<'a> {
    pub vals: &'a [Num],
    /// Interval lengths in seconds.
    pub dt: &'a [Num],
    pub ymax: Num,
    pub tone: Tone,
    /// Intervals that get a red tick.
    pub stall: Option<&'a [bool]>,
    /// Seconds that the axis covers.
    pub window: Num,
    pub grid: &'a [Num],
}

pub struct CurveView {
    pub vals: Seq<Num>,
    pub dt: Seq<Num>,
    pub ymax: Num,
    pub tone: Tone,
    pub stall: Option<Seq<bool>>,
    pub window: Num,
    pub grid: Seq<Num>,
}

impl<'a> View for Curve<'a> {
    type V = CurveView;

    open spec fn view(&self) -> CurveView {
        CurveView {
            vals: self.vals@,
            dt: self.dt@,
            ymax: self.ymax,
            tone: self.tone,
            stall: flags_view(self.stall),
            window: self.window,
            grid: self.grid@,
        }
    }
}

/// Whether there is something to draw, and room for it.
pub open spec fn drawable(area: Rect, c: CurveView) -> bool {
    &&& c.dt.len() > 0
    &&& !c.ymax.at_most(num(ZERO))
    &&& !c.window.at_most(num(ZERO))
    &&& area.width > 0
    &&& area.height > 0
}

/// The axes of a graph.
pub open spec fn axes_of(m: Model, area: Rect, c: CurveView) -> Axes {
    Axes {
        dots: (2 * area.width) as u32,
        rows: (4 * area.height) as u32,
        ymax: c.ymax,
        span: num::sum_of(m, c.dt),
        window: c.window,
    }
}

/// A graph: gridlines, bars and ticks.
pub open spec fn plot_of(m: Model, w: Printer, area: Rect, c: CurveView) -> PlotView {
    let a = axes_of(m, area, c);
    let tops = tops_of(m, a, c.vals, c.dt);
    let tick = m(Calc::Product(m(Calc::Whole(a.rows as u64)), num(TICK))).larger(num(TWO));
    PlotView {
        width: a.dots,
        height: a.rows,
        marks: grid_marks(m, w, a, c.grid, lowest(c.grid)) + bar_marks(
            bars_of(m, tops, a.dots as nat),
            c.tone,
        ) + tick_marks(tops, c.stall, tick),
    }
}

pub open spec fn plot_view(p: Option<Plot>) -> Option<PlotView> {
    match p {
        Some(x) => Some(x@),
        None => None,
    }
}

/// The graph of a curve in an area, where there is one to draw.
pub open spec fn graph_of(m: Model, w: Printer, area: Rect, c: CurveView) -> Option<PlotView> {
    if drawable(area, c) {
        Some(plot_of(m, w, area, c))
    } else {
        None
    }
}

/// Lays out a line graph on a fixed wall-clock axis. Each sample holds for its
/// whole scrape interval.
pub fn mini_line_graph<C: Fn(Calc) -> Num + Copy, S: Fn(Num, u8) -> String + Copy>(
    area: Rect,
    c: &Curve,
    calc: C,
    show: S,
) -> (r: Option<Plot>)
    requires
        show::ready(calc, show),
    ensures
        forall|m: Model, w: Printer| #[trigger]
            show::writes(calc, show, m, w) ==> plot_view(r) == graph_of(m, w, area, c@),
        r is Some <==> drawable(area, c@),
{
    if c.dt.len() == 0 || c.ymax.is_at_most(num(ZERO)) || c.window.is_at_most(num(ZERO))
        || area.width == 0 || area.height == 0 {
        return None;
    }
    let a = Axes {
        dots: 2 * area.width as u32,
        rows: 4 * area.height as u32,
        ymax: c.ymax,
        span: num::add_up(c.dt, calc),
        window: c.window,
    };
    let tops = find_tops(a, c.vals, c.dt, calc);
    let bars = find_bars(&tops, a.dots, calc);
    let tick = calc(Calc::Product(calc(Calc::Whole(a.rows as u64)), num(TICK))).max(num(TWO));
    let mut marks = find_grid(a, c.grid, calc, show);
    push_bars(&mut marks, &bars, c.tone);
    push_ticks(&mut marks, &tops, c.stall, tick);
    Some(Plot { width: a.dots, height: a.rows, marks })
}

/// The gridlines for an observed peak: every multiple of the round step up to
/// and including the first one that is not below the peak.
pub open spec fn gridlines(m: Model, scale: Num) -> Seq<Num> {
    if num(TEN).at_most(scale) {
        let step = m(Calc::Decade(scale));
        let top = m(Calc::Product(m(Calc::Ceil(m(Calc::Quotient(scale, step)))), step));
        Seq::new(
            m(Calc::Quotient(top, step)).whole(),
            |i: int| m(Calc::Product(m(Calc::Whole((i + 1) as u64)), step)),
        )
    } else {
        seq![]
    }
}

/// What the full height stands for: 10% above the highest gridline. Without
/// gridlines, 15% above the peak and at least ten.
pub open spec fn headroom(m: Model, scale: Num) -> Num {
    if num(TEN).at_most(scale) {
        let step = m(Calc::Decade(scale));
        let top = m(Calc::Product(m(Calc::Ceil(m(Calc::Quotient(scale, step)))), step));
        m(Calc::Product(top, num(ONE_10)))
    } else {
        m(Calc::Product(scale, num(ONE_15))).larger(num(TEN))
    }
}

/// Calibration gridlines for an observed peak: every multiple of the round step
/// up to and including the first one that is not below the peak, with the scale
/// topped 10% above the highest gridline.
pub fn grid_for_scale<C: Fn(Calc) -> Num + Copy>(scale: Num, calc: C) -> (r: (Vec<Num>, Num))
    requires
        num::total(calc),
    ensures
        forall|m: Model| #[trigger] num::models(calc, m) ==> r.0@ == gridlines(m, scale),
        forall|m: Model| #[trigger] num::models(calc, m) ==> r.1 == headroom(m, scale),
{
    let mut lines: Vec<Num> = Vec::new();
    if !num(TEN).is_at_most(scale) {
        proof {
            assert(lines@ =~= seq![]);
        }
        return (lines, calc(Calc::Product(scale, num(ONE_15))).max(num(TEN)));
    }
    let step = calc(Calc::Decade(scale));
    let top = calc(Calc::Product(calc(Calc::Ceil(calc(Calc::Quotient(scale, step)))), step));
    let n: u64 = calc(Calc::Quotient(top, step)).to_count();
    let mut i: u64 = 0;
    proof {
        assert forall|m: Model| #[trigger] num::models(calc, m) implies lines@ == gridlines(
            m,
            scale,
        ).take(0) by {
            assert(lines@ =~= gridlines(m, scale).take(0));
        }
    }
    while i < n
        invariant
            i <= n,
            num::total(calc),
            forall|m: Model| #[trigger]
                num::models(calc, m) ==> step == m(Calc::Decade(scale)) && gridlines(m, scale).len()
                    == n && lines@ == gridlines(m, scale).take(i as int),
            num(TEN).at_most(scale),
        decreases n - i,
    {
        let ghost before = lines@;
        let k = calc(Calc::Whole(i + 1));
        lines.push(calc(Calc::Product(k, step)));
        i = i + 1;
        proof {
            assert forall|m: Model| #[trigger] num::models(calc, m) implies lines@ == gridlines(
                m,
                scale,
            ).take(i as int) by {
                assert(lines@ =~= gridlines(m, scale).take(i as int));
            }
        }
    }
    proof {
        assert forall|m: Model| #[trigger] num::models(calc, m) implies lines@ == gridlines(
            m,
            scale,
        ) by {
            assert(gridlines(m, scale).take(n as int) =~= gridlines(m, scale));
        }
    }
    (lines, calc(Calc::Product(top, num(ONE_10))))
}

/// The newest sample reaches the right edge.
pub proof fn law_graph_touches_the_present(m: Model, tops: Seq<(Num, Num)>, dots: nat)
    requires
        tops.len() > 0,
        tops.last().0.whole() < dots <= u32::MAX,
    ensures
        bars_of(m, tops, dots).len() > 0,
        bars_of(m, tops, dots).last().0 == m(Calc::Whole((dots - 1) as u64)),
{
    let h = hold(m, tops.last(), dots);
    assert(bars_of(m, tops, dots).last() == h[h.len() - 1]);
}

/// No sample stands outside of the axis.
pub proof fn law_columns_stay_on_the_axis(m: Model, a: Axes, x: Num)
    requires
        num(ZERO).at_most(a.last(m)),
        !m(
            Calc::Difference(
                a.last(m),
                m(
                    Calc::Product(
                        m(Calc::Quotient(m(Calc::Difference(a.span, x)), a.window)),
                        a.last(m),
                    ),
                ),
            ),
        ).nan(),
    ensures
        num(ZERO).at_most(a.column(m, x)),
        a.column(m, x).at_most(a.last(m)),
{
}

/// No bar reaches the upper edge.
pub proof fn law_bars_keep_headroom(m: Model, a: Axes, v: Num)
    requires
        !m(Calc::Product(m(Calc::Whole(a.rows as u64)), num(HEADROOM))).nan(),
    ensures
        a.height(m, v).at_most(m(Calc::Product(m(Calc::Whole(a.rows as u64)), num(HEADROOM)))),
{
}

/// Between two samples stands at most one bar per dot.
pub proof fn law_one_bar_per_dot(m: Model, a: (Num, Num), b: (Num, Num), x: Num, dots: nat)
    ensures
        climb(m, a, b, x, dots).len() <= dots,
    decreases dots,
{
    if dots > 0 && x.below(b.0) {
        law_one_bar_per_dot(m, a, b, m(Calc::Sum(x, num(ONE))), (dots - 1) as nat);
    }
}

/// Without flagged intervals there is no red tick.
pub proof fn law_ticks_mark_flagged_intervals(
    tops: Seq<(Num, Num)>,
    stall: Option<Seq<bool>>,
    tick: Num,
)
    requires
        forall|i: int| 0 <= i < tops.len() ==> !#[trigger] is_flagged(stall, i),
    ensures
        tick_marks(tops, stall, tick).len() == 0,
    decreases tops.len(),
{
    if tops.len() > 0 {
        assert(!is_flagged(stall, tops.len() - 1));
        law_ticks_mark_flagged_intervals(tops.drop_last(), stall, tick);
    }
}

/// Steps that change nothing: a number less itself is nothing, nothing over
/// something is nothing, nothing times anything is nothing, and adding nothing
/// keeps a number.
pub open spec fn settles(m: Model) -> bool {
    &&& forall|x: Num| !x.nan() ==> #[trigger] m(Calc::Difference(x, x)) == num(ZERO)
    &&& forall|x: Num| x.positive() ==> #[trigger] m(Calc::Quotient(num(ZERO), x)) == num(ZERO)
    &&& forall|x: Num| #[trigger] m(Calc::Product(x, num(ZERO))) == num(ZERO)
    &&& forall|x: Num| #[trigger] m(Calc::Sum(x, num(ZERO))) == x
}

/// A bar of a height stands in a column.
pub open spec fn stands(p: PlotView, x: Num, h: Num, tone: Tone) -> bool {
    p.marks.contains(MarkView::Stroke { x1: x, y1: num(ZERO), x2: x, y2: h, tone })
}

proof fn lemma_wall_starts(m: Model, tops: Seq<(Num, Num)>, dots: nat, i: int)
    requires
        settles(m),
        dots > 0,
        0 <= i < tops.len() - 1,
        tops[i].0.below(tops[i + 1].0),
    ensures
        walls(m, tops, dots).contains((tops[i].0, tops[i].1.larger(num(ONE)))),
    decreases tops.len(),
{
    let bar = (tops[i].0, tops[i].1.larger(num(ONE)));
    let t = tops.drop_last();
    let (a, b) = (tops[tops.len() - 2], tops[tops.len() - 1]);
    let last = climb(m, a, b, a.0, dots);
    let before = walls(m, t, dots);
    if i < tops.len() - 2 {
        assert(t[i] == tops[i] && t[i + 1] == tops[i + 1]);
        lemma_wall_starts(m, t, dots, i);
        let k = choose|k: int| 0 <= k < before.len() && before[k] == bar;
        assert((before + last)[k] == bar);
    } else {
        let run = m(Calc::Difference(b.0, a.0)).larger(num(ONE));
        assert(run.positive());
        assert(m(Calc::Difference(a.0, a.0)) == num(ZERO));
        assert(m(Calc::Quotient(num(ZERO), run)) == num(ZERO));
        assert(slope(m, a, b, a.0) == bar);
        assert(last[0] == bar);
        assert((before + last)[before.len() as int] == bar);
    }
}

proof fn lemma_bar_is_painted(
    p: PlotView,
    head: Seq<MarkView>,
    bars: Seq<(Num, Num)>,
    tail: Seq<MarkView>,
    tone: Tone,
    b: (Num, Num),
)
    requires
        p.marks == head + bar_marks(bars, tone) + tail,
        bars.contains(b),
    ensures
        stands(p, b.0, b.1, tone),
{
    let k = choose|k: int| 0 <= k < bars.len() && bars[k] == b;
    assert(p.marks[head.len() + k] == upright(b.0, b.1, tone));
}

/// Where an interval's column is left of the next one's, the bar in it has the
/// height of the interval's value, and one dot at least. The newest interval's
/// bar starts on the dot that its column falls on.
pub proof fn law_bars_have_the_height_of_their_values(
    m: Model,
    w: Printer,
    area: Rect,
    c: CurveView,
    i: int,
)
    requires
        settles(m),
        drawable(area, c),
        0 <= i < c.vals.len(),
    ensures
        ({
            let a = axes_of(m, area, c);
            let x = a.column(m, cum(m, c.dt, i as nat));
            let h = a.height(m, c.vals[i]).larger(num(ONE));
            graph_of(m, w, area, c) matches Some(p) && {
                &&& i + 1 < c.vals.len() && x.below(a.column(m, cum(m, c.dt, (i + 1) as nat)))
                    ==> stands(p, x, h, c.tone)
                &&& i + 1 == c.vals.len() && x.whole() < a.dots ==> stands(
                    p,
                    m(Calc::Whole(x.whole() as u64)),
                    h,
                    c.tone,
                )
            }
        }),
{
    let a = axes_of(m, area, c);
    let tops = tops_of(m, a, c.vals, c.dt);
    let p = plot_of(m, w, area, c);
    let x = a.column(m, cum(m, c.dt, i as nat));
    let h = a.height(m, c.vals[i]).larger(num(ONE));
    let bars = bars_of(m, tops, a.dots as nat);
    let head = grid_marks(m, w, a, c.grid, lowest(c.grid));
    let tick = m(Calc::Product(m(Calc::Whole(a.rows as u64)), num(TICK))).larger(num(TWO));
    let tail = tick_marks(tops, c.stall, tick);
    assert(tops[i] == (x, a.height(m, c.vals[i])));
    if i + 1 < c.vals.len() && x.below(a.column(m, cum(m, c.dt, (i + 1) as nat))) {
        lemma_wall_starts(m, tops, a.dots as nat, i);
        let wall = walls(m, tops, a.dots as nat);
        let k = choose|k: int| 0 <= k < wall.len() && wall[k] == (x, h);
        assert(bars[k] == (x, h));
        lemma_bar_is_painted(p, head, bars, tail, c.tone, (x, h));
    }
    if i + 1 == c.vals.len() && x.whole() < a.dots {
        let wall = walls(m, tops, a.dots as nat);
        let b = (m(Calc::Whole(x.whole() as u64)), h);
        assert(tops.last() == tops[i]);
        assert(hold(m, tops.last(), a.dots as nat)[0] == b);
        assert(bars[wall.len() as int] == b);
        lemma_bar_is_painted(p, head, bars, tail, c.tone, b);
    }
}

/// Products and quotients by something positive keep the order.
pub open spec fn keeps_order(m: Model) -> bool {
    &&& forall|a: Num, b: Num, c: Num|
        #![trigger m(Calc::Product(a, c)), m(Calc::Product(b, c))]
        a.at_most(b) && num(ZERO).at_most(c) ==> m(Calc::Product(a, c)).at_most(
            m(Calc::Product(b, c)),
        )
    &&& forall|a: Num, b: Num, c: Num|
        #![trigger m(Calc::Quotient(a, c)), m(Calc::Quotient(b, c))]
        a.at_most(b) && c.positive() ==> m(Calc::Quotient(a, c)).at_most(m(Calc::Quotient(b, c)))
}

/// A higher value has no lower bar.
pub proof fn law_higher_values_have_no_lower_bars(m: Model, a: Axes, v: Num, u: Num)
    requires
        keeps_order(m),
        a.ymax.positive(),
        num(ZERO).at_most(m(Calc::Whole(a.rows as u64))),
        v.at_most(u),
    ensures
        a.height(m, v).at_most(a.height(m, u)),
{
    let tall = m(Calc::Whole(a.rows as u64));
    let (p, q) = (m(Calc::Quotient(v, a.ymax)), m(Calc::Quotient(u, a.ymax)));
    assert(p.at_most(q));
    let (x, y) = (m(Calc::Product(p, tall)), m(Calc::Product(q, tall)));
    assert(x.at_most(y));
    assert(m(Calc::Product(x, num(HEADROOM))).at_most(m(Calc::Product(y, num(HEADROOM)))));
    let top = m(Calc::Product(tall, num(HEADROOM)));
    assert(top.at_most(m(Calc::Product(tall, num(HEADROOM))))) by {
        assert(tall.at_most(tall));
    }
}

/// A value of the full scale has a bar of the full height below the headroom,
/// and nothing has none.
pub proof fn law_bars_fill_their_scale(m: Model, a: Axes)
    requires
        a.ymax.positive(),
        m(Calc::Quotient(a.ymax, a.ymax)) == num(ONE),
        m(Calc::Quotient(num(ZERO), a.ymax)) == num(ZERO),
        forall|x: Num| #[trigger] m(Calc::Product(num(ONE), x)) == x,
        forall|x: Num| #[trigger] m(Calc::Product(num(ZERO), x)) == num(ZERO),
        num(ZERO).at_most(m(Calc::Product(m(Calc::Whole(a.rows as u64)), num(HEADROOM)))),
    ensures
        a.height(m, a.ymax) == m(Calc::Product(m(Calc::Whole(a.rows as u64)), num(HEADROOM))),
        a.height(m, num(ZERO)) == num(ZERO),
{
}

/// A flagged interval has a red tick in its column.
pub proof fn law_flagged_intervals_have_ticks(
    tops: Seq<(Num, Num)>,
    stall: Option<Seq<bool>>,
    tick: Num,
    i: int,
)
    requires
        0 <= i < tops.len(),
        is_flagged(stall, i),
    ensures
        tick_marks(tops, stall, tick).contains(upright(tops[i].0, tick, Tone::Red)),
    decreases tops.len(),
{
    let t = tops.drop_last();
    let few = tick_marks(t, stall, tick);
    let all = tick_marks(tops, stall, tick);
    let mark = upright(tops[i].0, tick, Tone::Red);
    if i < t.len() {
        law_flagged_intervals_have_ticks(t, stall, tick, i);
        assert(t[i] == tops[i]);
        let k = choose|k: int| 0 <= k < few.len() && few[k] == mark;
        assert(all[k] == mark);
    } else {
        assert(all[few.len() as int] == mark);
    }
}

/// Taking more away leaves no more.
pub open spec fn takes_away(m: Model) -> bool {
    forall|a: Num, b: Num, c: Num|
        #![trigger m(Calc::Difference(c, a)), m(Calc::Difference(c, b))]
        a.at_most(b) && !c.nan() ==> m(Calc::Difference(c, b)).at_most(m(Calc::Difference(c, a)))
}

/// Time runs from left to right: a later point in time stands no further left.
pub proof fn law_time_runs_to_the_right(m: Model, a: Axes, x: Num, y: Num)
    requires
        keeps_order(m),
        takes_away(m),
        a.window.positive(),
        num(ZERO).at_most(a.last(m)),
        !a.span.nan(),
        x.at_most(y),
    ensures
        a.column(m, x).at_most(a.column(m, y)),
{
    let last = a.last(m);
    let (p, q) = (m(Calc::Difference(a.span, x)), m(Calc::Difference(a.span, y)));
    assert(q.at_most(p));
    let (r, s) = (m(Calc::Quotient(p, a.window)), m(Calc::Quotient(q, a.window)));
    assert(s.at_most(r));
    let (t, u) = (m(Calc::Product(r, last)), m(Calc::Product(s, last)));
    assert(u.at_most(t));
    assert(m(Calc::Difference(last, t)).at_most(m(Calc::Difference(last, u))));
}

/// The present is at the right edge.
pub proof fn law_the_present_is_at_the_right_edge(m: Model, a: Axes)
    requires
        settles(m),
        forall|x: Num| #[trigger] m(Calc::Product(num(ZERO), x)) == num(ZERO),
        forall|x: Num| #[trigger] m(Calc::Difference(x, num(ZERO))) == x,
        a.window.positive(),
        num(ZERO).at_most(a.last(m)),
        !a.span.nan(),
    ensures
        a.column(m, a.span) == a.last(m),
{
    assert(m(Calc::Difference(a.span, a.span)) == num(ZERO));
    assert(m(Calc::Quotient(num(ZERO), a.window)) == num(ZERO));
}

// ---- gridlines -------------------------------------------------------------------

/// A round step below the peak: multiples of it are exact, and `k` of them are
/// the first that are not below the peak.
pub open spec fn steps_up(
    m: Model,
    scale: Num,
    unit: spec_fn(int) -> Num,
    k: int,
) -> bool {
    &&& 0 < k <= u64::MAX
    &&& m(Calc::Decade(scale)) == unit(1)
    &&& scale.at_most(unit(k))
    &&& unit(k - 1).below(scale)
    &&& forall|a: int, b: int| 0 <= a <= b <= k ==> (#[trigger] unit(a)).at_most(#[trigger] unit(b))
    &&& forall|j: int|
        0 <= j <= k ==> m(Calc::Product(m(Calc::Whole(j as u64)), unit(1))) == #[trigger] unit(j)
    &&& m(Calc::Ceil(m(Calc::Quotient(scale, unit(1))))) == m(Calc::Whole(k as u64))
    &&& m(Calc::Quotient(unit(k), unit(1))).whole() == k
}

/// The gridlines of a peak from ten on are the multiples of the step from one
/// on; only the highest is not below the peak, and the graph is a tenth higher
/// than it.
pub proof fn law_gridlines_climb_to_the_peak(
    m: Model,
    scale: Num,
    unit: spec_fn(int) -> Num,
    k: int,
)
    requires
        num(0x4024_0000_0000_0000).at_most(scale),
        steps_up(m, scale, unit, k),
    ensures
        ({
            let g = gridlines(m, scale);
            &&& g.len() == k
            &&& forall|i: int| 0 <= i < k ==> #[trigger] g[i] == unit(i + 1)
            &&& scale.at_most(g[k - 1])
            &&& forall|i: int| 0 <= i < k - 1 ==> (#[trigger] g[i]).below(scale)
            &&& headroom(m, scale) == m(Calc::Product(g[k - 1], num(0x3ff1_9999_9999_999a)))
        }),
{
    let g = gridlines(m, scale);
    assert(m(Calc::Product(m(Calc::Whole(k as u64)), unit(1))) == unit(k));
    assert(g.len() == k);
    assert forall|i: int| 0 <= i < k implies #[trigger] g[i] == unit(i + 1) by {
        assert(m(Calc::Product(m(Calc::Whole((i + 1) as u64)), unit(1))) == unit(i + 1));
    }
    assert forall|i: int| 0 <= i < k - 1 implies (#[trigger] g[i]).below(scale) by {
        assert(unit(i + 1).at_most(unit(k - 1)));
        assert(unit(k - 1).below(scale));
    }
}

/// A peak below ten has no gridline, and a graph that is not lower than ten.
pub proof fn law_small_peaks_have_no_gridlines(m: Model, scale: Num)
    requires
        scale.below(num(0x4024_0000_0000_0000)),
    ensures
        gridlines(m, scale).len() == 0,
        num(0x4024_0000_0000_0000).at_most(headroom(m, scale)),
        !m(Calc::Product(scale, num(0x3ff2_6666_6666_6666))).nan() ==> m(
            Calc::Product(scale, num(0x3ff2_6666_6666_6666)),
        ).at_most(headroom(m, scale)),
{
}

/// A gridline is drawn at the level of its number, and labeled with it; the
/// lowest one also with the unit.
pub proof fn law_gridlines_say_their_numbers(
    m: Model,
    w: Printer,
    area: Rect,
    c: CurveView,
    i: int,
)
    requires
        0 <= i < c.grid.len(),
    ensures
        ({
            let a = axes_of(m, area, c);
            let low = lowest(c.grid);
            plot_of(m, w, area, c).marks.contains(
                MarkView::Note {
                    x: num(0x4000_0000_0000_0000),
                    y: m(Calc::Sum(a.level(m, c.grid[i]), num(0x4000_0000_0000_0000))),
                    text: grid_label(m, w, c.grid[i], low),
                    tone: Tone::Dim,
                },
            )
        }),
        c.grid[i].below(num(0x408f_4000_0000_0000)) ==> grid_number(m, w, c.grid[i]) == w(
            c.grid[i],
            0,
        ),
        num(0x412e_8480_0000_0000).at_most(c.grid[i]) ==> grid_number(m, w, c.grid[i]) == w(
            m(Calc::Quotient(c.grid[i], num(0x412e_8480_0000_0000))),
            0,
        ) + "M"@,
        num(0x408f_4000_0000_0000).at_most(c.grid[i]) && c.grid[i].below(
            num(0x412e_8480_0000_0000),
        ) ==> grid_number(m, w, c.grid[i]) == w(
            m(Calc::Quotient(c.grid[i], num(0x408f_4000_0000_0000))),
            0,
        ) + "k"@,
{
    let a = axes_of(m, area, c);
    let low = lowest(c.grid);
    lemma_grid_has_note(m, w, a, c.grid, low, i);
    let g = grid_marks(m, w, a, c.grid, low);
    let note = MarkView::Note {
        x: num(0x4000_0000_0000_0000),
        y: m(Calc::Sum(a.level(m, c.grid[i]), num(0x4000_0000_0000_0000))),
        text: grid_label(m, w, c.grid[i], low),
        tone: Tone::Dim,
    };
    let k = choose|k: int| 0 <= k < g.len() && g[k] == note;
    assert(plot_of(m, w, area, c).marks[k] == note);
}

proof fn lemma_grid_has_note(m: Model, w: Printer, a: Axes, grid: Seq<Num>, low: Num, i: int)
    requires
        0 <= i < grid.len(),
    ensures
        grid_marks(m, w, a, grid, low).contains(
            MarkView::Note {
                x: num(0x4000_0000_0000_0000),
                y: m(Calc::Sum(a.level(m, grid[i]), num(0x4000_0000_0000_0000))),
                text: grid_label(m, w, grid[i], low),
                tone: Tone::Dim,
            },
        ),
    decreases grid.len(),
{
    let t = grid.drop_last();
    let last = grid_mark(m, w, a, grid.last(), low);
    let all = grid_marks(m, w, a, grid, low);
    let note = MarkView::Note {
        x: num(0x4000_0000_0000_0000),
        y: m(Calc::Sum(a.level(m, grid[i]), num(0x4000_0000_0000_0000))),
        text: grid_label(m, w, grid[i], low),
        tone: Tone::Dim,
    };
    if i < t.len() {
        lemma_grid_has_note(m, w, a, t, low, i);
        let g = grid_marks(m, w, a, t, low);
        assert(t[i] == grid[i]);
        let k = choose|k: int| 0 <= k < g.len() && g[k] == note;
        assert(all[k] == note);
    } else {
        assert(last[last.len() - 1] == note);
        assert(all[all.len() - 1] == note);
    }
}

// ---- between two samples -------------------------------------------------------------

/// Two samples in their columns, and a column between them with the height that
/// a straight line has there.
pub struct Rise {
    pub x0: int,
    pub h0: int,
    pub x1: int,
    pub h1: int,
    pub x: int,
    pub h: int,
}

impl Rise {
    pub open spec fn straight(self, limit: int) -> bool {
        &&& 0 <= self.x0 <= self.x < self.x1 <= limit
        &&& 0 <= self.h0 <= limit
        &&& 0 <= self.h1 <= limit
        &&& 1 <= self.h <= limit
        &&& (self.h - self.h0) * (self.x1 - self.x0) == (self.h1 - self.h0) * (self.x - self.x0)
    }
}

/// Between two samples the bars stand on a straight line from the one's height
/// to the other's.
pub proof fn law_bars_stand_on_a_line(
    m: Model,
    dot: spec_fn(int) -> Num,
    tall: spec_fn(int) -> Num,
    limit: int,
    r: Rise,
)
    requires
        crate::derive::exact(m, dot, limit),
        crate::derive::exact(m, tall, limit),
        crate::quantile::proportional(m, tall, dot, limit),
        dot(1) == num(0x3ff0_0000_0000_0000),
        tall(1) == num(0x3ff0_0000_0000_0000),
        r.straight(limit),
    ensures
        slope(m, (dot(r.x0), tall(r.h0)), (dot(r.x1), tall(r.h1)), dot(r.x)) == (
            dot(r.x),
            tall(r.h),
        ),
{
    let (run, part) = (r.x1 - r.x0, r.x - r.x0);
    let (rise, step) = (r.h1 - r.h0, r.h - r.h0);
    assert(m(Calc::Difference(dot(r.x1), dot(r.x0))) == dot(run));
    assert(dot(1).at_most(dot(run)) && dot(run).at_most(dot(run)));
    assert(dot(run).at_most(dot(1)) <==> run <= 1);
    assert(dot(run).larger(num(ONE)) == dot(run));
    assert(m(Calc::Difference(dot(r.x), dot(r.x0))) == dot(part));
    assert(m(Calc::Difference(tall(r.h1), tall(r.h0))) == tall(rise));
    assert(rise * part == run * step) by (nonlinear_arith)
        requires
            step * run == rise * part,
    ;
    assert(m(Calc::Product(tall(rise), m(Calc::Quotient(dot(part), dot(run))))) == tall(step));
    assert(-limit <= step <= limit);
    assert(m(Calc::Sum(tall(r.h0), tall(step))) == tall(r.h0 + step));
    assert(tall(1).at_most(tall(r.h)) && tall(r.h).at_most(tall(r.h)));
    assert(tall(r.h).at_most(tall(1)) <==> r.h <= 1);
}

/// Between two samples there is a bar on every dot.
pub proof fn law_every_dot_has_a_bar(
    m: Model,
    dot: spec_fn(int) -> Num,
    limit: int,
    a: (Num, Num),
    b: (Num, Num),
    x: int,
    end: int,
    dots: nat,
    k: int,
)
    requires
        crate::derive::exact(m, dot, limit),
        dot(1) == num(0x3ff0_0000_0000_0000),
        0 <= x <= end <= limit,
        1 <= limit,
        b.0 == dot(end),
        end - x <= dots,
        0 <= k < end - x,
    ensures
        climb(m, a, b, dot(x), dots).len() == end - x,
        climb(m, a, b, dot(x), dots)[k].0 == dot(x + k),
    decreases dots,
{
    assert(dot(x).at_most(dot(end)) && !dot(end).at_most(dot(x)));
    assert(dot(x).below(b.0));
    assert(m(Calc::Sum(dot(x), dot(1))) == dot(x + 1));
    let rest = climb(m, a, b, dot(x + 1), (dots - 1) as nat);
    assert(climb(m, a, b, dot(x), dots) == seq![slope(m, a, b, dot(x))] + rest);
    if x + 1 < end {
        law_every_dot_has_a_bar(
            m,
            dot,
            limit,
            a,
            b,
            x + 1,
            end,
            (dots - 1) as nat,
            if k > 0 {
                k - 1
            } else {
                0
            },
        );
    } else {
        assert(dot(end).at_most(dot(end)));
        assert(!dot(x + 1).below(b.0));
    }
}

/// The full scale takes up 96% of the height, and a tick at the lower edge 8% of
/// it, but two dots at least.
pub proof fn law_scale_and_ticks_have_their_share(
    m: Model,
    w: Printer,
    area: Rect,
    c: CurveView,
    i: int,
)
    requires
        drawable(area, c),
        0 <= i < c.vals.len(),
        is_flagged(c.stall, i),
        4 * area.height <= u32::MAX,
    ensures
        ({
            let a = axes_of(m, area, c);
            let rows = m(Calc::Whole((4 * area.height) as u64));
            &&& forall|v: Num|
                !m(Calc::Product(rows, num(0x3fee_b851_eb85_1eb8))).nan() ==> (#[trigger] a.height(
                    m,
                    v,
                )).at_most(m(Calc::Product(rows, num(0x3fee_b851_eb85_1eb8))))
            &&& stands(
                plot_of(m, w, area, c),
                a.column(m, cum(m, c.dt, i as nat)),
                m(Calc::Product(rows, num(0x3fb4_7ae1_47ae_147b))).larger(
                    num(0x4000_0000_0000_0000),
                ),
                Tone::Red,
            )
        }),
{
    let a = axes_of(m, area, c);
    let tops = tops_of(m, a, c.vals, c.dt);
    let rows = m(Calc::Whole((4 * area.height) as u64));
    let tick = m(Calc::Product(rows, num(0x3fb4_7ae1_47ae_147b))).larger(
        num(0x4000_0000_0000_0000),
    );
    assert(a.rows as u64 == (4 * area.height) as u64);
    law_flagged_intervals_have_ticks(tops, c.stall, tick, i);
    let ticks = tick_marks(tops, c.stall, tick);
    let mark = upright(tops[i].0, tick, Tone::Red);
    let k = choose|k: int| 0 <= k < ticks.len() && ticks[k] == mark;
    let p = plot_of(m, w, area, c);
    assert(p.marks[p.marks.len() - ticks.len() + k] == mark);
}

} // verus!
