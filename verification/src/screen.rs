//! What is put on the screen: areas, styled text, and the operations that a
//! terminal carries out in order.
use crate::text::{join2, part, to_chars, to_text};
use ratatui::layout::{Constraint, Direction, Layout};
use vstd::prelude::*;

verus! {

/// A rectangle of character cells.
#[derive(Clone, Copy, PartialEq, Eq, Structural, Debug)]
pub struct Rect {
    pub x: u16,
    pub y: u16,
    pub width: u16,
    pub height: u16,
}

impl Rect {
    /// The rectangle ends where coordinates do.
    pub open spec fn fits(self) -> bool {
        self.x + self.width <= u16::MAX && self.y + self.height <= u16::MAX
    }

    /// No cell lies outside of the other rectangle.
    pub open spec fn within(self, outer: Rect) -> bool {
        &&& outer.x <= self.x
        &&& outer.y <= self.y
        &&& self.x + self.width <= outer.x + outer.width
        &&& self.y + self.height <= outer.y + outer.height
    }

    /// What a frame of one cell on every side leaves free.
    pub open spec fn framed(self) -> Rect {
        Rect {
            x: if self.width > 0 && self.x < u16::MAX {
                (self.x + 1) as u16
            } else {
                self.x
            },
            y: if self.height > 0 && self.y < u16::MAX {
                (self.y + 1) as u16
            } else {
                self.y
            },
            width: if self.width > 2 {
                (self.width - 2) as u16
            } else {
                0
            },
            height: if self.height > 2 {
                (self.height - 2) as u16
            } else {
                0
            },
        }
    }

    /// What a frame of one cell on every side leaves free.
    pub fn inner(self) -> (r: Rect)
        ensures
            r == self.framed(),
            self.fits() ==> r.fits() && r.within(self),
    {
        Rect {
            x: if self.width > 0 && self.x < u16::MAX {
                self.x + 1
            } else {
                self.x
            },
            y: if self.height > 0 && self.y < u16::MAX {
                self.y + 1
            } else {
                self.y
            },
            width: if self.width > 2 {
                self.width - 2
            } else {
                0
            },
            height: if self.height > 2 {
                self.height - 2
            } else {
                0
            },
        }
    }
}

/// A part of a part is a part.
pub proof fn law_within_is_transitive(a: Rect, b: Rect, c: Rect)
    requires
        a.within(b),
        b.within(c),
    ensures
        a.within(c),
{
}

/// The direction that an area is divided along.
#[derive(Clone, Copy, PartialEq, Eq, Structural, Debug)]
pub enum Axis {
    /// From top to bottom.
    Down,
    /// From left to right.
    Across,
}

/// What a part of an area asks for along the axis.
#[derive(Clone, Copy, PartialEq, Eq, Structural, Debug)]
pub enum Size {
    /// So many cells.
    Length(u16),
    /// At least so many cells.
    Min(u16),
    /// So many percent of the area.
    Percent(u16),
    /// This fraction of the area.
    Ratio(u32, u32),
}

/// One part of an area that is divided along an axis: inside the area, and as
/// wide as it across the axis.
pub open spec fn part_of(p: Rect, area: Rect, axis: Axis) -> bool {
    p.within(area) && match axis {
        Axis::Down => p.x == area.x && p.width == area.width,
        Axis::Across => p.y == area.y && p.height == area.height,
    }
}

/// A division of an area: one part for each size.
pub open spec fn divides(parts: Seq<Rect>, area: Rect, axis: Axis, n: nat) -> bool {
    parts.len() == n && forall|i: int|
        0 <= i < parts.len() ==> part_of(#[trigger] parts[i], area, axis)
}

/// The divisions that `ratatui::layout::Layout::split` can come to for an area,
/// a direction, a gap and the sizes asked for. Where the sizes cannot all be
/// met there are several, and which one a call returns depends on the state of
/// the solver.
pub uninterp spec fn layouts(area: Rect, axis: Axis, gap: u16, sizes: Seq<Size>) -> Set<Seq<Rect>>;

/// A division of an area as `Layout::split` makes them.
pub open spec fn laid_out(
    parts: Seq<Rect>,
    area: Rect,
    axis: Axis,
    gap: u16,
    sizes: Seq<Size>,
) -> bool {
    layouts(area, axis, gap, sizes).contains(parts) && divides(parts, area, axis, sizes.len())
}

/// `ratatui::layout::Layout::split` divides an area along a direction, with a
/// gap between the parts: it returns one part for each size, in order, none of
/// which leaves the area, and each as wide as the area across the direction.
/// How the cells are shared out along it is left unsaid, beyond that it is one
/// of the divisions for these arguments.
#[verifier::external_body]
pub(crate) fn split(area: Rect, axis: Axis, gap: u16, sizes: &Vec<Size>) -> (r: Vec<Rect>)
    requires
        area.fits(),
    ensures
        layouts(area, axis, gap, sizes@).contains(r@),
        divides(r@, area, axis, sizes@.len()),
{
    let along = match axis {
        Axis::Down => Direction::Vertical,
        Axis::Across => Direction::Horizontal,
    };
    let wanted = sizes.iter().map(|s| match *s {
        Size::Length(n) => Constraint::Length(n),
        Size::Min(n) => Constraint::Min(n),
        Size::Percent(n) => Constraint::Percentage(n),
        Size::Ratio(a, b) => Constraint::Ratio(a, b),
    });
    let room = ratatui::layout::Rect::new(area.x, area.y, area.width, area.height);
    let parts = Layout::new(along, wanted).spacing(gap).split(room);
    parts.iter().map(|p| Rect { x: p.x, y: p.y, width: p.width, height: p.height }).collect()
}

/// The part that a colour plays in a theme.
#[derive(Clone, Copy, PartialEq, Eq, Structural, Debug)]
pub enum Tone {
    Fg,
    Dim,
    Accent,
    Good,
    Warn,
    Bad,
    /// The first series.
    First,
    /// The second series.
    Second,
    /// Red in every theme.
    Red,
}

#[derive(Clone, Copy, PartialEq, Eq, Structural, Debug)]
pub struct Style {
    pub tone: Tone,
    pub bold: bool,
}

/// A style of regular weight.
#[verifier::allow_in_spec]
pub fn plain(tone: Tone) -> (r: Style)
    returns
        (Style { tone, bold: false }),
{
    Style { tone, bold: false }
}

/// A bold style.
#[verifier::allow_in_spec]
pub fn bold(tone: Tone) -> (r: Style)
    returns
        (Style { tone, bold: true }),
{
    Style { tone, bold: true }
}

/// Text in one style.
#[derive(Debug)]
pub struct Span {
    pub text: String,
    pub style: Style,
}

#[verifier::ext_equal]
pub struct SpanView {
    pub text: Seq<char>,
    pub style: Style,
}

impl View for Span {
    type V = SpanView;

    open spec fn view(&self) -> SpanView {
        SpanView { text: self.text@, style: self.style }
    }
}

/// Text in a style.
pub open spec fn styled(text: Seq<char>, style: Style) -> SpanView {
    SpanView { text, style }
}

/// A span of the given text.
pub fn span(text: &str, style: Style) -> (r: Span)
    ensures
        r@ == styled(text@, style),
{
    Span { text: String::from_str(text), style }
}

/// A span of a text behind a prefix.
pub fn span2(a: &str, b: &str, style: Style) -> (r: Span)
    ensures
        r@ == styled(a@ + b@, style),
{
    Span { text: join2(a, b), style }
}

/// A span of a text between a prefix and a suffix.
pub fn span3(a: &str, b: &str, c: &str, style: Style) -> (r: Span)
    ensures
        r@ == styled(a@ + b@ + c@, style),
{
    let mut text = join2(a, b);
    text.append(c);
    Span { text, style }
}

/// A line of spans.
#[derive(Debug)]
pub struct Line {
    pub spans: Vec<Span>,
}

pub type LineView = Seq<SpanView>;

impl View for Line {
    type V = LineView;

    open spec fn view(&self) -> LineView {
        Seq::new(self.spans@.len(), |i: int| self.spans@[i]@)
    }
}

/// Lines as spans.
pub open spec fn lines_view(lines: Seq<Line>) -> Seq<LineView> {
    Seq::new(lines.len(), |i: int| lines[i]@)
}

impl Line {
    pub fn new() -> (r: Line)
        ensures
            r@ == Seq::<SpanView>::empty(),
    {
        let r = Line { spans: Vec::new() };
        proof {
            assert(r@ =~= Seq::<SpanView>::empty());
        }
        r
    }

    pub fn add(&mut self, s: Span)
        ensures
            final(self)@ == old(self)@.push(s@),
    {
        let ghost before = self@;
        self.spans.push(s);
        proof {
            assert(self@ =~= before.push(s@));
        }
    }
}

/// A line of one span.
pub fn line1(a: Span) -> (r: Line)
    ensures
        r@ == seq![a@],
{
    let r = Line { spans: vec![a] };
    proof {
        assert(r@ =~= seq![a@]);
    }
    r
}

/// A line of two spans.
pub fn line2(a: Span, b: Span) -> (r: Line)
    ensures
        r@ == seq![a@, b@],
{
    let r = Line { spans: vec![a, b] };
    proof {
        assert(r@ =~= seq![a@, b@]);
    }
    r
}

/// A line of three spans.
pub fn line3(a: Span, b: Span, c: Span) -> (r: Line)
    ensures
        r@ == seq![a@, b@, c@],
{
    let r = Line { spans: vec![a, b, c] };
    proof {
        assert(r@ =~= seq![a@, b@, c@]);
    }
    r
}

/// A line of four spans.
pub fn line4(a: Span, b: Span, c: Span, d: Span) -> (r: Line)
    ensures
        r@ == seq![a@, b@, c@, d@],
{
    let r = Line { spans: vec![a, b, c, d] };
    proof {
        assert(r@ =~= seq![a@, b@, c@, d@]);
    }
    r
}

/// The characters of a line.
pub open spec fn plain_text(line: LineView) -> Seq<char>
    decreases line.len(),
{
    if line.len() == 0 {
        seq![]
    } else {
        line[0].text + plain_text(line.drop_first())
    }
}

/// The first `n` characters of a longer line, and an ellipsis in the style of
/// the character that it stands for.
pub open spec fn clipped(line: LineView, n: nat) -> LineView
    decreases line.len(),
{
    if line.len() == 0 {
        seq![]
    } else if line[0].text.len() <= n {
        seq![line[0]] + clipped(line.drop_first(), (n - line[0].text.len()) as nat)
    } else {
        seq![styled(line[0].text.take(n as int) + "\u{2026}"@, line[0].style)]
    }
}

/// The line cut to a width: what does not fit gives way to an ellipsis.
pub open spec fn cut(line: LineView, width: nat) -> LineView {
    if width == 0 {
        seq![]
    } else if plain_text(line).len() <= width {
        line
    } else {
        clipped(line, (width - 1) as nat)
    }
}

proof fn lemma_plain_text_push(line: LineView, s: SpanView)
    ensures
        plain_text(line.push(s)) == plain_text(line) + s.text,
    decreases line.len(),
{
    if line.len() == 0 {
        assert(line.push(s).drop_first() =~= seq![]);
        assert(plain_text(line.push(s).drop_first()) =~= seq![]);
        assert(plain_text(line.push(s)) =~= plain_text(line) + s.text);
    } else {
        assert(line.push(s).drop_first() =~= line.drop_first().push(s));
        lemma_plain_text_push(line.drop_first(), s);
        assert(plain_text(line.push(s)) =~= plain_text(line) + s.text);
    }
}

/// Whether the line has more than `width` characters.
fn is_longer(line: &Line, width: usize) -> (r: bool)
    ensures
        r == (plain_text(line@).len() > width),
{
    let mut left = width;
    let mut i: usize = 0;
    proof {
        assert(line@.take(0) =~= seq![]);
    }
    while i < line.spans.len()
        invariant
            i <= line.spans.len(),
            left == width - plain_text(line@.take(i as int)).len(),
        decreases line.spans.len() - i,
    {
        let n = to_chars(line.spans[i].text.as_str()).len();
        proof {
            assert(line@.take(i + 1) =~= line@.take(i as int).push(line@[i as int]));
            lemma_plain_text_push(line@.take(i as int), line@[i as int]);
        }
        if n > left {
            proof {
                lemma_plain_text_grows(line@, i + 1);
            }
            return true;
        }
        left = left - n;
        i = i + 1;
    }
    proof {
        assert(line@.take(line@.len() as int) =~= line@);
    }
    false
}

proof fn lemma_plain_text_grows(line: LineView, i: int)
    requires
        0 <= i <= line.len(),
    ensures
        plain_text(line.take(i)).len() <= plain_text(line).len(),
    decreases line.len(),
{
    if line.len() > 0 && i > 0 {
        lemma_plain_text_grows(line.drop_first(), i - 1);
        assert(line.take(i).drop_first() =~= line.drop_first().take(i - 1));
    }
}

/// Truncates a styled line to `width` characters, appending an ellipsis when
/// cut.
pub fn truncate_line(line: Line, width: usize) -> (r: Line)
    ensures
        r@ == cut(line@, width as nat),
{
    if width == 0 {
        return Line::new();
    }
    if !is_longer(&line, width) {
        return line;
    }
    let ghost all = line@;
    let mut out = Line::new();
    let mut remaining: usize = width - 1;
    let mut rest = line.spans;
    proof {
        assert(all =~= spans_view(rest@));
        assert(out@ + clipped(all, remaining as nat) =~= clipped(all, (width - 1) as nat));
    }
    while rest.len() > 0
        invariant
            cut(line@, width as nat) == clipped(all, (width - 1) as nat),
            out@ + clipped(spans_view(rest@), remaining as nat) == clipped(all, (width - 1) as nat),
        decreases rest.len(),
    {
        let ghost before = spans_view(rest@);
        let s = rest.remove(0);
        proof {
            assert(before[0] == s@);
            assert(before.drop_first() =~= spans_view(rest@));
        }
        let cs = to_chars(s.text.as_str());
        let ghost done = out@;
        if cs.len() <= remaining {
            let ghost left = remaining as nat;
            remaining = remaining - cs.len();
            out.add(s);
            proof {
                assert(out@ + clipped(spans_view(rest@), remaining as nat) =~= done + (seq![
                    before[0],
                ] + clipped(before.drop_first(), (left - s@.text.len()) as nat)));
            }
        } else {
            let head = to_text(part(cs.as_slice(), 0, remaining));
            proof {
                assert(head@ =~= s@.text.take(remaining as int));
            }
            out.add(span2(head.as_str(), "\u{2026}", s.style));
            proof {
                assert(out@ =~= done + seq![
                    styled(s@.text.take(remaining as int) + "\u{2026}"@, s@.style),
                ]);
            }
            return out;
        }
    }
    proof {
        assert(out@ + Seq::<SpanView>::empty() =~= out@);
    }
    out
}

/// Spans as text and style.
pub open spec fn spans_view(s: Seq<Span>) -> LineView {
    Seq::new(s.len(), |i: int| s[i]@)
}

proof fn lemma_clipped(line: LineView, n: nat)
    requires
        plain_text(line).len() > n,
    ensures
        plain_text(clipped(line, n)) == plain_text(line).take(n as int) + "\u{2026}"@,
    decreases line.len(),
{
    let rest = line.drop_first();
    let c = clipped(line, n);
    if line[0].text.len() <= n {
        let left = (n - line[0].text.len()) as nat;
        lemma_clipped(rest, left);
        assert(c.drop_first() =~= clipped(rest, left));
        assert(plain_text(line).take(n as int) =~= line[0].text + plain_text(rest).take(
            left as int,
        ));
        assert(plain_text(c) =~= plain_text(line).take(n as int) + "\u{2026}"@);
    } else {
        assert(c.drop_first() =~= seq![]);
        assert(plain_text(c.drop_first()) =~= seq![]);
        assert(plain_text(line).take(n as int) =~= line[0].text.take(n as int));
        assert(plain_text(c) =~= plain_text(line).take(n as int) + "\u{2026}"@);
    }
}

/// A cut line never exceeds its width. What fits stays; of anything longer the
/// first characters stay, with an ellipsis behind them.
pub proof fn law_cut_lines_fit(line: LineView, width: nat)
    ensures
        plain_text(cut(line, width)).len() <= width,
        plain_text(line).len() <= width ==> plain_text(cut(line, width)) == plain_text(line),
        plain_text(line).len() > width > 0 ==> plain_text(cut(line, width)) == plain_text(
            line,
        ).take(width - 1) + "\u{2026}"@,
{
    reveal_strlit("\u{2026}");
    if width == 0 {
        assert(plain_text(cut(line, width)) =~= seq![]);
        if plain_text(line).len() == 0 {
            assert(plain_text(line) =~= seq![]);
        }
    } else if plain_text(line).len() > width {
        lemma_clipped(line, (width - 1) as nat);
    }
}

} // verus!
