//! Figures as text.
//!
//! Writing a number with a fixed count of decimals is asked of a printer, a
//! function that the caller hands in; contracts speak of every function that
//! describes it. Which unit and how many decimals a figure gets is decided here.
use crate::derive::{Pool, PoolView};
use crate::num;
use crate::num::{num, Calc, Model, Num, HUNDRED, MILLION, SIGN, TEN, THOUSAND};
use crate::text::{decimal, join2, same, to_chars};
use crate::text;
use vstd::prelude::*;

verus! {

/// What a printer writes: the text of each number with so many decimals.
pub type Printer = spec_fn(Num, u8) -> Seq<char>;

/// The printer may be asked for any number.
pub open spec fn printable<S: Fn(Num, u8) -> String>(show: S) -> bool {
    forall|n: Num, d: u8| #[trigger] show.requires((n, d))
}

/// Every text of the printer is the one that `w` gives.
pub open spec fn prints<S: Fn(Num, u8) -> String>(show: S, w: Printer) -> bool {
    forall|n: Num, d: u8, r: String| #[trigger] show.ensures((n, d), r) ==> r@ == w(n, d)
}

/// A calculator and a printer may be asked for anything.
pub open spec fn ready<C: Fn(Calc) -> Num, S: Fn(Num, u8) -> String>(calc: C, show: S) -> bool {
    num::total(calc) && printable(show)
}

/// `m` and `w` describe a calculator and a printer.
pub open spec fn writes<C: Fn(Calc) -> Num, S: Fn(Num, u8) -> String>(
    calc: C,
    show: S,
    m: Model,
    w: Printer,
) -> bool {
    num::models(calc, m) && prints(show, w)
}

/// Stands where there is no data.
pub open spec fn missing() -> Seq<char> {
    "\u{2014}"@
}

fn write_missing() -> (r: String)
    ensures
        r@ == missing(),
{
    String::from_str("\u{2014}")
}

/// The number without its sign.
pub open spec fn unsigned(v: Num) -> Num {
    num(v.magnitude() as u64)
}

fn abs(v: Num) -> (r: Num)
    ensures
        r == unsigned(v),
{
    if v.bits >= SIGN {
        num(v.bits - SIGN)
    } else {
        v
    }
}

/// A whole number; thousands in k with one decimal.
pub open spec fn number_text(m: Model, w: Printer, v: Option<Num>) -> Seq<char> {
    match v {
        Some(x) => if num(THOUSAND).at_most(unsigned(x)) {
            w(m(Calc::Quotient(x, num(THOUSAND))), 1) + "k"@
        } else {
            w(x, 0)
        },
        None => missing(),
    }
}

pub fn fmt_num<C: Fn(Calc) -> Num + Copy, S: Fn(Num, u8) -> String + Copy>(
    v: Option<Num>,
    calc: C,
    show: S,
) -> (r: String)
    requires
        ready(calc, show),
    ensures
        forall|m: Model, w: Printer| #[trigger]
            writes(calc, show, m, w) ==> r@ == number_text(m, w, v),
{
    match v {
        Some(x) => {
            if num(THOUSAND).is_at_most(abs(x)) {
                let mut out = show(calc(Calc::Quotient(x, num(THOUSAND))), 1);
                out.append("k");
                out
            } else {
                show(x, 0)
            }
        },
        None => write_missing(),
    }
}

/// A whole percentage.
pub open spec fn percent_text(m: Model, w: Printer, v: Option<Num>) -> Seq<char> {
    match v {
        Some(x) => w(m(Calc::Product(x, num(HUNDRED))), 0) + "%"@,
        None => missing(),
    }
}

pub fn fmt_pct<C: Fn(Calc) -> Num + Copy, S: Fn(Num, u8) -> String + Copy>(
    v: Option<Num>,
    calc: C,
    show: S,
) -> (r: String)
    requires
        ready(calc, show),
    ensures
        forall|m: Model, w: Printer| #[trigger]
            writes(calc, show, m, w) ==> r@ == percent_text(m, w, v),
{
    match v {
        Some(x) => {
            let mut out = show(calc(Calc::Product(x, num(HUNDRED))), 0);
            out.append("%");
            out
        },
        None => write_missing(),
    }
}

/// A token count: millions in M with one decimal, thousands in k.
pub open spec fn tokens_text(m: Model, w: Printer, v: Num) -> Seq<char> {
    if num(MILLION).at_most(v) {
        w(m(Calc::Quotient(v, num(MILLION))), 1) + "M"@
    } else if num(THOUSAND).at_most(v) {
        w(m(Calc::Quotient(v, num(THOUSAND))), 0) + "k"@
    } else {
        w(v, 0)
    }
}

/// 115904 -> "116k", 2843392 -> "2.8M"
pub fn fmt_tokens<C: Fn(Calc) -> Num + Copy, S: Fn(Num, u8) -> String + Copy>(
    v: Num,
    calc: C,
    show: S,
) -> (r: String)
    requires
        ready(calc, show),
    ensures
        forall|m: Model, w: Printer| #[trigger]
            writes(calc, show, m, w) ==> r@ == tokens_text(m, w, v),
{
    if num(MILLION).is_at_most(v) {
        let mut out = show(calc(Calc::Quotient(v, num(MILLION))), 1);
        out.append("M");
        out
    } else if num(THOUSAND).is_at_most(v) {
        let mut out = show(calc(Calc::Quotient(v, num(THOUSAND))), 0);
        out.append("k");
        out
    } else {
        show(v, 0)
    }
}

/// A pool's share, with its counts where they are known and the pool has a
/// size: "20% (116k / 1.3M)".
pub open spec fn pool_text(m: Model, w: Printer, p: PoolView) -> Seq<char> {
    let share = percent_text(m, w, Some(p.usage));
    match (p.used, p.total) {
        (Some(u), Some(t)) => if t.positive() {
            let counts = share + " ("@ + tokens_text(m, w, u) + " / "@ + tokens_text(m, w, t);
            if p.unit == "slots"@ {
                counts + " slots)"@
            } else {
                counts + ")"@
            }
        } else {
            share
        },
        _ => share,
    }
}

/// "20% (116k / 1.3M)" when counts are known, else just the percentage.
pub fn pool_value<C: Fn(Calc) -> Num + Copy, S: Fn(Num, u8) -> String + Copy>(
    p: &Pool,
    calc: C,
    show: S,
) -> (r: String)
    requires
        ready(calc, show),
    ensures
        forall|m: Model, w: Printer| #[trigger]
            writes(calc, show, m, w) ==> r@ == pool_text(m, w, p@),
{
    let mut out = fmt_pct(Some(p.usage), calc, show);
    match (p.used, p.total) {
        (Some(u), Some(t)) => {
            if t.is_positive() {
                let a = fmt_tokens(u, calc, show);
                let b = fmt_tokens(t, calc, show);
                out.append(" (");
                out.append(a.as_str());
                out.append(" / ");
                out.append(b.as_str());
                if same(p.unit, "slots") {
                    out.append(" slots)");
                } else {
                    out.append(")");
                }
            }
        },
        _ => {},
    }
    out
}

/// A time in seconds: below ten in ms, from ten on with one decimal, from a
/// hundred on whole.
pub open spec fn seconds_text(m: Model, w: Printer, v: Option<Num>) -> Seq<char> {
    match v {
        Some(x) => if num(HUNDRED).at_most(x) {
            w(x, 0) + "s"@
        } else if num(TEN).at_most(x) {
            w(x, 1) + "s"@
        } else {
            w(m(Calc::Product(x, num(THOUSAND))), 0) + "ms"@
        },
        None => missing(),
    }
}

pub fn fmt_secs<C: Fn(Calc) -> Num + Copy, S: Fn(Num, u8) -> String + Copy>(
    v: Option<Num>,
    calc: C,
    show: S,
) -> (r: String)
    requires
        ready(calc, show),
    ensures
        forall|m: Model, w: Printer| #[trigger]
            writes(calc, show, m, w) ==> r@ == seconds_text(m, w, v),
{
    match v {
        Some(x) => {
            if num(HUNDRED).is_at_most(x) {
                let mut out = show(x, 0);
                out.append("s");
                out
            } else if num(TEN).is_at_most(x) {
                let mut out = show(x, 1);
                out.append("s");
                out
            } else {
                let mut out = show(calc(Calc::Product(x, num(THOUSAND))), 0);
                out.append("ms");
                out
            }
        },
        None => write_missing(),
    }
}

/// A whole number, or the missing marker.
pub open spec fn whole_text(w: Printer, v: Option<Num>) -> Seq<char> {
    match v {
        Some(x) => w(x, 0),
        None => missing(),
    }
}

pub fn tok_gauge<S: Fn(Num, u8) -> String + Copy>(v: Option<Num>, show: S) -> (r: String)
    requires
        printable(show),
    ensures
        forall|w: Printer| #[trigger] prints(show, w) ==> r@ == whole_text(w, v),
{
    match v {
        Some(x) => show(x, 0),
        None => write_missing(),
    }
}

/// A rate in tokens per second, or the missing marker.
pub open spec fn rate_text(w: Printer, v: Option<Num>) -> Seq<char> {
    match v {
        Some(x) => w(x, 0) + " tok/s"@,
        None => missing(),
    }
}

pub fn tok<S: Fn(Num, u8) -> String + Copy>(v: Option<Num>, show: S) -> (r: String)
    requires
        printable(show),
    ensures
        forall|w: Printer| #[trigger] prints(show, w) ==> r@ == rate_text(w, v),
{
    match v {
        Some(x) => {
            let mut out = show(x, 0);
            out.append(" tok/s");
            out
        },
        None => write_missing(),
    }
}

/// Texts one behind the other, with a separator between them.
pub open spec fn joined(s: Seq<Seq<char>>, sep: Seq<char>) -> Seq<char>
    decreases s.len(),
{
    if s.len() == 0 {
        seq![]
    } else if s.len() == 1 {
        s[0]
    } else {
        joined(s.drop_last(), sep) + sep + s.last()
    }
}

pub fn join(v: &Vec<String>, sep: &str) -> (r: String)
    ensures
        r@ == joined(text::texts(v@), sep@),
{
    let ghost all = text::texts(v@);
    let mut out = String::new();
    let mut i: usize = 0;
    proof {
        assert(out@ =~= joined(all.take(0), sep@));
    }
    while i < v.len()
        invariant
            i <= v.len(),
            all == text::texts(v@),
            out@ == joined(all.take(i as int), sep@),
        decreases v.len() - i,
    {
        proof {
            assert(all.take(i + 1).drop_last() =~= all.take(i as int));
        }
        if i > 0 {
            out.append(sep);
        }
        let ghost before = out@;
        out.append(v[i].as_str());
        proof {
            if i == 0 {
                assert(before + all[0] =~= all[0]);
            }
        }
        i = i + 1;
    }
    proof {
        assert(all.take(all.len() as int) =~= all);
    }
    out
}

/// Two digits, with a leading zero.
pub open spec fn two_digits(n: nat) -> Seq<char> {
    if n < 10 {
        "0"@ + text::digits(n)
    } else {
        text::digits(n)
    }
}

/// A duration: hours and minutes, minutes and seconds, or seconds.
pub open spec fn duration_text(s: nat) -> Seq<char> {
    if s >= 3600 {
        text::digits(s / 3600) + "h"@ + two_digits((s % 3600) / 60) + "m"@
    } else if s >= 60 {
        text::digits(s / 60) + "m"@ + text::digits(s % 60) + "s"@
    } else {
        text::digits(s) + "s"@
    }
}

/// Writes a duration of whole seconds.
pub fn fmt_dur(s: u64) -> (r: String)
    ensures
        r@ == duration_text(s as nat),
{
    if s >= 3600 {
        let mut out = decimal(s / 3600);
        let mins: u64 = (s % 3600) / 60;
        let mut tail = decimal(mins);
        if mins < 10 {
            tail = join2("0", tail.as_str());
        }
        out.append("h");
        out.append(tail.as_str());
        out.append("m");
        out
    } else if s >= 60 {
        let mut out = decimal(s / 60);
        let tail = decimal(s % 60);
        out.append("m");
        out.append(tail.as_str());
        out.append("s");
        out
    } else {
        let mut out = decimal(s);
        out.append("s");
        out
    }
}

/// So many spaces.
pub open spec fn spaces(n: int) -> Seq<char> {
    Seq::new(
        if n > 0 {
            n as nat
        } else {
            0
        },
        |i: int| ' ',
    )
}

/// Pushed to the right end of a column of `n` characters.
pub open spec fn right(s: Seq<char>, n: int) -> Seq<char> {
    spaces(n - s.len()) + s
}

/// Filled up to a column of `n` characters.
pub open spec fn left(s: Seq<char>, n: int) -> Seq<char> {
    s + spaces(n - s.len())
}

/// How many characters a string has.
pub fn count_chars(s: &str) -> (r: usize)
    ensures
        r == s@.len(),
{
    to_chars(s).len()
}

/// A character so many times.
pub fn repeat(c: char, n: usize) -> (r: String)
    ensures
        r@ == Seq::new(n as nat, |i: int| c),
{
    let mut out = String::new();
    let mut i: usize = 0;
    while i < n
        invariant
            i <= n,
            out@ =~= Seq::new(i as nat, |j: int| c),
        decreases n - i,
    {
        out.push(c);
        i = i + 1;
    }
    out
}

pub fn pad_left(s: &str, n: usize) -> (r: String)
    ensures
        r@ == right(s@, n as int),
{
    let len = count_chars(s);
    let fill: usize = if len < n {
        n - len
    } else {
        0
    };
    let gap = repeat(' ', fill);
    proof {
        assert(gap@ =~= spaces(n - s@.len()));
    }
    join2(gap.as_str(), s)
}

pub fn pad_right(s: &str, n: usize) -> (r: String)
    ensures
        r@ == left(s@, n as int),
{
    let len = count_chars(s);
    let fill: usize = if len < n {
        n - len
    } else {
        0
    };
    let gap = repeat(' ', fill);
    proof {
        assert(gap@ =~= spaces(n - s@.len()));
    }
    join2(s, gap.as_str())
}

/// A padded text is as wide as its column, or as the text where that is wider.
pub proof fn law_padding_fills_the_column(s: Seq<char>, n: int)
    ensures
        s.len() <= n ==> right(s, n).len() == n && left(s, n).len() == n,
        s.len() >= n ==> right(s, n) == s && left(s, n) == s,
{
    if s.len() >= n {
        assert(right(s, n) =~= s);
        assert(left(s, n) =~= s);
    }
}

/// A text is made of a label with a value behind it, and of what is around them.
pub open spec fn made_of(
    t: Seq<char>,
    before: Seq<char>,
    label: Seq<char>,
    value: Seq<char>,
    after: Seq<char>,
) -> bool {
    t == before + label + value + after
}

/// A text says a value behind a label.
pub open spec fn says(t: Seq<char>, label: Seq<char>, value: Seq<char>) -> bool {
    exists|before: Seq<char>, after: Seq<char>| #[trigger]
        made_of(t, before, label, value, after)
}

/// Labels, each with its value behind it.
pub open spec fn woven(parts: Seq<(Seq<char>, Seq<char>)>) -> Seq<char>
    decreases parts.len(),
{
    if parts.len() == 0 {
        seq![]
    } else {
        woven(parts.drop_last()) + parts.last().0 + parts.last().1
    }
}

/// A woven text says each of its values behind its label.
pub proof fn law_woven_texts_say_their_parts(parts: Seq<(Seq<char>, Seq<char>)>, i: int)
    requires
        0 <= i < parts.len(),
    ensures
        says(woven(parts), parts[i].0, parts[i].1),
    decreases parts.len(),
{
    let t = parts.drop_last();
    let (l, v) = (parts[i].0, parts[i].1);
    let whole = woven(parts);
    if i == parts.len() - 1 {
        assert(whole =~= woven(t) + l + v + Seq::<char>::empty());
        assert(made_of(whole, woven(t), l, v, seq![]));
    } else {
        law_woven_texts_say_their_parts(t, i);
        let (a, b) = choose|a: Seq<char>, b: Seq<char>| #[trigger] made_of(woven(t), a, l, v, b);
        let rest = b + parts.last().0 + parts.last().1;
        assert(whole =~= a + l + v + rest);
        assert(made_of(whole, a, l, v, rest));
    }
}

pub proof fn lemma_weave2(t: Seq<char>, a: (Seq<char>, Seq<char>), b: (Seq<char>, Seq<char>))
    requires
        t == a.0 + a.1 + b.0 + b.1,
    ensures
        says(t, a.0, a.1),
        says(t, b.0, b.1),
{
    let parts = seq![a, b];
    reveal_with_fuel(woven, 3);
    assert(parts.drop_last() =~= seq![a]);
    assert(seq![a].drop_last() =~= seq![]);
    assert(woven(parts) =~= t);
    law_woven_texts_say_their_parts(parts, 0);
    law_woven_texts_say_their_parts(parts, 1);
}

pub proof fn lemma_weave3(
    t: Seq<char>,
    a: (Seq<char>, Seq<char>),
    b: (Seq<char>, Seq<char>),
    c: (Seq<char>, Seq<char>),
)
    requires
        t == a.0 + a.1 + b.0 + b.1 + c.0 + c.1,
    ensures
        says(t, a.0, a.1),
        says(t, b.0, b.1),
        says(t, c.0, c.1),
{
    let parts = seq![a, b, c];
    reveal_with_fuel(woven, 4);
    assert(parts.drop_last() =~= seq![a, b]);
    assert(seq![a, b].drop_last() =~= seq![a]);
    assert(seq![a].drop_last() =~= seq![]);
    assert(woven(parts) =~= t);
    law_woven_texts_say_their_parts(parts, 0);
    law_woven_texts_say_their_parts(parts, 1);
    law_woven_texts_say_their_parts(parts, 2);
}

pub proof fn lemma_says_more(t: Seq<char>, note: Seq<char>, label: Seq<char>, value: Seq<char>)
    requires
        says(t, label, value),
    ensures
        says(t + note, label, value),
{
    let (a, b) = choose|a: Seq<char>, b: Seq<char>| #[trigger]
        made_of(t, a, label, value, b);
    assert(t + note =~= a + label + value + (b + note));
    assert(made_of(t + note, a, label, value, b + note));
}

pub proof fn lemma_says_behind(front: Seq<char>, t: Seq<char>, label: Seq<char>, value: Seq<char>)
    requires
        says(t, label, value),
    ensures
        says(front + t, label, value),
{
    let (a, b) = choose|a: Seq<char>, b: Seq<char>| #[trigger]
        made_of(t, a, label, value, b);
    assert(front + t =~= (front + a) + label + value + b);
    assert(made_of(front + t, front + a, label, value, b));
}

pub proof fn lemma_weave4_behind(
    t: Seq<char>,
    z: Seq<char>,
    a: (Seq<char>, Seq<char>),
    b: (Seq<char>, Seq<char>),
    c: (Seq<char>, Seq<char>),
    d: (Seq<char>, Seq<char>),
)
    requires
        t == z + a.0 + a.1 + b.0 + b.1 + c.0 + c.1 + d.0 + d.1,
    ensures
        says(t, a.0, a.1),
        says(t, b.0, b.1),
        says(t, c.0, c.1),
        says(t, d.0, d.1),
        forall|l: Seq<char>, v: Seq<char>| says(z, l, v) ==> #[trigger] says(t, l, v),
{
    let x = a.0 + a.1 + b.0 + b.1;
    let y = c.0 + c.1 + d.0 + d.1;
    let zx = z + x;
    assert(zx =~= z + a.0 + a.1 + b.0 + b.1);
    assert(t =~= zx + y);
    lemma_weave2(x, a, b);
    lemma_weave2(y, c, d);
    lemma_says_behind(z, x, a.0, a.1);
    lemma_says_behind(z, x, b.0, b.1);
    lemma_says_more(zx, y, a.0, a.1);
    lemma_says_more(zx, y, b.0, b.1);
    lemma_says_behind(zx, y, c.0, c.1);
    lemma_says_behind(zx, y, d.0, d.1);
    assert forall|l: Seq<char>, v: Seq<char>| says(z, l, v) implies #[trigger] says(t, l, v) by {
        lemma_says_more(z, x, l, v);
        lemma_says_more(zx, y, l, v);
    }
}

/// So many of a unit, with the unit's sign behind them.
pub open spec fn counts_in(
    m: Model,
    w: Printer,
    t: Seq<char>,
    v: Num,
    unit: Num,
    decimals: u8,
    sign: Seq<char>,
) -> bool {
    t == w(m(Calc::Quotient(v, unit)), decimals) + sign
}

/// Counts are told in the largest of the units one, thousand and million that
/// they reach; a figure below zero has the unit of its size.
pub proof fn law_counts_have_the_unit_they_reach(m: Model, w: Printer, v: Num)
    ensures
        ({
            let thousand = num(0x408f_4000_0000_0000);
            let million = num(0x412e_8480_0000_0000);
            &&& million.at_most(v) ==> counts_in(m, w, tokens_text(m, w, v), v, million, 1, "M"@)
            &&& thousand.at_most(v) && !million.at_most(v) ==> counts_in(
                m,
                w,
                tokens_text(m, w, v),
                v,
                thousand,
                0,
                "k"@,
            )
            &&& v.below(thousand) ==> tokens_text(m, w, v) == w(v, 0)
            &&& thousand.at_most(v) ==> counts_in(
                m,
                w,
                number_text(m, w, Some(v)),
                v,
                thousand,
                1,
                "k"@,
            )
            &&& v.at_most(num(0xc08f_4000_0000_0000)) ==> counts_in(
                m,
                w,
                number_text(m, w, Some(v)),
                v,
                thousand,
                1,
                "k"@,
            )
            &&& v.below(thousand) && num(0xc08f_4000_0000_0000).below(v) ==> number_text(
                m,
                w,
                Some(v),
            ) == w(v, 0)
        }),
{
}

/// A time is told in whole milliseconds below ten seconds, in seconds with one
/// decimal below a hundred, and in whole seconds from there on.
pub proof fn law_times_have_the_unit_they_reach(m: Model, w: Printer, v: Num)
    ensures
        ({
            let ten = num(0x4024_0000_0000_0000);
            let hundred = num(0x4059_0000_0000_0000);
            let thousand = num(0x408f_4000_0000_0000);
            &&& hundred.at_most(v) ==> seconds_text(m, w, Some(v)) == w(v, 0) + "s"@
            &&& ten.at_most(v) && v.below(hundred) ==> seconds_text(m, w, Some(v)) == w(v, 1)
                + "s"@
            &&& v.below(ten) ==> seconds_text(m, w, Some(v)) == w(
                m(Calc::Product(v, thousand)),
                0,
            ) + "ms"@
        }),
{
}

/// A share of everything is told as a hundred per cent: the share times a
/// hundred, whole.
pub proof fn law_shares_are_told_in_per_cent(m: Model, w: Printer, v: Num)
    ensures
        percent_text(m, w, Some(v)) == w(m(Calc::Product(v, num(0x4059_0000_0000_0000))), 0)
            + "%"@,
        percent_text(m, w, None) == "\u{2014}"@,
        number_text(m, w, None) == "\u{2014}"@,
        seconds_text(m, w, None) == "\u{2014}"@,
{
}

/// A pool's text says its share, and in brackets what is used of what there is.
pub proof fn law_pool_text_says_used_of_total(m: Model, w: Printer, p: PoolView, u: Num, t: Num)
    requires
        p.used == Some(u),
        p.total == Some(t),
        num(0).below(t),
    ensures
        made_of(
            pool_text(m, w, p),
            percent_text(m, w, Some(p.usage)),
            " ("@ + tokens_text(m, w, u),
            " / "@ + tokens_text(m, w, t),
            if p.unit == "slots"@ {
                " slots)"@
            } else {
                ")"@
            },
        ),
{
    let share = percent_text(m, w, Some(p.usage));
    let (a, b) = (tokens_text(m, w, u), tokens_text(m, w, t));
    assert(t.positive());
    let end = if p.unit == "slots"@ {
        " slots)"@
    } else {
        ")"@
    };
    assert(share + (" ("@ + a) + (" / "@ + b) + end =~= share + " ("@ + a + " / "@ + b + end);
}

/// A duration is told in hours and minutes from an hour on, in minutes and
/// seconds from a minute on, and in seconds below that.
pub proof fn law_durations_tell_their_parts(h: nat, min: nat, s: nat)
    requires
        min < 60,
        s < 60,
    ensures
        h > 0 ==> duration_text(h * 3600 + min * 60 + s) == text::digits(h) + "h"@ + (if min < 10 {
            "0"@ + text::digits(min)
        } else {
            text::digits(min)
        }) + "m"@,
        h == 0 && min > 0 ==> duration_text(min * 60 + s) == text::digits(min) + "m"@
            + text::digits(s) + "s"@,
        duration_text(s) == text::digits(s) + "s"@,
{
    let t = h * 3600 + min * 60 + s;
    if h > 0 {
        assert(t / 3600 == h && (t % 3600) / 60 == min);
    }
    assert((min * 60 + s) / 60 == min && (min * 60 + s) % 60 == s);
}

} // verus!
