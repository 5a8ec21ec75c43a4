//! The detail row: queues, answer quality, health, and peaks.
use crate::derive::{Derived, DerivedView, Peaks, WIN_LABELS};
use crate::num::{num, Calc, Model, Num, ZERO};
use crate::once;
use crate::once::find_mean_stall;
use crate::panels;
use crate::panels::{block, truncate_all, Op, OpView};
use crate::screen;
use crate::screen::{
    bold, line1, line2, line3, plain, span, span2, truncate_line, Line, LineView, Rect, Span, Tone,
};
use crate::show;
use crate::show::{count_chars, fmt_num, fmt_pct, join, pad_right, tok, tok_gauge, Printer};
use crate::text::{decimal, join2};
use crate::text;
use vstd::prelude::*;

verus! {

// ---- key-value rows ---------------------------------------------------------

/// One aligned key-value row.
#[derive(Debug)]
pub struct Kv {
    pub key: String,
    pub value: String,
    pub gloss: String,
    /// The value's tone; that of plain text where there is none.
    pub tone: Option<Tone>,
}

#[verifier::ext_equal]
pub struct KvView {
    pub key: Seq<char>,
    pub value: Seq<char>,
    pub gloss: Seq<char>,
    pub tone: Option<Tone>,
}

impl View for Kv {
    type V = KvView;

    open spec fn view(&self) -> KvView {
        KvView { key: self.key@, value: self.value@, gloss: self.gloss@, tone: self.tone }
    }
}

pub open spec fn kvs_view(s: Seq<Kv>) -> Seq<KvView> {
    Seq::new(s.len(), |i: int| s[i]@)
}

/// A row of plain text.
pub open spec fn plain_kv(key: Seq<char>, value: Seq<char>, gloss: Seq<char>) -> KvView {
    KvView { key, value, gloss, tone: None }
}

/// A row whose value has a tone.
pub open spec fn colored_kv(
    key: Seq<char>,
    value: Seq<char>,
    gloss: Seq<char>,
    tone: Tone,
) -> KvView {
    KvView { key, value, gloss, tone: Some(tone) }
}

impl Kv {
    pub fn plain(key: &str, value: String, gloss: &str) -> (r: Kv)
        ensures
            r@ == plain_kv(key@, value@, gloss@),
    {
        Kv { key: String::from_str(key), value, gloss: String::from_str(gloss), tone: None }
    }

    pub fn colored(key: &str, value: String, gloss: &str, tone: Tone) -> (r: Kv)
        ensures
            r@ == colored_kv(key@, value@, gloss@, tone),
    {
        Kv { key: String::from_str(key), value, gloss: String::from_str(gloss), tone: Some(tone) }
    }

    /// A dim full-width line.
    pub fn gloss_only(gloss: &str) -> (r: Kv)
        ensures
            r@ == plain_kv(seq![], seq![], gloss@),
    {
        let r = Kv {
            key: String::new(),
            value: String::new(),
            gloss: String::from_str(gloss),
            tone: None,
        };
        proof {
            assert(r@ =~= plain_kv(seq![], seq![], gloss@));
        }
        r
    }
}

/// The longest key, and at least eight.
pub open spec fn key_width(s: Seq<KvView>) -> nat
    decreases s.len(),
{
    if s.len() == 0 {
        8
    } else if s.last().key.len() > key_width(s.drop_last()) {
        s.last().key.len()
    } else {
        key_width(s.drop_last())
    }
}

/// The longest value.
pub open spec fn value_width(s: Seq<KvView>) -> nat
    decreases s.len(),
{
    if s.len() == 0 {
        0
    } else if s.last().value.len() > value_width(s.drop_last()) {
        s.last().value.len()
    } else {
        value_width(s.drop_last())
    }
}

/// A row with its key and value in columns of the given widths.
pub open spec fn kv_line(e: KvView, kpad: nat, vpad: nat) -> LineView {
    if e.key.len() == 0 && e.value.len() == 0 {
        seq![screen::styled(" "@ + e.gloss, plain(Tone::Dim))]
    } else {
        seq![
            screen::styled(" "@ + show::left(e.key, kpad as int) + "  "@, plain(Tone::Fg)),
            screen::styled(
                show::left(e.value, vpad as int) + "  "@,
                bold(
                    match e.tone {
                        Some(t) => t,
                        None => Tone::Fg,
                    },
                ),
            ),
            screen::styled(e.gloss, plain(Tone::Dim)),
        ]
    }
}

/// Rows with the value column sized to the widest value, so that narrow panels
/// do not waste columns on padding.
pub open spec fn kv_rows(s: Seq<KvView>, width: nat) -> Seq<LineView> {
    Seq::new(
        s.len(),
        |i: int| screen::cut(kv_line(s[i], key_width(s), value_width(s)), width),
    )
}

fn find_widths(v: &Vec<Kv>) -> (r: (usize, usize))
    ensures
        r.0 == key_width(kvs_view(v@)),
        r.1 == value_width(kvs_view(v@)),
{
    let ghost all = kvs_view(v@);
    let mut k: usize = 8;
    let mut w: usize = 0;
    let mut i: usize = 0;
    while i < v.len()
        invariant
            i <= v.len(),
            all == kvs_view(v@),
            k == key_width(all.take(i as int)),
            w == value_width(all.take(i as int)),
        decreases v.len() - i,
    {
        proof {
            assert(all.take(i + 1).drop_last() =~= all.take(i as int));
        }
        let a = count_chars(v[i].key.as_str());
        let b = count_chars(v[i].value.as_str());
        if a > k {
            k = a;
        }
        if b > w {
            w = b;
        }
        i = i + 1;
    }
    proof {
        assert(all.take(all.len() as int) =~= all);
    }
    (k, w)
}

fn write_kv(e: &Kv, kpad: usize, vpad: usize) -> (r: Line)
    ensures
        r@ == kv_line(e@, kpad as nat, vpad as nat),
{
    if count_chars(e.key.as_str()) == 0 && count_chars(e.value.as_str()) == 0 {
        return line1(span2(" ", e.gloss.as_str(), plain(Tone::Dim)));
    }
    let key = pad_right(e.key.as_str(), kpad);
    let value = pad_right(e.value.as_str(), vpad);
    let mut head = join2(" ", key.as_str());
    head.append("  ");
    let tone = match e.tone {
        Some(t) => t,
        None => Tone::Fg,
    };
    line3(
        Span { text: head, style: plain(Tone::Fg) },
        span2(value.as_str(), "  ", bold(tone)),
        span(e.gloss.as_str(), plain(Tone::Dim)),
    )
}

/// Renders rows cut to a width.
pub fn kv_lines(v: &Vec<Kv>, width: usize) -> (r: Vec<Line>)
    ensures
        screen::lines_view(r@) == kv_rows(kvs_view(v@), width as nat),
{
    let ghost all = kvs_view(v@);
    let (kpad, vpad) = find_widths(v);
    let mut out: Vec<Line> = Vec::new();
    let mut i: usize = 0;
    while i < v.len()
        invariant
            i <= v.len(),
            out.len() == i,
            all == kvs_view(v@),
            kpad == key_width(all),
            vpad == value_width(all),
            forall|j: int|
                0 <= j < i ==> (#[trigger] out@[j])@ == screen::cut(
                    kv_line(all[j], kpad as nat, vpad as nat),
                    width as nat,
                ),
        decreases v.len() - i,
    {
        out.push(truncate_line(write_kv(&v[i], kpad, vpad), width));
        i = i + 1;
    }
    proof {
        assert(screen::lines_view(out@) =~= kv_rows(all, width as nat));
    }
    out
}

/// Values of one panel start in one column: every row's key field is as wide as
/// the widest key.
pub proof fn law_values_are_aligned(s: Seq<KvView>, i: int)
    requires
        0 <= i < s.len(),
        s[i].key.len() > 0 || s[i].value.len() > 0,
    ensures
        kv_line(s[i], key_width(s), value_width(s))[0].text.len() == key_width(s) + 3,
        kv_line(s[i], key_width(s), value_width(s))[1].text.len() == value_width(s) + 2,
{
    lemma_widths(s, i);
    reveal_strlit(" ");
    reveal_strlit("  ");
    show::law_padding_fills_the_column(s[i].key, key_width(s) as int);
    show::law_padding_fills_the_column(s[i].value, value_width(s) as int);
}

proof fn lemma_widths(s: Seq<KvView>, i: int)
    requires
        0 <= i < s.len(),
    ensures
        s[i].key.len() <= key_width(s),
        s[i].value.len() <= value_width(s),
    decreases s.len(),
{
    if i < s.len() - 1 {
        lemma_widths(s.drop_last(), i);
    }
}

// ---- queues -----------------------------------------------------------------

/// The count of a stage, or the missing marker.
pub open spec fn stage_text(m: Model, w: Printer, d: DerivedView, i: int) -> Seq<char> {
    if i < d.subqueues.len() {
        show::number_text(m, w, d.subqueues[i].1)
    } else {
        show::missing()
    }
}

/// Two stages under a label.
pub open spec fn stage_group(
    label: Seq<char>,
    a: Seq<char>,
    x: Seq<char>,
    b: Seq<char>,
    y: Seq<char>,
) -> Seq<LineView> {
    seq![
        seq![screen::styled(" "@ + label, plain(Tone::Dim))],
        seq![screen::styled("  "@ + a + " "@ + x + " \u{b7} "@ + b + " "@ + y, plain(Tone::Fg))],
    ]
}

/// The column on waiting lines.
pub open spec fn queue_lines(m: Model, w: Printer, d: Option<DerivedView>) -> Seq<LineView> {
    match d {
        Some(d) => {
            let l = stage_group(
                "prefill queues:"@,
                "bootstrap"@,
                stage_text(m, w, d, 0),
                "inflight"@,
                stage_text(m, w, d, 1),
            ) + stage_group(
                "decode queues:"@,
                "prealloc"@,
                stage_text(m, w, d, 2),
                "transfer"@,
                stage_text(m, w, d, 3),
            );
            if stage_text(m, w, d, 4).len() > 0 {
                l.push(
                    seq![
                        screen::styled(" grammar: "@ + stage_text(m, w, d, 4), plain(Tone::Fg)),
                    ],
                )
            } else {
                l
            }
        },
        None => seq![],
    }
}

fn write_stage<C: Fn(Calc) -> Num + Copy, S: Fn(Num, u8) -> String + Copy>(
    d: &Derived,
    i: usize,
    calc: C,
    show: S,
) -> (r: String)
    requires
        show::ready(calc, show),
    ensures
        forall|m: Model, w: Printer| #[trigger]
            show::writes(calc, show, m, w) ==> r@ == stage_text(m, w, d@, i as int),
{
    if i < d.subqueues.len() {
        fmt_num(d.subqueues[i].1, calc, show)
    } else {
        fmt_num(None, calc, show)
    }
}

fn write_group(a: &str, x: &str, b: &str, y: &str) -> (r: Line)
    ensures
        r@ == seq![
            screen::styled("  "@ + a@ + " "@ + x@ + " \u{b7} "@ + b@ + " "@ + y@, plain(Tone::Fg)),
        ],
{
    let mut text = join2("  ", a);
    text.append(" ");
    text.append(x);
    text.append(" \u{b7} ");
    text.append(b);
    text.append(" ");
    text.append(y);
    line1(Span { text, style: plain(Tone::Fg) })
}

pub fn queues_col_lines<C: Fn(Calc) -> Num + Copy, S: Fn(Num, u8) -> String + Copy>(
    d: Option<&Derived>,
    calc: C,
    show: S,
) -> (r: Vec<Line>)
    requires
        show::ready(calc, show),
    ensures
        forall|m: Model, w: Printer| #[trigger]
            show::writes(calc, show, m, w) ==> screen::lines_view(r@) == queue_lines(
                m,
                w,
                panels::seen(d),
            ),
        r@.len() <= 5,
{
    let mut out: Vec<Line> = Vec::new();
    if let Some(d) = d {
        let (a, b) = (write_stage(d, 0, calc, show), write_stage(d, 1, calc, show));
        let (e, f) = (write_stage(d, 2, calc, show), write_stage(d, 3, calc, show));
        let g = write_stage(d, 4, calc, show);
        out.push(line1(span(" prefill queues:", plain(Tone::Dim))));
        out.push(write_group("bootstrap", a.as_str(), "inflight", b.as_str()));
        out.push(line1(span(" decode queues:", plain(Tone::Dim))));
        out.push(write_group("prealloc", e.as_str(), "transfer", f.as_str()));
        if count_chars(g.as_str()) > 0 {
            out.push(line1(span2(" grammar: ", g.as_str(), plain(Tone::Fg))));
        }
        proof {
            reveal_strlit(" ");
            reveal_strlit("prefill queues:");
            reveal_strlit(" prefill queues:");
            reveal_strlit("decode queues:");
            reveal_strlit(" decode queues:");
            assert(" prefill queues:"@ =~= " "@ + "prefill queues:"@);
            assert(" decode queues:"@ =~= " "@ + "decode queues:"@);
        }
    }
    proof {
        assert forall|m: Model, w: Printer| #[trigger]
            show::writes(calc, show, m, w) implies screen::lines_view(out@) == queue_lines(
            m,
            w,
            panels::seen(d),
        ) by {
            assert(screen::lines_view(out@) =~= queue_lines(m, w, panels::seen(d)));
        }
    }
    out
}

// ---- quality ----------------------------------------------------------------

/// The rows on what makes the model feel fast or smart.
pub open spec fn quality_rows(m: Model, w: Printer, d: Option<DerivedView>) -> Seq<KvView> {
    match d {
        Some(d) => {
            let a = seq![
                plain_kv(
                    "cache hit"@,
                    show::percent_text(m, w, d.cache_hit),
                    "how much of each new prompt it already remembers \u{2014} high = fast starts"@,
                ),
                plain_kv(
                    "spec accept"@,
                    show::percent_text(m, w, d.spec_accept),
                    "how often it guesses its own next words right \u{2014} high = feels faster"@,
                ),
            ];
            let b = match d.spec_accept_len {
                Some(l) => a.push(
                    plain_kv("spec length"@, w(l, 2), "words gained per guess, on average"@),
                ),
                None => a,
            };
            let c = b.push(
                plain_kv(
                    "l2 dev\u{b7}host"@,
                    show::percent_text(m, w, d.l2_device) + " \u{b7} "@ + show::percent_text(
                        m,
                        w,
                        d.l2_host,
                    ),
                    "prompt portions served from GPU / host RAM"@,
                ),
            ).push(
                plain_kv(
                    "l2 wb\u{b7}rb"@,
                    show::number_text(m, w, d.l2_wb) + " \u{b7} "@ + show::number_text(
                        m,
                        w,
                        d.l2_rb,
                    ),
                    "tokens/s written to / read back from host tier"@,
                ),
            ).push(
                plain_kv(
                    "gen depth"@,
                    show::number_text(m, w, d.gen_progress) + " tok"@,
                    "how far into their answers the current requests are"@,
                ),
            );
            match d.new_token_ratio {
                Some(r) => c.push(
                    plain_kv(
                        "new-token ratio"@,
                        w(r, 2),
                        "scheduler policy knob (1.0 = default)"@,
                    ),
                ),
                None => c,
            }
        },
        None => seq![],
    }
}

fn push_kv(out: &mut Vec<Kv>, e: Kv)
    ensures
        kvs_view(final(out)@) == kvs_view(old(out)@).push(e@),
        final(out)@.len() == old(out)@.len() + 1,
{
    let ghost before = kvs_view(out@);
    out.push(e);
    proof {
        assert(kvs_view(out@) =~= before.push(e@));
    }
}

pub fn quality_col_kvs<C: Fn(Calc) -> Num + Copy, S: Fn(Num, u8) -> String + Copy>(
    d: Option<&Derived>,
    calc: C,
    show: S,
) -> (r: Vec<Kv>)
    requires
        show::ready(calc, show),
    ensures
        forall|m: Model, w: Printer| #[trigger]
            show::writes(calc, show, m, w) ==> kvs_view(r@) == quality_rows(m, w, panels::seen(d)),
        r@.len() <= 7,
{
    let mut out: Vec<Kv> = Vec::new();
    proof {
        assert(kvs_view(out@) =~= seq![]);
    }
    if let Some(d) = d {
        push_kv(
            &mut out,
            Kv::plain(
                "cache hit",
                fmt_pct(d.cache_hit, calc, show),
                "how much of each new prompt it already remembers \u{2014} high = fast starts",
            ),
        );
        push_kv(
            &mut out,
            Kv::plain(
                "spec accept",
                fmt_pct(d.spec_accept, calc, show),
                "how often it guesses its own next words right \u{2014} high = feels faster",
            ),
        );
        if let Some(l) = d.spec_accept_len {
            push_kv(
                &mut out,
                Kv::plain("spec length", show(l, 2), "words gained per guess, on average"),
            );
        }
        let mut tiers = fmt_pct(d.l2_device, calc, show);
        let host = fmt_pct(d.l2_host, calc, show);
        tiers.append(" \u{b7} ");
        tiers.append(host.as_str());
        push_kv(
            &mut out,
            Kv::plain("l2 dev\u{b7}host", tiers, "prompt portions served from GPU / host RAM"),
        );
        let mut traffic = fmt_num(d.l2_wb, calc, show);
        let rb = fmt_num(d.l2_rb, calc, show);
        traffic.append(" \u{b7} ");
        traffic.append(rb.as_str());
        push_kv(
            &mut out,
            Kv::plain(
                "l2 wb\u{b7}rb",
                traffic,
                "tokens/s written to / read back from host tier",
            ),
        );
        let mut depth = fmt_num(d.gen_progress, calc, show);
        depth.append(" tok");
        push_kv(
            &mut out,
            Kv::plain(
                "gen depth",
                depth,
                "how far into their answers the current requests are",
            ),
        );
        if let Some(r) = d.new_token_ratio {
            push_kv(
                &mut out,
                Kv::plain(
                    "new-token ratio",
                    show(r, 2),
                    "scheduler policy knob (1.0 = default)",
                ),
            );
        }
    }
    proof {
        assert forall|m: Model, w: Printer| #[trigger]
            show::writes(calc, show, m, w) implies kvs_view(out@) == quality_rows(
            m,
            w,
            panels::seen(d),
        ) by {
            assert(kvs_view(out@) =~= quality_rows(m, w, panels::seen(d)));
        }
    }
    out
}

// ---- health -----------------------------------------------------------------

/// Trouble is anything above zero.
pub open spec fn trouble_tone(v: Option<Num>) -> Tone {
    if crate::derive::or_zero(v).positive() {
        Tone::Bad
    } else {
        Tone::Good
    }
}

pub fn trouble_color(v: Option<Num>) -> (r: Tone)
    ensures
        r == trouble_tone(v),
{
    if v.unwrap_or(num(ZERO)).is_positive() {
        Tone::Bad
    } else {
        Tone::Good
    }
}

/// The row on stalls.
pub open spec fn stall_row(m: Model, w: Printer, d: DerivedView, focus: int) -> KvView {
    let s = d.stalls[focus];
    let gloss = "moments when prefill work froze every stream"@;
    if s.count > 0 {
        colored_kv(
            "stalls"@,
            text::digits(s.count as nat) + " \u{d7} "@ + w(once::mean_stall(m, s), 1) + "s in "@
                + WIN_LABELS@[focus]@,
            gloss,
            Tone::Bad,
        )
    } else {
        colored_kv("stalls"@, "0"@, gloss, Tone::Good)
    }
}

/// A row on a rate that should be zero.
pub open spec fn trouble_row(
    m: Model,
    w: Printer,
    key: Seq<char>,
    v: Option<Num>,
    gloss: Seq<char>,
) -> KvView {
    colored_kv(key, show::number_text(m, w, v), gloss, trouble_tone(v))
}

/// The rows on anything that deserves a look when it is not zero.
pub open spec fn health_rows(m: Model, w: Printer, d: Option<DerivedView>, focus: int) -> Seq<
    KvView,
> {
    match d {
        Some(d) => seq![
            stall_row(m, w, d, focus),
            trouble_row(
                m,
                w,
                "evictions/s"@,
                d.evict_rate,
                "device KV cache slots freed to make room"@,
            ),
            trouble_row(
                m,
                w,
                "retractions/s"@,
                d.retract_rate,
                "requests restarted mid-answer \u{2014} the worst kind"@,
            ),
            trouble_row(m, w, "503/s"@, d.http_503_rate, "requests refused outright"@),
            trouble_row(
                m,
                w,
                "l2 drop/s"@,
                d.l2_drop,
                "device tokens destroyed without a host backup"@,
            ),
            plain_kv(
                "http active"@,
                show::number_text(m, w, d.http_active),
                "connections open right now"@,
            ),
            plain_kv(
                "cpu cores/s"@,
                w(crate::derive::or_zero(d.cpu_tokenizer), 1) + "/"@ + w(
                    crate::derive::or_zero(d.cpu_detokenizer),
                    1,
                ) + "/"@ + w(crate::derive::or_zero(d.cpu_scheduler), 1),
                ""@,
            ),
            plain_kv(
                seq![],
                seq![],
                "tokenizer \u{b7} detokenizer \u{b7} scheduler"@,
            ),
        ],
        None => seq![],
    }
}

fn write_stall_row<C: Fn(Calc) -> Num + Copy, S: Fn(Num, u8) -> String + Copy>(
    d: &Derived,
    focus: usize,
    calc: C,
    show: S,
) -> (r: Kv)
    requires
        show::ready(calc, show),
        focus < 3,
    ensures
        forall|m: Model, w: Printer| #[trigger]
            show::writes(calc, show, m, w) ==> r@ == stall_row(m, w, d@, focus as int),
{
    let s = d.stalls[focus];
    let gloss = "moments when prefill work froze every stream";
    if s.count > 0 {
        let mut value = decimal(s.count as u64);
        let mean = show(find_mean_stall(s, calc), 1);
        value.append(" \u{d7} ");
        value.append(mean.as_str());
        value.append("s in ");
        value.append(WIN_LABELS[focus]);
        Kv::colored("stalls", value, gloss, Tone::Bad)
    } else {
        Kv::colored("stalls", String::from_str("0"), gloss, Tone::Good)
    }
}

fn write_trouble_row<C: Fn(Calc) -> Num + Copy, S: Fn(Num, u8) -> String + Copy>(
    key: &str,
    v: Option<Num>,
    gloss: &str,
    calc: C,
    show: S,
) -> (r: Kv)
    requires
        show::ready(calc, show),
    ensures
        forall|m: Model, w: Printer| #[trigger]
            show::writes(calc, show, m, w) ==> r@ == trouble_row(m, w, key@, v, gloss@),
{
    Kv::colored(key, fmt_num(v, calc, show), gloss, trouble_color(v))
}

pub fn health_col_kvs<C: Fn(Calc) -> Num + Copy, S: Fn(Num, u8) -> String + Copy>(
    d: Option<&Derived>,
    focus: usize,
    calc: C,
    show: S,
) -> (r: Vec<Kv>)
    requires
        show::ready(calc, show),
        focus < 3,
    ensures
        forall|m: Model, w: Printer| #[trigger]
            show::writes(calc, show, m, w) ==> kvs_view(r@) == health_rows(
                m,
                w,
                panels::seen(d),
                focus as int,
            ),
        r@.len() <= 8,
        d is Some ==> r@.len() == 8,
{
    let mut out: Vec<Kv> = Vec::new();
    if let Some(d) = d {
        let mut cpu = show(d.cpu_tokenizer.unwrap_or(num(ZERO)), 1);
        let b = show(d.cpu_detokenizer.unwrap_or(num(ZERO)), 1);
        let c = show(d.cpu_scheduler.unwrap_or(num(ZERO)), 1);
        cpu.append("/");
        cpu.append(b.as_str());
        cpu.append("/");
        cpu.append(c.as_str());
        out = vec![
            write_stall_row(d, focus, calc, show),
            write_trouble_row(
                "evictions/s",
                d.evict_rate,
                "device KV cache slots freed to make room",
                calc,
                show,
            ),
            write_trouble_row(
                "retractions/s",
                d.retract_rate,
                "requests restarted mid-answer \u{2014} the worst kind",
                calc,
                show,
            ),
            write_trouble_row(
                "503/s",
                d.http_503_rate,
                "requests refused outright",
                calc,
                show,
            ),
            write_trouble_row(
                "l2 drop/s",
                d.l2_drop,
                "device tokens destroyed without a host backup",
                calc,
                show,
            ),
            Kv::plain(
                "http active",
                fmt_num(d.http_active, calc, show),
                "connections open right now",
            ),
            Kv::plain("cpu cores/s", cpu, ""),
            Kv::gloss_only("tokenizer \u{b7} detokenizer \u{b7} scheduler"),
        ];
    }
    proof {
        assert forall|m: Model, w: Printer| #[trigger]
            show::writes(calc, show, m, w) implies kvs_view(out@) == health_rows(
            m,
            w,
            panels::seen(d),
            focus as int,
        ) by {
            assert(kvs_view(out@) =~= health_rows(m, w, panels::seen(d), focus as int));
        }
    }
    out
}

// ---- peaks ------------------------------------------------------------------

/// A peak under its name.
pub open spec fn peak_line(w: Printer, label: Seq<char>, v: Option<Num>) -> LineView {
    seq![
        screen::styled(" "@ + show::left(label, 9), plain(Tone::Dim)),
        screen::styled(show::rate_text(w, v), bold(Tone::Fg)),
    ]
}

/// The column on the session peaks and the engine's own figure.
pub open spec fn peak_lines(w: Printer, d: Option<DerivedView>, p: Peaks) -> Seq<LineView> {
    seq![
        peak_line(w, "decode"@, p.decode),
        peak_line(w, "prefill"@, p.prefill),
        peak_line(w, "single"@, p.decode_single),
        seq![
            screen::styled(" engine   "@, plain(Tone::Dim)),
            screen::styled(
                match d {
                    Some(d) => show::whole_text(w, d.gen_throughput_gauge),
                    None => show::missing(),
                },
                plain(Tone::Fg),
            ),
        ],
    ]
}

fn write_peak<S: Fn(Num, u8) -> String + Copy>(label: &str, v: Option<Num>, show: S) -> (r: Line)
    requires
        show::printable(show),
    ensures
        forall|w: Printer| #[trigger] show::prints(show, w) ==> r@ == peak_line(w, label@, v),
{
    let name = pad_right(label, 9);
    line2(
        span2(" ", name.as_str(), plain(Tone::Dim)),
        Span { text: tok(v, show), style: bold(Tone::Fg) },
    )
}

pub fn peaks_col_lines<S: Fn(Num, u8) -> String + Copy>(
    d: Option<&Derived>,
    peaks: &Peaks,
    show: S,
) -> (r: Vec<Line>)
    requires
        show::printable(show),
    ensures
        forall|w: Printer| #[trigger]
            show::prints(show, w) ==> screen::lines_view(r@) == peak_lines(
                w,
                panels::seen(d),
                *peaks,
            ),
        r@.len() == 4,
{
    let engine = match d {
        Some(d) => tok_gauge(d.gen_throughput_gauge, show),
        None => tok_gauge(None, show),
    };
    let r = vec![
        write_peak("decode", peaks.decode, show),
        write_peak("prefill", peaks.prefill, show),
        write_peak("single", peaks.decode_single, show),
        line2(
            span(" engine   ", plain(Tone::Dim)),
            Span { text: engine, style: plain(Tone::Fg) },
        ),
    ];
    proof {
        assert forall|w: Printer| #[trigger] show::prints(show, w) implies screen::lines_view(r@)
            == peak_lines(w, panels::seen(d), *peaks) by {
            let want = peak_lines(w, panels::seen(d), *peaks);
            assert(r@[3]@ =~= want[3]);
            assert(screen::lines_view(r@) =~= want);
        }
    }
    r
}

// ---- the row ----------------------------------------------------------------

pub open spec fn longer(a: nat, b: nat) -> nat {
    if a < b {
        b
    } else {
        a
    }
}

/// Rows that the detail row needs: its longest column and the borders, at least
/// nine and at most fourteen.
pub open spec fn height_of(m: Model, w: Printer, d: Option<DerivedView>, focus: int) -> u16 {
    let n = longer(
        longer(queue_lines(m, w, d).len(), quality_rows(m, w, d).len()),
        longer(
            health_rows(m, w, d, focus).len(),
            peak_lines(w, d, crate::derive::no_peaks()).len(),
        ),
    ) + 2;
    if n < 9 {
        9
    } else if n > 14 {
        14
    } else {
        n as u16
    }
}

pub fn detail_height<C: Fn(Calc) -> Num + Copy, S: Fn(Num, u8) -> String + Copy>(
    d: Option<&Derived>,
    focus: usize,
    calc: C,
    show: S,
) -> (r: u16)
    requires
        show::ready(calc, show),
        focus < 3,
    ensures
        forall|m: Model, w: Printer| #[trigger]
            show::writes(calc, show, m, w) ==> r == height_of(m, w, panels::seen(d), focus as int),
        9 <= r <= 14,
{
    let queues = queues_col_lines(d, calc, show);
    let quality = quality_col_kvs(d, calc, show);
    let health = health_col_kvs(d, focus, calc, show);
    let peaks = peaks_col_lines(d, &Peaks::default(), show);
    let mut n: usize = queues.len();
    if n < quality.len() {
        n = quality.len();
    }
    if n < health.len() {
        n = health.len();
    }
    if n < peaks.len() {
        n = peaks.len();
    }
    proof {
        assert forall|m: Model, w: Printer| #[trigger] show::writes(calc, show, m, w) implies n + 2
            == longer(
            longer(
                queue_lines(m, w, panels::seen(d)).len(),
                quality_rows(m, w, panels::seen(d)).len(),
            ),
            longer(
                health_rows(m, w, panels::seen(d), focus as int).len(),
                peak_lines(w, panels::seen(d), crate::derive::no_peaks()).len(),
            ),
        ) + 2 by {
            assert(queue_lines(m, w, panels::seen(d)).len() == queues@.len());
            assert(quality_rows(m, w, panels::seen(d)).len() == quality@.len());
            assert(health_rows(m, w, panels::seen(d), focus as int).len() == health@.len());
        }
    }
    let rows: u16 = n as u16 + 2;
    if rows < 9 {
        9
    } else if rows > 14 {
        14
    } else {
        rows
    }
}

/// The two lines of the compact layout.
pub open spec fn compact_lines(m: Model, w: Printer, d: Option<DerivedView>, focus: int) -> Seq<
    LineView,
> {
    match d {
        Some(d) => {
            let s = d.stalls[focus];
            seq![
                seq![
                    screen::styled(
                        "queues: "@ + show::joined(named_stages(m, w, d.subqueues), " \u{b7} "@)
                            + " \u{b7} cache hit "@ + show::percent_text(m, w, d.cache_hit)
                            + " \u{b7} spec accept "@ + show::percent_text(m, w, d.spec_accept)
                            + " \u{b7} gen depth "@ + show::number_text(m, w, d.gen_progress)
                            + " tok"@,
                        plain(Tone::Fg),
                    ),
                ],
                seq![
                    screen::styled(
                        "stalls "@ + text::digits(s.count as nat) + " \u{d7} "@ + w(
                            once::mean_stall(m, s),
                            1,
                        ) + "s in "@ + WIN_LABELS@[focus]@ + " \u{b7} evict/s "@
                            + show::number_text(m, w, d.evict_rate) + " \u{b7} retract/s "@
                            + show::number_text(m, w, d.retract_rate) + " \u{b7} 503/s "@
                            + show::number_text(m, w, d.http_503_rate) + " \u{b7} active "@
                            + show::number_text(m, w, d.http_active),
                        plain(Tone::Fg),
                    ),
                ],
            ]
        },
        None => seq![],
    }
}

/// The stages with their counts.
pub open spec fn named_stages(m: Model, w: Printer, s: Seq<(Seq<char>, Option<Num>)>) -> Seq<
    Seq<char>,
> {
    Seq::new(s.len(), |i: int| s[i].0 + " "@ + show::number_text(m, w, s[i].1))
}

fn name_stages<C: Fn(Calc) -> Num + Copy, S: Fn(Num, u8) -> String + Copy>(
    q: &Vec<(&'static str, Option<Num>)>,
    calc: C,
    show: S,
) -> (r: Vec<String>)
    requires
        show::ready(calc, show),
    ensures
        forall|m: Model, w: Printer| #[trigger]
            show::writes(calc, show, m, w) ==> text::texts(r@) == named_stages(
                m,
                w,
                crate::derive::subqueues_view(q@),
            ),
{
    let ghost all = crate::derive::subqueues_view(q@);
    let mut out: Vec<String> = Vec::new();
    let mut i: usize = 0;
    while i < q.len()
        invariant
            i <= q.len(),
            out.len() == i,
            show::ready(calc, show),
            all == crate::derive::subqueues_view(q@),
            forall|m: Model, w: Printer, j: int|
                #![trigger show::writes(calc, show, m, w), out@[j]]
                show::writes(calc, show, m, w) && 0 <= j < i ==> out@[j]@ == all[j].0 + " "@
                    + show::number_text(m, w, all[j].1),
        decreases q.len() - i,
    {
        let value = fmt_num(q[i].1, calc, show);
        let mut line = join2(q[i].0, " ");
        line.append(value.as_str());
        out.push(line);
        i = i + 1;
    }
    proof {
        assert forall|m: Model, w: Printer| #[trigger]
            show::writes(calc, show, m, w) implies text::texts(out@) == named_stages(
            m,
            w,
            all,
        ) by {
            assert(text::texts(out@) =~= named_stages(m, w, all));
        }
    }
    out
}

fn write_compact<C: Fn(Calc) -> Num + Copy, S: Fn(Num, u8) -> String + Copy>(
    d: Option<&Derived>,
    focus: usize,
    calc: C,
    show: S,
) -> (r: Vec<Line>)
    requires
        show::ready(calc, show),
        focus < 3,
    ensures
        forall|m: Model, w: Printer| #[trigger]
            show::writes(calc, show, m, w) ==> screen::lines_view(r@) == compact_lines(
                m,
                w,
                panels::seen(d),
                focus as int,
            ),
{
    let mut out: Vec<Line> = Vec::new();
    if let Some(d) = d {
        let s = d.stalls[focus];
        let stages = join(&name_stages(&d.subqueues, calc, show), " \u{b7} ");
        let hit = fmt_pct(d.cache_hit, calc, show);
        let accept = fmt_pct(d.spec_accept, calc, show);
        let depth = fmt_num(d.gen_progress, calc, show);
        let mut a = join2("queues: ", stages.as_str());
        a.append(" \u{b7} cache hit ");
        a.append(hit.as_str());
        a.append(" \u{b7} spec accept ");
        a.append(accept.as_str());
        a.append(" \u{b7} gen depth ");
        a.append(depth.as_str());
        a.append(" tok");
        let count = decimal(s.count as u64);
        let mean = show(find_mean_stall(s, calc), 1);
        let evict = fmt_num(d.evict_rate, calc, show);
        let retract = fmt_num(d.retract_rate, calc, show);
        let refused = fmt_num(d.http_503_rate, calc, show);
        let active = fmt_num(d.http_active, calc, show);
        let mut b = join2("stalls ", count.as_str());
        b.append(" \u{d7} ");
        b.append(mean.as_str());
        b.append("s in ");
        b.append(WIN_LABELS[focus]);
        b.append(" \u{b7} evict/s ");
        b.append(evict.as_str());
        b.append(" \u{b7} retract/s ");
        b.append(retract.as_str());
        b.append(" \u{b7} 503/s ");
        b.append(refused.as_str());
        b.append(" \u{b7} active ");
        b.append(active.as_str());
        out = vec![
            line1(Span { text: a, style: plain(Tone::Fg) }),
            line1(Span { text: b, style: plain(Tone::Fg) }),
        ];
    }
    proof {
        assert forall|m: Model, w: Printer| #[trigger]
            show::writes(calc, show, m, w) implies screen::lines_view(out@) == compact_lines(
            m,
            w,
            panels::seen(d),
            focus as int,
        ) by {
            assert(screen::lines_view(out@) =~= compact_lines(
                m,
                w,
                panels::seen(d),
                focus as int,
            ));
        }
    }
    out
}

/// The compact detail panel.
pub open spec fn compact_ops(
    m: Model,
    w: Printer,
    d: Option<DerivedView>,
    focus: int,
    area: Rect,
) -> Seq<OpView> {
    seq![
        panels::written(area.framed(), compact_lines(m, w, d, focus)),
        panels::frame(area, "Queues & health"@, None),
    ]
}

/// The four detail panels in their columns.
pub open spec fn full_ops(
    m: Model,
    w: Printer,
    d: Option<DerivedView>,
    focus: int,
    peaks: Peaks,
    cols: Seq<Rect>,
) -> Seq<OpView> {
    let width = |i: int| cols[i].framed().width as nat;
    seq![
        panels::written(cols[0].framed(), panels::cut_all(queue_lines(m, w, d), width(0))),
        panels::frame(cols[0], "Waiting lines"@, Some("requests staged before running"@)),
        panels::written(cols[1].framed(), kv_rows(quality_rows(m, w, d), width(1))),
        panels::frame(
            cols[1],
            "Answer quality"@,
            Some("what makes the model feel fast or smart"@),
        ),
        panels::written(cols[2].framed(), kv_rows(health_rows(m, w, d, focus), width(2))),
        panels::frame(
            cols[2],
            "Health & trouble"@,
            Some("anything here that is not zero deserves a look"@),
        ),
        panels::written(cols[3].framed(), panels::cut_all(peak_lines(w, d, peaks), width(3))),
        panels::frame(cols[3], "Peaks"@, Some("since sgtop started"@)),
    ]
}

pub fn draw_compact_detail<C: Fn(Calc) -> Num + Copy, S: Fn(Num, u8) -> String + Copy>(
    d: Option<&Derived>,
    focus: usize,
    area: Rect,
    calc: C,
    show: S,
) -> (r: Vec<Op>)
    requires
        show::ready(calc, show),
        focus < 3,
    ensures
        forall|m: Model, w: Printer| #[trigger]
            show::writes(calc, show, m, w) ==> panels::ops_view(r@) == compact_ops(
                m,
                w,
                panels::seen(d),
                focus as int,
                area,
            ),
{
    let lines = write_compact(d, focus, calc, show);
    let r = vec![
        Op::Text { area: area.inner(), lines, scroll: 0 },
        block(area, "Queues & health", None),
    ];
    proof {
        assert forall|m: Model, w: Printer| #[trigger]
            show::writes(calc, show, m, w) implies panels::ops_view(r@) == compact_ops(
            m,
            w,
            panels::seen(d),
            focus as int,
            area,
        ) by {
            assert(panels::ops_view(r@) =~= compact_ops(
                m,
                w,
                panels::seen(d),
                focus as int,
                area,
            ));
        }
    }
    r
}

pub fn draw_detail<C: Fn(Calc) -> Num + Copy, S: Fn(Num, u8) -> String + Copy>(
    d: Option<&Derived>,
    focus: usize,
    peaks: &Peaks,
    cols: &Vec<Rect>,
    calc: C,
    show: S,
) -> (r: Vec<Op>)
    requires
        show::ready(calc, show),
        focus < 3,
        cols@.len() == 4,
    ensures
        forall|m: Model, w: Printer| #[trigger]
            show::writes(calc, show, m, w) ==> panels::ops_view(r@) == full_ops(
                m,
                w,
                panels::seen(d),
                focus as int,
                *peaks,
                cols@,
            ),
{
    let (in0, in1, in2, in3) = (
        cols[0].inner(),
        cols[1].inner(),
        cols[2].inner(),
        cols[3].inner(),
    );
    let queues = truncate_all(queues_col_lines(d, calc, show), in0.width as usize);
    let quality = kv_lines(&quality_col_kvs(d, calc, show), in1.width as usize);
    let health = kv_lines(&health_col_kvs(d, focus, calc, show), in2.width as usize);
    let records = truncate_all(peaks_col_lines(d, peaks, show), in3.width as usize);
    let r = vec![
        Op::Text { area: in0, lines: queues, scroll: 0 },
        block(cols[0], "Waiting lines", Some("requests staged before running")),
        Op::Text { area: in1, lines: quality, scroll: 0 },
        block(cols[1], "Answer quality", Some("what makes the model feel fast or smart")),
        Op::Text { area: in2, lines: health, scroll: 0 },
        block(
            cols[2],
            "Health & trouble",
            Some("anything here that is not zero deserves a look"),
        ),
        Op::Text { area: in3, lines: records, scroll: 0 },
        block(cols[3], "Peaks", Some("since sgtop started")),
    ];
    proof {
        assert forall|m: Model, w: Printer| #[trigger]
            show::writes(calc, show, m, w) implies panels::ops_view(r@) == full_ops(
            m,
            w,
            panels::seen(d),
            focus as int,
            *peaks,
            cols@,
        ) by {
            assert(panels::ops_view(r@) =~= full_ops(
                m,
                w,
                panels::seen(d),
                focus as int,
                *peaks,
                cols@,
            ));
        }
    }
    r
}

/// A row says a value behind its key.
pub open spec fn row_says(rows: Seq<KvView>, key: Seq<char>, value: Seq<char>) -> bool {
    exists|i: int| 0 <= i < rows.len() && (#[trigger] rows[i]).key == key && rows[i].value == value
}

/// Trouble is shown in red where there is any.
pub open spec fn row_warns(rows: Seq<KvView>, key: Seq<char>, v: Option<Num>) -> bool {
    exists|i: int|
        0 <= i < rows.len() && (#[trigger] rows[i]).key == key && (rows[i].tone == Some(Tone::Bad)
            <==> (v matches Some(x) && x.positive())) && (rows[i].tone == Some(Tone::Bad)
            || rows[i].tone == Some(Tone::Good))
}

/// Every row of the health panel says its own figure: evictions, retractions,
/// refusals and drops per second, open connections and CPU cores. Trouble is
/// red exactly where it is above zero.
pub proof fn law_health_rows_say_their_figures(m: Model, w: Printer, d: DerivedView, focus: int)
    ensures
        ({
            let rows = health_rows(m, w, Some(d), focus);
            &&& row_says(rows, "evictions/s"@, show::number_text(m, w, d.evict_rate))
            &&& row_says(rows, "retractions/s"@, show::number_text(m, w, d.retract_rate))
            &&& row_says(rows, "503/s"@, show::number_text(m, w, d.http_503_rate))
            &&& row_says(rows, "l2 drop/s"@, show::number_text(m, w, d.l2_drop))
            &&& row_says(rows, "http active"@, show::number_text(m, w, d.http_active))
            &&& row_says(
                rows,
                "cpu cores/s"@,
                w(crate::derive::or_zero(d.cpu_tokenizer), 1) + "/"@ + w(
                    crate::derive::or_zero(d.cpu_detokenizer),
                    1,
                ) + "/"@ + w(crate::derive::or_zero(d.cpu_scheduler), 1),
            )
            &&& row_says(
                rows,
                "stalls"@,
                if d.stalls[focus].count > 0 {
                    text::digits(d.stalls[focus].count as nat) + " \u{d7} "@ + w(
                        m(
                            Calc::Quotient(
                                d.stalls[focus].seconds,
                                m(Calc::Whole(d.stalls[focus].count as u64)),
                            ),
                        ),
                        1,
                    ) + "s in "@ + WIN_LABELS@[focus]@
                } else {
                    "0"@
                },
            )
            &&& row_warns(rows, "evictions/s"@, d.evict_rate)
            &&& row_warns(rows, "retractions/s"@, d.retract_rate)
            &&& row_warns(rows, "503/s"@, d.http_503_rate)
            &&& row_warns(rows, "l2 drop/s"@, d.l2_drop)
        }),
{
    let rows = health_rows(m, w, Some(d), focus);
    assert(rows[0].key == "stalls"@);
    assert(rows[1].key == "evictions/s"@);
    assert(rows[2].key == "retractions/s"@);
    assert(rows[3].key == "503/s"@);
    assert(rows[4].key == "l2 drop/s"@);
    assert(rows[5].key == "http active"@);
    assert(rows[6].key == "cpu cores/s"@);
}

/// Every row of the quality panel says its own figure.
pub proof fn law_quality_rows_say_their_figures(m: Model, w: Printer, d: DerivedView)
    ensures
        ({
            let rows = quality_rows(m, w, Some(d));
            &&& row_says(rows, "cache hit"@, show::percent_text(m, w, d.cache_hit))
            &&& row_says(rows, "spec accept"@, show::percent_text(m, w, d.spec_accept))
            &&& row_says(
                rows,
                "l2 dev\u{b7}host"@,
                show::percent_text(m, w, d.l2_device) + " \u{b7} "@ + show::percent_text(
                    m,
                    w,
                    d.l2_host,
                ),
            )
            &&& row_says(
                rows,
                "l2 wb\u{b7}rb"@,
                show::number_text(m, w, d.l2_wb) + " \u{b7} "@ + show::number_text(m, w, d.l2_rb),
            )
            &&& row_says(rows, "gen depth"@, show::number_text(m, w, d.gen_progress) + " tok"@)
            &&& d.spec_accept_len matches Some(l) ==> row_says(rows, "spec length"@, w(l, 2))
            &&& d.new_token_ratio matches Some(r) ==> row_says(rows, "new-token ratio"@, w(r, 2))
        }),
{
    let rows = quality_rows(m, w, Some(d));
    let k = if d.spec_accept_len is Some {
        3int
    } else {
        2
    };
    assert(rows[0].key == "cache hit"@);
    assert(rows[1].key == "spec accept"@);
    if d.spec_accept_len is Some {
        assert(rows[2].key == "spec length"@);
    }
    assert(rows[k].key == "l2 dev\u{b7}host"@);
    assert(rows[k + 1].key == "l2 wb\u{b7}rb"@);
    assert(rows[k + 2].key == "gen depth"@);
    if d.new_token_ratio is Some {
        assert(rows[k + 3].key == "new-token ratio"@);
    }
}

/// A row's key comes first in its line, then its value, in the row's tone.
pub proof fn law_rows_show_key_then_value(s: Seq<KvView>, i: int, width: nat)
    requires
        0 <= i < s.len(),
        s[i].key.len() > 0,
    ensures
        ({
            let line = kv_line(s[i], key_width(s), value_width(s));
            &&& kv_rows(s, width)[i] == screen::cut(line, width)
            &&& line.len() == 3
            &&& (" "@ + s[i].key).is_prefix_of(line[0].text)
            &&& s[i].value.is_prefix_of(line[1].text)
            &&& line[2].text == s[i].gloss
            &&& s[i].tone matches Some(t) ==> line[1].style == bold(t)
        }),
{
    let line = kv_line(s[i], key_width(s), value_width(s));
    let a = " "@ + s[i].key;
    assert(line[0].text.subrange(0, a.len() as int) =~= a);
    assert(line[1].text.subrange(0, s[i].value.len() as int) =~= s[i].value);
}

/// The waiting lines say the counts of their own stages.
pub proof fn law_queue_lines_say_their_stages(m: Model, w: Printer, d: DerivedView)
    requires
        d.subqueues.len() == 5,
    ensures
        ({
            let l = queue_lines(m, w, Some(d));
            let n = |i: int| show::number_text(m, w, d.subqueues[i].1);
            &&& l.len() >= 4
            &&& l[0][0].text == " "@ + "prefill queues:"@
            &&& l[1][0].text == "  "@ + "bootstrap"@ + " "@ + n(0) + " \u{b7} "@ + "inflight"@
                + " "@ + n(1)
            &&& l[2][0].text == " "@ + "decode queues:"@
            &&& l[3][0].text == "  "@ + "prealloc"@ + " "@ + n(2) + " \u{b7} "@ + "transfer"@
                + " "@ + n(3)
            &&& n(4).len() > 0 ==> l.len() == 5 && l[4][0].text == " grammar: "@ + n(4)
        }),
{
}

/// The peaks panel says each peak behind its own name.
pub proof fn law_peak_lines_say_their_peaks(w: Printer, d: Option<DerivedView>, p: Peaks)
    ensures
        ({
            let l = peak_lines(w, d, p);
            &&& l.len() == 4
            &&& l[0][0].text == " "@ + show::left("decode"@, 9)
            &&& l[0][1].text == show::rate_text(w, p.decode)
            &&& l[1][0].text == " "@ + show::left("prefill"@, 9)
            &&& l[1][1].text == show::rate_text(w, p.prefill)
            &&& l[2][0].text == " "@ + show::left("single"@, 9)
            &&& l[2][1].text == show::rate_text(w, p.decode_single)
            &&& l[3][0].text == " engine   "@
            &&& d matches Some(f) ==> l[3][1].text == show::whole_text(w, f.gen_throughput_gauge)
        }),
{
}

/// The compact panel says the same figures behind their labels.
pub proof fn law_compact_lines_say_their_figures(m: Model, w: Printer, d: DerivedView, focus: int)
    ensures
        ({
            let l = compact_lines(m, w, Some(d), focus);
            &&& l.len() == 2
            &&& show::says(
                l[0][0].text,
                " \u{b7} cache hit "@,
                show::percent_text(m, w, d.cache_hit),
            )
            &&& show::says(
                l[0][0].text,
                " \u{b7} spec accept "@,
                show::percent_text(m, w, d.spec_accept),
            )
            &&& show::says(
                l[0][0].text,
                " \u{b7} gen depth "@,
                show::number_text(m, w, d.gen_progress),
            )
            &&& show::says(
                l[1][0].text,
                "stalls "@,
                text::digits(d.stalls[focus].count as nat),
            )
            &&& show::says(
                l[1][0].text,
                " \u{b7} evict/s "@,
                show::number_text(m, w, d.evict_rate),
            )
            &&& show::says(
                l[1][0].text,
                " \u{b7} retract/s "@,
                show::number_text(m, w, d.retract_rate),
            )
            &&& show::says(
                l[1][0].text,
                " \u{b7} 503/s "@,
                show::number_text(m, w, d.http_503_rate),
            )
            &&& show::says(
                l[1][0].text,
                " \u{b7} active "@,
                show::number_text(m, w, d.http_active),
            )
        }),
{
    lemma_compact_queues(m, w, d, focus);
    lemma_compact_health(m, w, d, focus);
}

proof fn lemma_compact_queues(m: Model, w: Printer, d: DerivedView, focus: int)
    ensures
        ({
            let t = compact_lines(m, w, Some(d), focus)[0][0].text;
            &&& show::says(t, " \u{b7} cache hit "@, show::percent_text(m, w, d.cache_hit))
            &&& show::says(t, " \u{b7} spec accept "@, show::percent_text(m, w, d.spec_accept))
            &&& show::says(t, " \u{b7} gen depth "@, show::number_text(m, w, d.gen_progress))
        }),
{
    let t = compact_lines(m, w, Some(d), focus)[0][0].text;
    let q = "queues: "@ + show::joined(named_stages(m, w, d.subqueues), " \u{b7} "@);
    let a = (" \u{b7} cache hit "@, show::percent_text(m, w, d.cache_hit));
    let b = (" \u{b7} spec accept "@, show::percent_text(m, w, d.spec_accept));
    let c = (" \u{b7} gen depth "@, show::number_text(m, w, d.gen_progress));
    let x = a.0 + a.1 + b.0 + b.1 + c.0 + c.1;
    show::lemma_weave3(x, a, b, c);
    show::lemma_says_behind(q, x, a.0, a.1);
    show::lemma_says_behind(q, x, b.0, b.1);
    show::lemma_says_behind(q, x, c.0, c.1);
    show::lemma_says_more(q + x, " tok"@, a.0, a.1);
    show::lemma_says_more(q + x, " tok"@, b.0, b.1);
    show::lemma_says_more(q + x, " tok"@, c.0, c.1);
    assert(t =~= q + x + " tok"@);
}

proof fn lemma_compact_health(m: Model, w: Printer, d: DerivedView, focus: int)
    ensures
        ({
            let t = compact_lines(m, w, Some(d), focus)[1][0].text;
            &&& show::says(t, "stalls "@, text::digits(d.stalls[focus].count as nat))
            &&& show::says(t, " \u{b7} evict/s "@, show::number_text(m, w, d.evict_rate))
            &&& show::says(t, " \u{b7} retract/s "@, show::number_text(m, w, d.retract_rate))
            &&& show::says(t, " \u{b7} 503/s "@, show::number_text(m, w, d.http_503_rate))
            &&& show::says(t, " \u{b7} active "@, show::number_text(m, w, d.http_active))
        }),
{
    let t = compact_lines(m, w, Some(d), focus)[1][0].text;
    let s = d.stalls[focus];
    let n = ("stalls "@, text::digits(s.count as nat));
    let z = n.0 + n.1 + " \u{d7} "@ + w(once::mean_stall(m, s), 1) + "s in "@ + WIN_LABELS@[focus]@;
    let mid = " \u{d7} "@ + w(once::mean_stall(m, s), 1) + "s in "@ + WIN_LABELS@[focus]@;
    assert(z =~= Seq::<char>::empty() + n.0 + n.1 + mid);
    assert(show::made_of(z, seq![], n.0, n.1, mid));
    show::lemma_weave4_behind(
        t,
        z,
        (" \u{b7} evict/s "@, show::number_text(m, w, d.evict_rate)),
        (" \u{b7} retract/s "@, show::number_text(m, w, d.retract_rate)),
        (" \u{b7} 503/s "@, show::number_text(m, w, d.http_503_rate)),
        (" \u{b7} active "@, show::number_text(m, w, d.http_active)),
    );
}

/// The detail row is as high as its longest column with the frame, but at least
/// nine and at most fourteen rows: no column of up to twelve lines is cut, and
/// one of them fills the row where it is higher than nine.
pub proof fn law_detail_row_holds_its_columns(
    m: Model,
    w: Printer,
    d: Option<DerivedView>,
    focus: int,
    p: Peaks,
)
    ensures
        ({
            let h = height_of(m, w, d, focus);
            let n = seq![
                queue_lines(m, w, d).len(),
                quality_rows(m, w, d).len(),
                health_rows(m, w, d, focus).len(),
                peak_lines(w, d, p).len(),
            ];
            &&& 9 <= h <= 14
            &&& forall|i: int| 0 <= i < 4 && #[trigger] n[i] <= 12 ==> n[i] + 2 <= h
            &&& h > 9 ==> exists|i: int| 0 <= i < 4 && #[trigger] n[i] + 2 >= h
        }),
{
    let h = height_of(m, w, d, focus);
    let n = seq![
        queue_lines(m, w, d).len(),
        quality_rows(m, w, d).len(),
        health_rows(m, w, d, focus).len(),
        peak_lines(w, d, p).len(),
    ];
    assert(peak_lines(w, d, p).len() == peak_lines(w, d, crate::derive::no_peaks()).len());
    if h > 9 {
        assert(n[0] + 2 >= h || n[1] + 2 >= h || n[2] + 2 >= h || n[3] + 2 >= h);
    }
}

/// Each detail panel stands in its own column, text and frame alike.
pub proof fn law_detail_panels_stand_in_their_columns(
    m: Model,
    w: Printer,
    d: Option<DerivedView>,
    focus: int,
    peaks: Peaks,
    cols: Seq<Rect>,
    i: int,
)
    requires
        0 <= i < 4,
    ensures
        ({
            let ops = full_ops(m, w, d, focus, peaks, cols);
            let names = seq!["Waiting lines"@, "Answer quality"@, "Health & trouble"@, "Peaks"@];
            &&& ops.len() == 8
            &&& ops[2 * i].area() == cols[i].framed()
            &&& ops[2 * i + 1].area() == cols[i]
            &&& ops[2 * i + 1] matches OpView::Frame { title, .. } && title[0].text == " "@
                + names[i] + " "@
        }),
{
}

/// The row on stalls is red exactly where there are any, and green otherwise.
pub proof fn law_stall_row_warns(m: Model, w: Printer, d: DerivedView, focus: int)
    ensures
        ({
            let row = health_rows(m, w, Some(d), focus)[0];
            &&& row.key == "stalls"@
            &&& row.tone == Some(Tone::Bad) <==> d.stalls[focus].count > 0
            &&& row.tone == Some(Tone::Good) <==> d.stalls[focus].count == 0
        }),
{
}

} // verus!
