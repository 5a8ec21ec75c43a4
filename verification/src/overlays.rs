//! The keymap and the explain screen.
use crate::panels;
use crate::panels::{Op, OpView};
use crate::screen;
use crate::screen::{bold, line1, line2, plain, span, span2, Line, LineView, Rect, Tone};
use crate::show;
use crate::show::pad_right;
use crate::text::{find_char, part, split_words, to_chars, to_text};
use crate::text;
use vstd::prelude::*;

verus! {

/// What the keys do.
pub const KEYMAP: [(&'static str, &'static str); 10] = [
    ("q / Esc", "quit"),
    ("space", "pause scraping (for staring & screenshots)"),
    ("c", "toggle compact / full layout"),
    ("g", "toggle graphs"),
    ("1 2 3", "focus the 5s / 15s / 60s window"),
    ("t", "cycle theme"),
    ("e", "plain-language tour of every panel"),
    ("+ / -", "poll interval (faster / slower)"),
    ("\u{2191} \u{2193}", "scroll the explain screen"),
    ("?", "this keymap"),
];

/// A plain-language tour of every panel: titles and texts. A blank line starts
/// a new paragraph.
pub const SECTIONS: [(&'static str, &'static str); 12] = [
    (
        "A token",
        "A token is roughly a word-piece: the model reads your prompt and writes its answer \
         one token at a time, several times per second. \"tok/s\" below is how many of those \
         pieces appear per second.",
    ),
    (
        "Words out / prefill",
        "Words out (decode) is the model writing its answer \u{2014} the number users \
         experience as speed. Prefill is the model reading a new prompt; it happens in bursts \
         and can momentarily freeze everyone else's stream (the seesaw in the graph).",
    ),
    (
        "Time to first token (TTFT)",
        "When you send a message, this is the pause before the first word appears. Small is \
         good. It grows when the model is busy reading long prompts or when there is a line \
         of requests waiting.",
    ),
    (
        "Time between tokens (ITL) & speed per stream",
        "Once words are flowing, ITL is the rhythm: the time between one word and the next. \
         Steady and small means the text streams smoothly; spikes are why text sometimes \
         freezes then jumps \u{2014} usually a new request's prompt being processed in the \
         middle of your answer.\n\nThe Speed-per-stream graph shows the same story from the \
         other side: total writing speed divided by how many answers are being written at \
         once. When it dips while the seesaw graph shows a prefill spike, everyone's stream \
         briefly froze.",
    ),
    (
        "p50 / p95 / p99",
        "p50 is a typical request. p95 is the experience of the unluckiest 1-in-20. p99 is \
         the worst moments. If p50 is fine but p95 is bad, most people are happy but some are \
         having a bad time \u{2014} that gap is the number to watch.\n\nThe 5s/15s/60s \
         columns are a fresh p95 of just that window's requests \u{2014} nothing is averaged \
         with the past, so a single slow request shows up in the 5s column immediately. \
         Bigger windows move slower only because they cover more requests.",
    ),
    (
        "Waiting line (queue)",
        "Requests that arrived but have not started. A short, spiky line is normal. A tall, \
         flat line means the server is overloaded and everyone's wait grows.",
    ),
    (
        "Peaks",
        "The Peak box holds the highest rates seen since sgtop started: the busiest decode \
         moment, the biggest prefill burst, and single \u{2014} the fastest one stream has \
         ever moved (total decode speed divided by how many requests were sharing it).",
    ),
    (
        "Memory pools",
        "The model keeps working memory for every conversation in progress (KV), and \
         optionally for alternative memory types (mamba, SWA). At 100% a pool is full: new \
         requests wait, and the server may throw out or restart old ones (see evictions and \
         retractions).\n\nThe host tier is the exception: it is a large CPU-RAM cache of \
         prompt prefixes that stays pinned near 100% in normal operation and recycles the \
         oldest entries when it needs room. A full host tier is not a problem \u{2014} only \
         KV or mamba running full is. The evictions/s counter belongs to the device KV cache, \
         not the host tier.",
    ),
    (
        "Stalls",
        "A stall is a moment when every stream froze because a prompt was being read. \
         Measured as how many times it happened and how many seconds in total over the \
         window.",
    ),
    (
        "Cache hit & the L2 tiers",
        "How much of each new prompt the server already remembers from earlier turns. High \
         cache hit = fast starts and less work. A sudden drop usually means a restart or very \
         different traffic.\n\nLarge servers often keep a second, bigger cache tier in host \
         RAM (the \"host\" pool). The l2 dev\u{b7}host line shows how much of the recent \
         prefill work was served from the GPU-resident tier vs the host tier; wb\u{b7}rb is \
         how many tokens per second are being written down to, or read back from, that tier. \
         l2 drop/s counts device tokens destroyed without a host backup \u{2014} work the \
         host tier failed to save; it should be zero.",
    ),
    (
        "Speculative accept",
        "The model tries to guess several words ahead and checks them in one go. Accept rate \
         is how often the guesses are right; accept length is how many words each lucky guess \
         saves. High numbers make everything feel faster.",
    ),
    (
        "Retractions & evictions",
        "A retraction means a running request was abandoned and restarted \u{2014} its user \
         watched their answer reset. Evictions free device KV cache slots to make room; the \
         freed prefixes may already be backed up to the host tier, so steady recycling is \
         normal while a spike means memory pressure. l2 drop/s is the harmful one: device \
         tokens destroyed without a host backup, work truly lost.",
    ),
];

// ---- wrapping ---------------------------------------------------------------

/// How many bytes a character takes in UTF-8.
pub open spec fn char_bytes(c: char) -> nat {
    let u = c as u32;
    if u < 0x80 {
        1
    } else if u < 0x800 {
        2
    } else if u < 0x1_0000 {
        3
    } else {
        4
    }
}

/// How many bytes a text takes in UTF-8.
pub open spec fn bytes(s: Seq<char>) -> nat
    decreases s.len(),
{
    if s.len() == 0 {
        0
    } else {
        bytes(s.drop_last()) + char_bytes(s.last())
    }
}

/// Lines of words: a word goes on the next line where this one would get longer
/// than `width` bytes.
pub open spec fn wrapped(ws: Seq<Seq<char>>, line: Seq<char>, width: nat) -> Seq<Seq<char>>
    decreases ws.len(),
{
    if ws.len() == 0 {
        seq![line]
    } else if line.len() == 0 {
        wrapped(ws.drop_first(), ws[0], width)
    } else if bytes(line) + bytes(ws[0]) + 1 > width {
        seq![line] + wrapped(ws.drop_first(), ws[0], width)
    } else {
        wrapped(ws.drop_first(), line + " "@ + ws[0], width)
    }
}

/// The wrapped lines of several lines, one after the other.
pub open spec fn wrapped_all(lines: Seq<Seq<char>>, width: nat) -> Seq<Seq<char>>
    decreases lines.len(),
{
    if lines.len() == 0 {
        seq![]
    } else {
        wrapped_all(lines.drop_last(), width) + wrapped(text::words(lines.last()), seq![], width)
    }
}

proof fn lemma_bytes_grow(s: Seq<char>, i: int)
    requires
        0 <= i <= s.len(),
    ensures
        bytes(s.take(i)) <= bytes(s),
    decreases s.len(),
{
    if i < s.len() {
        lemma_bytes_grow(s.drop_last(), i);
        assert(s.drop_last().take(i) =~= s.take(i));
    } else {
        assert(s.take(i) =~= s);
    }
}

/// What is left of so many bytes behind a text, if it has room in them.
fn room_behind(s: &str, room: usize) -> (r: Option<usize>)
    ensures
        match r {
            Some(left) => left + bytes(s@) == room,
            None => bytes(s@) > room,
        },
{
    let cs = to_chars(s);
    let mut left = room;
    let mut i: usize = 0;
    while i < cs.len()
        invariant
            i <= cs.len(),
            cs@ == s@,
            left + bytes(cs@.take(i as int)) == room,
        decreases cs.len() - i,
    {
        let u: u32 = cs[i] as u32;
        let k: usize = if u < 0x80 {
            1
        } else if u < 0x800 {
            2
        } else if u < 0x1_0000 {
            3
        } else {
            4
        };
        proof {
            assert(cs@.take(i + 1).drop_last() =~= cs@.take(i as int));
            lemma_bytes_grow(cs@, i + 1);
        }
        if k > left {
            return None;
        }
        left = left - k;
        i = i + 1;
    }
    proof {
        assert(cs@.take(cs@.len() as int) =~= cs@);
    }
    Some(left)
}

/// Whether a word still goes on a line.
fn has_room(line: &str, word: &str, width: usize) -> (r: bool)
    ensures
        r == (bytes(line@) + bytes(word@) + 1 <= width),
{
    match room_behind(line, width) {
        None => false,
        Some(left) => match room_behind(word, left) {
            None => false,
            Some(rest) => rest >= 1,
        },
    }
}

fn push_text(out: &mut Vec<String>, s: String)
    ensures
        text::texts(final(out)@) == text::texts(old(out)@).push(s@),
{
    let ghost before = text::texts(out@);
    out.push(s);
    proof {
        assert(text::texts(out@) =~= before.push(s@));
    }
}

fn wrap_words(out: &mut Vec<String>, ws: &Vec<String>, width: usize)
    ensures
        text::texts(final(out)@) == text::texts(old(out)@) + wrapped(
            text::texts(ws@),
            seq![],
            width as nat,
        ),
{
    let ghost all = text::texts(ws@);
    let ghost start = text::texts(out@);
    let mut line = String::new();
    let mut i: usize = 0;
    proof {
        assert(all.skip(0) =~= all);
        assert(line@ =~= seq![]);
    }
    while i < ws.len()
        invariant
            i <= ws.len(),
            all == text::texts(ws@),
            text::texts(out@) + wrapped(all.skip(i as int), line@, width as nat) == start + wrapped(
                all,
                seq![],
                width as nat,
            ),
        decreases ws.len() - i,
    {
        let ghost rest = all.skip(i as int);
        let ghost before = text::texts(out@);
        let ghost was = line@;
        proof {
            assert(rest[0] == ws@[i as int]@);
            assert(rest.drop_first() =~= all.skip(i + 1));
        }
        if show::count_chars(line.as_str()) == 0 {
            line = ws[i].clone();
        } else if !has_room(line.as_str(), ws[i].as_str(), width) {
            push_text(out, line);
            line = ws[i].clone();
            proof {
                assert(text::texts(out@) + wrapped(rest.drop_first(), line@, width as nat)
                    =~= before + (seq![was] + wrapped(rest.drop_first(), line@, width as nat)));
            }
        } else {
            line.append(" ");
            line.append(ws[i].as_str());
        }
        i = i + 1;
    }
    let ghost last = line@;
    let ghost before = text::texts(out@);
    push_text(out, line);
    proof {
        assert(all.skip(i as int).len() == 0);
        assert(before.push(last) =~= before + seq![last]);
    }
}

/// The text wrapped to lines of at most `width` bytes, as far as its words
/// allow. A line break stays one.
pub fn wrap_text(s: &str, width: usize) -> (r: Vec<String>)
    ensures
        text::texts(r@) == wrapped_all(text::pieces(s@, '\n'), width as nat),
{
    let cs = to_chars(s);
    let mut out: Vec<String> = Vec::new();
    let mut rest = cs.as_slice();
    let ghost all = text::pieces(s@, '\n');
    let ghost mut done: Seq<Seq<char>> = seq![];
    proof {
        assert(done + text::pieces(rest@, '\n') =~= all);
        assert(text::texts(out@) =~= wrapped_all(done, width as nat));
    }
    loop
        invariant
            all == text::pieces(s@, '\n'),
            done + text::pieces(rest@, '\n') == all,
            text::texts(out@) == wrapped_all(done, width as nat),
        decreases rest@.len(),
    {
        let n = find_char(rest, '\n');
        let line = part(rest, 0, n);
        proof {
            text::lemma_until_char(rest@, '\n');
            assert(line@ =~= rest@.take(n as int));
            assert(done.push(line@).drop_last() =~= done);
        }
        wrap_words(&mut out, &split_words(line), width);
        if n >= rest.len() {
            proof {
                assert(line@ =~= rest@);
                assert(done.push(line@) =~= all);
            }
            return out;
        }
        proof {
            assert(done.push(line@) + text::pieces(rest@.skip(n + 1), '\n') =~= done + (seq![
                line@,
            ] + text::pieces(rest@.skip(n + 1), '\n')));
            done = done.push(line@);
        }
        let tail = part(rest, n + 1, rest.len());
        proof {
            assert(tail@ =~= rest@.skip(n + 1));
        }
        rest = tail;
    }
}

proof fn lemma_joined_first(a: Seq<char>, rest: Seq<Seq<char>>, sep: Seq<char>)
    requires
        rest.len() > 0,
    ensures
        show::joined(seq![a] + rest, sep) == a + sep + show::joined(rest, sep),
    decreases rest.len(),
{
    let s = seq![a] + rest;
    if rest.len() == 1 {
        assert(s.drop_last() =~= seq![a]);
        assert(show::joined(s.drop_last(), sep) == a);
        assert(s.last() == rest[0]);
        assert(show::joined(rest, sep) == rest[0]);
    } else {
        lemma_joined_first(a, rest.drop_last(), sep);
        assert(s.drop_last() =~= seq![a] + rest.drop_last());
        assert(show::joined(s, sep) =~= a + sep + show::joined(rest, sep));
    }
}

proof fn lemma_wrapped(ws: Seq<Seq<char>>, line: Seq<char>, width: nat)
    requires
        forall|i: int| 0 <= i < ws.len() ==> (#[trigger] ws[i]).len() > 0,
    ensures
        wrapped(ws, line, width).len() > 0,
        show::joined(wrapped(ws, line, width), " "@) == if ws.len() == 0 {
            line
        } else if line.len() == 0 {
            show::joined(ws, " "@)
        } else {
            line + " "@ + show::joined(ws, " "@)
        },
    decreases ws.len(),
{
    if ws.len() > 0 {
        let rest = ws.drop_first();
        assert forall|i: int| 0 <= i < rest.len() implies (#[trigger] rest[i]).len() > 0 by {
            assert(rest[i] == ws[i + 1]);
        }
        assert(ws =~= seq![ws[0]] + rest);
        assert(ws[0].len() > 0);
        if rest.len() > 0 {
            lemma_joined_first(ws[0], rest, " "@);
        } else {
            assert(ws =~= seq![ws[0]]);
        }
        if line.len() == 0 {
            lemma_wrapped(rest, ws[0], width);
        } else if bytes(line) + bytes(ws[0]) + 1 > width {
            lemma_wrapped(rest, ws[0], width);
            lemma_joined_first(line, wrapped(rest, ws[0], width), " "@);
        } else {
            lemma_wrapped(rest, line + " "@ + ws[0], width);
            assert(show::joined(wrapped(ws, line, width), " "@) =~= line + " "@ + show::joined(
                ws,
                " "@,
            ));
        }
    }
}

/// Wrapping only turns spaces between words into line breaks: the lines, joined
/// again, are the words in order.
pub proof fn law_wrapping_keeps_the_words(s: Seq<char>, width: nat)
    ensures
        show::joined(wrapped(text::words(s), seq![], width), " "@) == show::joined(
            text::words(s),
            " "@,
        ),
{
    text::law_words_are_not_empty(s);
    lemma_wrapped(text::words(s), seq![], width);
    if text::words(s).len() == 0 {
        assert(show::joined(text::words(s), " "@) =~= seq![]);
    }
}

/// No line is longer than the width, unless it is a single word.
pub proof fn law_wrapped_lines_fit(ws: Seq<Seq<char>>, width: nat, i: int)
    requires
        0 <= i < wrapped(ws, seq![], width).len(),
    ensures
        bytes(wrapped(ws, seq![], width)[i]) <= width || ws.contains(wrapped(ws, seq![], width)[i]),
{
    lemma_lines_fit(ws, seq![], width, i);
    assert(bytes(Seq::<char>::empty()) == 0);
}

proof fn lemma_lines_fit(ws: Seq<Seq<char>>, line: Seq<char>, width: nat, i: int)
    requires
        0 <= i < wrapped(ws, line, width).len(),
    ensures
        ({
            let l = wrapped(ws, line, width)[i];
            bytes(l) <= width || ws.contains(l) || l == line
        }),
    decreases ws.len(),
{
    if ws.len() > 0 {
        let rest = ws.drop_first();
        assert forall|l: Seq<char>| rest.contains(l) implies ws.contains(l) by {
            let k = choose|k: int| 0 <= k < rest.len() && rest[k] == l;
            assert(ws[k + 1] == l);
        }
        assert(ws.contains(ws[0]));
        if line.len() == 0 {
            lemma_lines_fit(rest, ws[0], width, i);
        } else if bytes(line) + bytes(ws[0]) + 1 > width {
            if i > 0 {
                lemma_lines_fit(rest, ws[0], width, i - 1);
            }
        } else {
            let longer = line + " "@ + ws[0];
            lemma_lines_fit(rest, longer, width, i);
            lemma_bytes_add(line, " "@);
            lemma_bytes_add(line + " "@, ws[0]);
            reveal_strlit(" ");
            assert(" "@.drop_last() =~= seq![]);
            assert(bytes(" "@.drop_last()) == 0);
            assert(bytes(" "@) == 1);
        }
    }
}

proof fn lemma_bytes_add(a: Seq<char>, b: Seq<char>)
    ensures
        bytes(a + b) == bytes(a) + bytes(b),
    decreases b.len(),
{
    if b.len() == 0 {
        assert(a + b =~= a);
    } else {
        lemma_bytes_add(a, b.drop_last());
        assert((a + b).drop_last() =~= a + b.drop_last());
    }
}

// ---- explain ----------------------------------------------------------------

/// Where the first blank line starts, or the length.
pub open spec fn until_blank(s: Seq<char>) -> int
    decreases s.len(),
{
    if s.len() < 2 {
        s.len() as int
    } else if s[0] == '\n' && s[1] == '\n' {
        0
    } else {
        1 + until_blank(s.drop_first())
    }
}

pub proof fn lemma_until_blank(s: Seq<char>)
    ensures
        0 <= until_blank(s) <= s.len(),
        until_blank(s) < s.len() ==> until_blank(s) + 2 <= s.len(),
    decreases s.len(),
{
    if s.len() >= 2 && !(s[0] == '\n' && s[1] == '\n') {
        lemma_until_blank(s.drop_first());
    }
}

/// The paragraphs of a text: its parts between blank lines.
pub open spec fn paragraphs(s: Seq<char>) -> Seq<Seq<char>>
    decreases s.len(),
{
    let n = until_blank(s);
    if n >= s.len() {
        seq![s]
    } else {
        proof {
            lemma_until_blank(s);
        }
        seq![s.take(n)] + paragraphs(s.skip(n + 2))
    }
}

fn find_blank(s: &[char]) -> (r: usize)
    ensures
        r == until_blank(s@),
        r <= s@.len(),
        r < s@.len() ==> r + 2 <= s@.len(),
{
    let mut i: usize = 0;
    proof {
        assert(s@.skip(0) =~= s@);
        lemma_until_blank(s@);
    }
    while s.len() - i >= 2 && !(s[i] == '\n' && s[i + 1] == '\n')
        invariant
            i <= s.len(),
            until_blank(s@) == i + until_blank(s@.skip(i as int)),
        decreases s.len() - i,
    {
        proof {
            assert(s@.skip(i as int).drop_first() =~= s@.skip(i + 1));
        }
        i = i + 1;
    }
    if s.len() - i < 2 {
        return s.len();
    }
    i
}

/// A paragraph: its wrapped lines, and an empty one.
pub open spec fn paragraph_lines(p: Seq<char>, width: nat) -> Seq<LineView> {
    let segs = wrapped_all(text::pieces(p, '\n'), width);
    Seq::new(
        segs.len(),
        |i: int| seq![screen::styled(" "@ + segs[i], plain(Tone::Fg))],
    ).push(seq![])
}

/// Paragraphs one after the other.
pub open spec fn body_lines(ps: Seq<Seq<char>>, width: nat) -> Seq<LineView>
    decreases ps.len(),
{
    if ps.len() == 0 {
        seq![]
    } else {
        body_lines(ps.drop_last(), width) + paragraph_lines(ps.last(), width)
    }
}

/// A section: its title and its paragraphs.
pub open spec fn section_lines(title: Seq<char>, body: Seq<char>, width: nat) -> Seq<LineView> {
    seq![seq![screen::styled(" "@ + title, bold(Tone::Accent))]] + body_lines(
        paragraphs(body),
        width,
    )
}

/// The first `n` sections.
pub open spec fn tour_lines(n: nat, width: nat) -> Seq<LineView>
    decreases n,
{
    if n == 0 {
        seq![]
    } else {
        tour_lines((n - 1) as nat, width) + section_lines(
            SECTIONS@[n - 1].0@,
            SECTIONS@[n - 1].1@,
            width,
        )
    }
}

fn push_line(out: &mut Vec<Line>, l: Line)
    ensures
        screen::lines_view(final(out)@) == screen::lines_view(old(out)@).push(l@),
{
    let ghost before = screen::lines_view(out@);
    out.push(l);
    proof {
        assert(screen::lines_view(out@) =~= before.push(l@));
    }
}

fn push_paragraph(out: &mut Vec<Line>, p: &[char], width: usize)
    ensures
        screen::lines_view(final(out)@) == screen::lines_view(old(out)@) + paragraph_lines(
            p@,
            width as nat,
        ),
{
    let ghost start = screen::lines_view(out@);
    let s = to_text(p);
    let segs = wrap_text(s.as_str(), width);
    let ghost all = text::texts(segs@);
    let ghost want = Seq::new(
        all.len(),
        |i: int| seq![screen::styled(" "@ + all[i], plain(Tone::Fg))],
    );
    let mut i: usize = 0;
    proof {
        assert(start + want.take(0) =~= start);
    }
    while i < segs.len()
        invariant
            i <= segs.len(),
            all == text::texts(segs@),
            want.len() == all.len(),
            forall|j: int|
                0 <= j < all.len() ==> #[trigger] want[j] == seq![
                    screen::styled(" "@ + all[j], plain(Tone::Fg)),
                ],
            screen::lines_view(out@) == start + want.take(i as int),
        decreases segs.len() - i,
    {
        push_line(out, line1(span2(" ", segs[i].as_str(), plain(Tone::Fg))));
        i = i + 1;
        proof {
            assert(want.take(i as int) =~= want.take(i - 1).push(want[i - 1]));
            assert(screen::lines_view(out@) =~= start + want.take(i as int));
        }
    }
    push_line(out, Line::new());
    proof {
        assert(want.take(i as int) =~= want);
        assert(screen::lines_view(out@) =~= start + paragraph_lines(p@, width as nat));
    }
}

fn push_section(out: &mut Vec<Line>, title: &str, body: &str, width: usize)
    ensures
        screen::lines_view(final(out)@) == screen::lines_view(old(out)@) + section_lines(
            title@,
            body@,
            width as nat,
        ),
{
    let ghost start = screen::lines_view(out@);
    let head = line1(span2(" ", title, bold(Tone::Accent)));
    let ghost first = head@;
    push_line(out, head);
    let cs = to_chars(body);
    let mut rest = cs.as_slice();
    let ghost all = paragraphs(body@);
    let ghost mut done: Seq<Seq<char>> = seq![];
    proof {
        assert(done + paragraphs(rest@) =~= all);
        assert(screen::lines_view(out@) =~= start + (seq![first] + body_lines(done, width as nat)));
    }
    loop
        invariant
            start == screen::lines_view(old(out)@),
            all == paragraphs(body@),
            first == seq![screen::styled(" "@ + title@, bold(Tone::Accent))],
            done + paragraphs(rest@) == all,
            screen::lines_view(out@) == start + (seq![first] + body_lines(done, width as nat)),
        decreases rest@.len(),
    {
        let n = find_blank(rest);
        let p = part(rest, 0, n);
        let ghost before = screen::lines_view(out@);
        proof {
            assert(p@ =~= rest@.take(n as int));
            assert(done.push(p@).drop_last() =~= done);
        }
        push_paragraph(out, p, width);
        proof {
            let more = paragraph_lines(p@, width as nat);
            assert(before + more =~= start + (seq![first] + (body_lines(done, width as nat)
                + more)));
        }
        if n >= rest.len() {
            proof {
                assert(p@ =~= rest@);
                assert(done.push(p@) =~= all);
            }
            return;
        }
        proof {
            assert(done.push(p@) + paragraphs(rest@.skip(n + 2)) =~= done + (seq![p@]
                + paragraphs(rest@.skip(n + 2))));
            done = done.push(p@);
        }
        let tail = part(rest, n + 2, rest.len());
        proof {
            assert(tail@ =~= rest@.skip(n + 2));
        }
        rest = tail;
    }
}

/// The lines of the tour.
fn write_tour(width: usize) -> (r: Vec<Line>)
    ensures
        screen::lines_view(r@) == tour_lines(12, width as nat),
{
    let mut out: Vec<Line> = Vec::new();
    let mut i: usize = 0;
    proof {
        assert(screen::lines_view(out@) =~= seq![]);
    }
    while i < 12
        invariant
            i <= 12,
            screen::lines_view(out@) == tour_lines(i as nat, width as nat),
        decreases 12 - i,
    {
        push_section(&mut out, SECTIONS[i].0, SECTIONS[i].1, width);
        i = i + 1;
    }
    out
}

/// The width that the tour is wrapped to.
pub open spec fn tour_width(inner: u16) -> nat {
    if inner > 24 {
        (inner - 4) as nat
    } else {
        20
    }
}

/// The explain screen covers everything.
pub open spec fn explain_ops(area: Rect, scroll: u16) -> Seq<OpView> {
    let inner = area.framed();
    seq![
        OpView::Clear { area },
        OpView::Frame {
            area,
            title: seq![
                screen::styled(
                    " What am I looking at?  (e or q to close \u{b7} \u{2191}\u{2193} scroll) "@,
                    bold(Tone::Fg),
                ),
            ],
            foot: None,
            border: Tone::Accent,
        },
        OpView::Text { area: inner, lines: tour_lines(12, tour_width(inner.width)), scroll },
    ]
}

pub fn draw_explain(area: Rect, scroll: u16) -> (r: Vec<Op>)
    ensures
        panels::ops_view(r@) == explain_ops(area, scroll),
{
    let inner = area.inner();
    let width: usize = if inner.width > 24 {
        (inner.width - 4) as usize
    } else {
        20
    };
    let lines = write_tour(width);
    let r = vec![
        Op::Clear { area },
        Op::Frame {
            area,
            title: line1(
                span(
                    " What am I looking at?  (e or q to close \u{b7} \u{2191}\u{2193} scroll) ",
                    bold(Tone::Fg),
                ),
            ),
            foot: None,
            border: Tone::Accent,
        },
        Op::Text { area: inner, lines, scroll },
    ];
    proof {
        assert(panels::ops_view(r@) =~= explain_ops(area, scroll));
    }
    r
}

// ---- keymap -----------------------------------------------------------------

/// The popup in the middle of an area.
pub open spec fn popup(area: Rect) -> Rect {
    let w: u16 = if area.width < 52 {
        area.width
    } else {
        52
    };
    let h: u16 = if area.height < 16 {
        area.height
    } else {
        16
    };
    Rect {
        x: (area.x + (area.width - w) / 2) as u16,
        y: (area.y + (area.height - h) / 2) as u16,
        width: w,
        height: h,
    }
}

pub fn find_popup(area: Rect) -> (r: Rect)
    requires
        area.fits(),
    ensures
        r == popup(area),
        r.fits(),
        r.within(area),
{
    let w: u16 = if area.width < 52 {
        area.width
    } else {
        52
    };
    let h: u16 = if area.height < 16 {
        area.height
    } else {
        16
    };
    Rect {
        x: area.x + (area.width - w) / 2,
        y: area.y + (area.height - h) / 2,
        width: w,
        height: h,
    }
}

/// A key and what it does.
pub open spec fn key_line(k: Seq<char>, v: Seq<char>) -> LineView {
    seq![
        screen::styled(" "@ + show::left(k, 9), bold(Tone::Accent)),
        screen::styled(v, plain(Tone::Fg)),
    ]
}

/// The lines of the keymap.
pub open spec fn keymap_lines() -> Seq<LineView> {
    Seq::new(10, |i: int| key_line(KEYMAP@[i].0@, KEYMAP@[i].1@))
}

/// The keymap popup.
pub open spec fn help_ops(area: Rect) -> Seq<OpView> {
    let p = popup(area);
    seq![
        OpView::Clear { area: p },
        OpView::Frame {
            area: p,
            title: seq![screen::styled(" keymap "@, bold(Tone::Fg))],
            foot: None,
            border: Tone::Accent,
        },
        panels::written(p.framed(), keymap_lines()),
    ]
}

pub fn draw_help(area: Rect) -> (r: Vec<Op>)
    requires
        area.fits(),
    ensures
        panels::ops_view(r@) == help_ops(area),
{
    let p = find_popup(area);
    let mut lines: Vec<Line> = Vec::new();
    let mut i: usize = 0;
    while i < 10
        invariant
            i <= 10,
            lines.len() == i,
            forall|j: int|
                0 <= j < i ==> (#[trigger] lines@[j])@ == key_line(KEYMAP@[j].0@, KEYMAP@[j].1@),
        decreases 10 - i,
    {
        let k = pad_right(KEYMAP[i].0, 9);
        lines.push(
            line2(
                span2(" ", k.as_str(), bold(Tone::Accent)),
                span(KEYMAP[i].1, plain(Tone::Fg)),
            ),
        );
        i = i + 1;
    }
    proof {
        assert(screen::lines_view(lines@) =~= keymap_lines());
    }
    let r = vec![
        Op::Clear { area: p },
        Op::Frame {
            area: p,
            title: line1(span(" keymap ", bold(Tone::Fg))),
            foot: None,
            border: Tone::Accent,
        },
        Op::Text { area: p.inner(), lines, scroll: 0 },
    ];
    proof {
        assert(panels::ops_view(r@) =~= help_ops(area));
    }
    r
}

/// The keymap is as large as 52 by 16 cells, or as the screen, and stands in the
/// middle: it leaves as much on the left as on the right, and as much above as
/// below, but for one cell.
pub proof fn law_keymap_stands_in_the_middle(area: Rect)
    requires
        area.fits(),
    ensures
        ({
            let p = popup(area);
            let left = p.x - area.x;
            let right = area.x + area.width - (p.x + p.width);
            let above = p.y - area.y;
            let below = area.y + area.height - (p.y + p.height);
            &&& p.width == 52 || p.width == area.width < 52
            &&& p.height == 16 || p.height == area.height < 16
            &&& 0 <= left <= right <= left + 1
            &&& 0 <= above <= below <= above + 1
        }),
{
}

/// The keymap shows every key with what it does, and what is below it is
/// blanked first.
pub proof fn law_keymap_shows_every_key(area: Rect, i: int)
    requires
        0 <= i < 10,
    ensures
        ({
            let ops = help_ops(area);
            &&& ops.len() == 3
            &&& ops[0] == (OpView::Clear { area: popup(area) })
            &&& ops[1].area() == popup(area)
            &&& ops[2] matches OpView::Text { lines, .. } && lines.len() == KEYMAP@.len()
                && lines[i].len() == 2 && lines[i][1].text == KEYMAP@[i].1@
        }),
{
}

/// The tour has the title of every section, with its paragraphs below it, the
/// sections in order.
pub proof fn law_tour_shows_every_section(n: nat, width: nat, i: int)
    requires
        0 <= i < n,
    ensures
        exists|at: int| #[trigger] starts_section(n, width, i, at),
    decreases n,
{
    let few = tour_lines((n - 1) as nat, width);
    let last = section_lines(SECTIONS@[n - 1].0@, SECTIONS@[n - 1].1@, width);
    let all = tour_lines(n, width);
    assert(all == few + last);
    if i == n - 1 {
        assert(all.subrange(few.len() as int, (few.len() + last.len()) as int) =~= last);
        assert(starts_section(n, width, i, few.len() as int));
    } else {
        law_tour_shows_every_section((n - 1) as nat, width, i);
        let at = choose|at: int| #[trigger] starts_section((n - 1) as nat, width, i, at);
        let sec = section_lines(SECTIONS@[i].0@, SECTIONS@[i].1@, width);
        assert(all.subrange(at, at + sec.len()) =~= few.subrange(at, at + sec.len()));
        assert(starts_section(n, width, i, at));
    }
}

/// A section stands in the tour from this line on, behind those before it.
pub open spec fn starts_section(n: nat, width: nat, i: int, at: int) -> bool {
    let s = section_lines(SECTIONS@[i].0@, SECTIONS@[i].1@, width);
    let all = tour_lines(n, width);
    &&& at == tour_lines(i as nat, width).len()
    &&& at + s.len() <= all.len()
    &&& all.subrange(at, at + s.len()) == s
    &&& s[0].len() == 1
    &&& s[0][0].text == " "@ + SECTIONS@[i].0@
}

} // verus!
