//! The label block of a record: `k="v",...` with escapes inside the quotes.
use crate::key;
use crate::key::Labels;
use crate::text::{find_char, part, to_chars, to_text};
use crate::text;
use vstd::prelude::*;

verus! {

/// What may stand between two labels.
pub open spec fn separator(c: char) -> bool {
    c == ',' || c == ' ' || c == '\t'
}

pub open spec fn skip_separators(s: Seq<char>) -> Seq<char>
    decreases s.len(),
{
    if s.len() > 0 && separator(s[0]) {
        skip_separators(s.drop_first())
    } else {
        s
    }
}

/// What a backslash followed by `c` stands for.
pub open spec fn unescaped(c: char) -> char {
    if c == 'n' {
        '\n'
    } else {
        c
    }
}

/// A quoted value, read from behind its opening quote: the value, and what
/// follows its closing quote. A missing quote ends the value with the text.
pub open spec fn quoted(s: Seq<char>) -> (Seq<char>, Seq<char>)
    decreases s.len(),
{
    if s.len() == 0 {
        (seq![], seq![])
    } else if s[0] == '"' {
        (seq![], s.drop_first())
    } else if s[0] == '\\' {
        if s.len() == 1 {
            (seq![], seq![])
        } else {
            let (v, rest) = quoted(s.skip(2));
            (seq![unescaped(s[1])] + v, rest)
        }
    } else {
        let (v, rest) = quoted(s.drop_first());
        (seq![s[0]] + v, rest)
    }
}

pub proof fn lemma_quoted_shrinks(s: Seq<char>)
    ensures
        quoted(s).1.len() <= s.len(),
    decreases s.len(),
{
    if s.len() > 0 && s[0] == '\\' {
        if s.len() > 1 {
            lemma_quoted_shrinks(s.skip(2));
        }
    } else if s.len() > 0 && s[0] != '"' {
        lemma_quoted_shrinks(s.drop_first());
    }
}

pub proof fn lemma_skip_shrinks(s: Seq<char>)
    ensures
        skip_separators(s).len() <= s.len(),
    decreases s.len(),
{
    if s.len() > 0 && separator(s[0]) {
        lemma_skip_shrinks(s.drop_first());
    }
}

/// The labels of a block. Reading stops at the first thing that is not a name,
/// `=` and an opening quote.
pub open spec fn labels_of(s: Seq<char>) -> Labels
    decreases s.len(),
{
    let t = skip_separators(s);
    let n = text::until_char(t, '=');
    if n + 1 >= t.len() || t[n + 1] != '"' {
        seq![]
    } else {
        let (v, rest) = quoted(t.skip(n + 2));
        proof {
            lemma_skip_shrinks(s);
            text::lemma_until_char(t, '=');
            lemma_quoted_shrinks(t.skip(n + 2));
        }
        seq![(t.take(n), v)] + labels_of(rest)
    }
}

/// Position of the brace that closes a block, read from behind the opening
/// one. A brace inside quotes closes nothing.
pub open spec fn block_end(s: Seq<char>, in_quotes: bool) -> Option<int>
    decreases s.len(),
{
    if s.len() == 0 {
        None
    } else if !in_quotes && s[0] == '}' {
        Some(0)
    } else if in_quotes && s[0] == '\\' {
        if s.len() == 1 {
            None
        } else {
            match block_end(s.skip(2), true) {
                Some(i) => Some(i + 2),
                None => None,
            }
        }
    } else {
        match block_end(s.drop_first(), in_quotes != (s[0] == '"')) {
            Some(i) => Some(i + 1),
            None => None,
        }
    }
}

/// Reads a quoted value of `s` from position `from`; returns the value and the
/// position behind its closing quote.
fn read_quoted(s: &[char], from: usize) -> (r: (String, usize))
    requires
        from <= s@.len(),
    ensures
        from <= r.1 <= s@.len(),
        quoted(s@.skip(from as int)) == (r.0@, s@.skip(r.1 as int)),
{
    let mut value = String::new();
    let mut i: usize = from;
    let ghost whole = quoted(s@.skip(from as int));
    proof {
        assert(value@ + whole.0 =~= whole.0);
    }
    loop
        invariant
            from <= i <= s.len(),
            whole == quoted(s@.skip(from as int)),
            value@ + quoted(s@.skip(i as int)).0 == whole.0,
            quoted(s@.skip(i as int)).1 == whole.1,
        decreases s.len() - i,
    {
        let ghost rest = s@.skip(i as int);
        if i == s.len() {
            proof {
                assert(value@ =~= whole.0);
                assert(rest =~= Seq::<char>::empty());
            }
            return (value, i);
        }
        let c = s[i];
        let ghost before = value@;
        if c == '"' {
            proof {
                assert(value@ =~= whole.0);
                assert(rest.drop_first() =~= s@.skip(i + 1));
            }
            return (value, i + 1);
        } else if c == '\\' {
            if i + 1 == s.len() {
                proof {
                    assert(value@ =~= whole.0);
                    assert(s@.skip(i + 1) =~= Seq::<char>::empty());
                }
                return (value, i + 1);
            }
            let e = s[i + 1];
            if e == 'n' {
                value.push('\n');
            } else {
                value.push(e);
            }
            proof {
                assert(rest.skip(2) =~= s@.skip(i + 2));
                let v = quoted(s@.skip(i + 2)).0;
                assert(value@ + v =~= before + (seq![unescaped(e)] + v));
            }
            i = i + 2;
        } else {
            value.push(c);
            proof {
                assert(rest.drop_first() =~= s@.skip(i + 1));
                let v = quoted(s@.skip(i + 1)).0;
                assert(value@ + v =~= before + (seq![c] + v));
            }
            i = i + 1;
        }
    }
}

/// The labels of a block, in the order in which they stand.
pub fn parse_labels(s: &[char]) -> (r: Vec<(String, String)>)
    ensures
        key::labels_view(r@) == labels_of(s@),
{
    let mut out: Vec<(String, String)> = Vec::new();
    let mut i: usize = 0;
    proof {
        assert(s@.skip(0) =~= s@);
        assert(key::labels_view(out@) + labels_of(s@) =~= labels_of(s@));
    }
    loop
        invariant
            i <= s.len(),
            key::labels_view(out@) + labels_of(s@.skip(i as int)) == labels_of(s@),
        decreases s.len() - i,
    {
        let ghost start = s@.skip(i as int);
        while i < s.len() && (s[i] == ',' || s[i] == ' ' || s[i] == '\t')
            invariant
                i <= s.len(),
                skip_separators(start) == skip_separators(s@.skip(i as int)),
                start.len() >= s.len() - i,
            decreases s.len() - i,
        {
            proof {
                assert(s@.skip(i as int).drop_first() =~= s@.skip(i + 1));
            }
            i = i + 1;
        }
        let ghost t = s@.skip(i as int);
        let rest = part(s, i, s.len());
        proof {
            assert(rest@ =~= t);
            assert(t == skip_separators(start));
            text::lemma_until_char(t, '=');
        }
        let n = find_char(rest, '=');
        if n >= rest.len() || n + 1 >= rest.len() || rest[n + 1] != '"' {
            proof {
                assert(key::labels_view(out@) =~= labels_of(s@));
            }
            return out;
        }
        let name = to_text(part(rest, 0, n));
        let (value, next) = read_quoted(s, i + n + 2);
        let ghost before = out@;
        let ghost added = (name@, value@);
        out.push((name, value));
        proof {
            assert(t.skip(n + 2) =~= s@.skip(i + n + 2));
            assert(added.0 =~= t.take(n as int));
            assert(key::labels_view(out@) =~= key::labels_view(before).push(added));
            let tail = labels_of(s@.skip(next as int));
            assert(labels_of(start) == seq![added] + tail);
            assert(key::labels_view(out@) + tail =~= key::labels_view(before) + (seq![added]
                + tail));
        }
        i = next;
    }
}

/// Position of the brace that closes the block, or `None`.
pub fn find_block_end(s: &[char]) -> (r: Option<usize>)
    ensures
        match r {
            Some(i) => i < s@.len() && block_end(s@, false) == Some(i as int),
            None => block_end(s@, false) is None,
        },
{
    let mut i: usize = 0;
    let mut in_quotes = false;
    proof {
        assert(s@.skip(0) =~= s@);
    }
    while i < s.len()
        invariant
            i <= s.len(),
            block_end(s@, false) == (match block_end(s@.skip(i as int), in_quotes) {
                Some(k) => Some(k + i),
                None => None::<int>,
            }),
        decreases s.len() - i,
    {
        let ghost rest = s@.skip(i as int);
        let c = s[i];
        if !in_quotes && c == '}' {
            return Some(i);
        }
        proof {
            assert(rest.drop_first() =~= s@.skip(i + 1));
        }
        if in_quotes && c == '\\' {
            if i + 1 == s.len() {
                return None;
            }
            proof {
                assert(rest.skip(2) =~= s@.skip(i + 2));
            }
            i = i + 2;
        } else {
            if c == '"' {
                in_quotes = !in_quotes;
            }
            i = i + 1;
        }
    }
    None
}

/// A character as it is written inside quotes.
pub open spec fn escaped(c: char) -> Seq<char> {
    if c == '\n' {
        seq!['\\', 'n']
    } else if c == '\\' || c == '"' {
        seq!['\\', c]
    } else {
        seq![c]
    }
}

/// A value as it is written inside quotes.
pub open spec fn escape(v: Seq<char>) -> Seq<char>
    decreases v.len(),
{
    if v.len() == 0 {
        seq![]
    } else {
        escaped(v[0]) + escape(v.drop_first())
    }
}

/// One label as it is written in a block.
pub open spec fn written(label: (Seq<char>, Seq<char>)) -> Seq<char> {
    label.0 + seq!['=', '"'] + escape(label.1) + seq!['"']
}

/// A block: labels between commas.
pub open spec fn block(labels: Labels) -> Seq<char>
    decreases labels.len(),
{
    if labels.len() == 0 {
        seq![]
    } else if labels.len() == 1 {
        written(labels[0])
    } else {
        written(labels[0]) + seq![','] + block(labels.drop_first())
    }
}

/// A name that can stand before `=` in a block.
pub open spec fn label_name(s: Seq<char>) -> bool {
    &&& s.len() > 0 ==> !separator(s[0])
    &&& forall|i: int| 0 <= i < s.len() ==> #[trigger] s[i] != '='
}

/// A name that hides no end of a block either: it holds no quote and no closing
/// brace.
pub open spec fn plain_name(s: Seq<char>) -> bool {
    &&& label_name(s)
    &&& forall|i: int| 0 <= i < s.len() ==> #[trigger] s[i] != '"' && s[i] != '}'
}

proof fn lemma_escape_is_one_line(v: Seq<char>)
    ensures
        forall|i: int| 0 <= i < escape(v).len() ==> #[trigger] escape(v)[i] != '\n',
    decreases v.len(),
{
    if v.len() > 0 {
        let head = escaped(v[0]);
        let tail = escape(v.drop_first());
        lemma_escape_is_one_line(v.drop_first());
        assert forall|i: int| 0 <= i < escape(v).len() implies #[trigger] escape(v)[i] != '\n' by {
            if i >= head.len() {
                assert(escape(v)[i] == tail[i - head.len()]);
            }
        }
    }
}

/// A block stands on one line, whatever its values hold, where its names do.
pub proof fn law_block_is_one_line(labels: Labels)
    requires
        forall|k: int, i: int|
            0 <= k < labels.len() && 0 <= i < labels[k].0.len() ==> #[trigger] labels[k].0[i]
                != '\n',
    ensures
        forall|i: int| 0 <= i < block(labels).len() ==> #[trigger] block(labels)[i] != '\n',
    decreases labels.len(),
{
    if labels.len() > 0 {
        let rest = labels.drop_first();
        lemma_escape_is_one_line(labels[0].1);
        assert forall|i: int| 0 <= i < written(labels[0]).len() implies #[trigger] written(
            labels[0],
        )[i] != '\n' by {
            if i < labels[0].0.len() {
                assert(labels[0].0[i] != '\n');
            }
        }
        if labels.len() > 1 {
            assert forall|k: int, i: int|
                0 <= k < rest.len() && 0 <= i < rest[k].0.len() implies #[trigger] rest[k].0[i]
                != '\n' by {
                assert(labels[k + 1].0[i] != '\n');
            }
            law_block_is_one_line(rest);
            let n = written(labels[0]).len();
            assert forall|i: int| 0 <= i < block(labels).len() implies #[trigger] block(labels)[i]
                != '\n' by {
                if i < n {
                    assert(block(labels)[i] == written(labels[0])[i]);
                } else if i > n {
                    assert(block(labels)[i] == block(rest)[i - n - 1]);
                }
            }
        }
    }
}

/// A value reads back from its quoted form, whatever characters it holds:
/// quotes, backslashes, braces and newlines too.
pub proof fn law_quoted_value_reads_back(v: Seq<char>, rest: Seq<char>)
    ensures
        quoted(escape(v) + seq!['"'] + rest) == (v, rest),
    decreases v.len(),
{
    let s = escape(v) + seq!['"'] + rest;
    if v.len() == 0 {
        assert(s.drop_first() =~= rest);
        assert(v =~= seq![]);
    } else {
        let tail = escape(v.drop_first()) + seq!['"'] + rest;
        law_quoted_value_reads_back(v.drop_first(), rest);
        assert(s =~= escaped(v[0]) + tail);
        if escaped(v[0]).len() == 2 {
            assert(s.skip(2) =~= tail);
        } else {
            assert(s.drop_first() =~= tail);
        }
        assert(seq![v[0]] + v.drop_first() =~= v);
    }
}

proof fn lemma_one_label(label: (Seq<char>, Seq<char>), rest: Seq<char>)
    requires
        label_name(label.0),
    ensures
        labels_of(written(label) + rest) == seq![label] + labels_of(rest),
{
    let s = written(label) + rest;
    let n = label.0.len() as int;
    assert(s[n] == '=' && s[n + 1] == '"');
    assert forall|j: int| 0 <= j < n implies #[trigger] s[j] != '=' by {
        assert(s[j] == label.0[j]);
    }
    if n > 0 {
        assert(s[0] == label.0[0]);
    }
    assert(skip_separators(s) == s);
    text::lemma_until_char_is(s, '=', n);
    assert(s.skip(n + 2) =~= escape(label.1) + seq!['"'] + rest);
    law_quoted_value_reads_back(label.1, rest);
    assert(s.take(n) =~= label.0);
}

/// Labels read back from the block that they were written to.
pub proof fn law_labels_read_back(labels: Labels)
    requires
        forall|i: int| 0 <= i < labels.len() ==> label_name((#[trigger] labels[i]).0),
    ensures
        labels_of(block(labels)) == labels,
    decreases labels.len(),
{
    if labels.len() == 0 {
        assert(skip_separators(seq![]) =~= Seq::<char>::empty());
        assert(labels =~= seq![]);
    } else {
        let tail = labels.drop_first();
        assert forall|i: int| 0 <= i < tail.len() implies label_name((#[trigger] tail[i]).0) by {
            assert(tail[i] == labels[i + 1]);
        }
        law_labels_read_back(tail);
        if labels.len() == 1 {
            lemma_one_label(labels[0], seq![]);
            assert(written(labels[0]) + seq![] =~= block(labels));
            assert(skip_separators(seq![]) =~= Seq::<char>::empty());
            assert(labels =~= seq![labels[0]]);
            assert(seq![labels[0]] + labels_of(seq![]) =~= labels);
        } else {
            let rest = seq![','] + block(tail);
            lemma_one_label(labels[0], rest);
            assert(written(labels[0]) + rest =~= block(labels));
            assert(rest.drop_first() =~= block(tail));
            assert(labels_of(rest) == labels_of(block(tail)));
            assert(seq![labels[0]] + tail =~= labels);
        }
    }
}

proof fn lemma_end_in_quotes(v: Seq<char>, rest: Seq<char>)
    ensures
        block_end(escape(v) + seq!['"'] + rest, true) == (match block_end(rest, false) {
            Some(i) => Some(i + escape(v).len() + 1),
            None => None::<int>,
        }),
    decreases v.len(),
{
    let s = escape(v) + seq!['"'] + rest;
    if v.len() == 0 {
        assert(s.drop_first() =~= rest);
    } else {
        let tail = escape(v.drop_first()) + seq!['"'] + rest;
        lemma_end_in_quotes(v.drop_first(), rest);
        assert(s =~= escaped(v[0]) + tail);
        if escaped(v[0]).len() == 2 {
            assert(s.skip(2) =~= tail);
        } else {
            assert(s.drop_first() =~= tail);
        }
    }
}

proof fn lemma_end_past_chars(name: Seq<char>, rest: Seq<char>)
    requires
        forall|i: int| 0 <= i < name.len() ==> #[trigger] name[i] != '"' && name[i] != '}',
    ensures
        block_end(name + rest, false) == (match block_end(rest, false) {
            Some(i) => Some(i + name.len()),
            None => None::<int>,
        }),
    decreases name.len(),
{
    if name.len() == 0 {
        assert(name + rest =~= rest);
    } else {
        let s = name + rest;
        assert(s[0] == name[0]);
        assert forall|i: int| 0 <= i < name.drop_first().len() implies #[trigger] name.drop_first()[i]
            != '"' && name.drop_first()[i] != '}' by {
            assert(name.drop_first()[i] == name[i + 1]);
        }
        lemma_end_past_chars(name.drop_first(), rest);
        assert(s.drop_first() =~= name.drop_first() + rest);
    }
}

proof fn lemma_end_past_label(label: (Seq<char>, Seq<char>), after: Seq<char>)
    requires
        plain_name(label.0),
    ensures
        block_end(written(label) + after, false) == (match block_end(after, false) {
            Some(i) => Some(i + written(label).len()),
            None => None::<int>,
        }),
{
    let inside = escape(label.1) + seq!['"'] + after;
    lemma_end_in_quotes(label.1, after);
    let open = seq!['"'] + inside;
    assert(open.drop_first() =~= inside);
    assert(block_end(open, false) == (match block_end(inside, true) {
        Some(i) => Some(i + 1),
        None => None::<int>,
    }));
    let eq = seq!['='] + open;
    assert(eq.drop_first() =~= open);
    assert(block_end(eq, false) == (match block_end(open, false) {
        Some(i) => Some(i + 1),
        None => None::<int>,
    }));
    assert(written(label).len() == label.0.len() + 3 + escape(label.1).len());
    lemma_end_past_chars(label.0, eq);
    assert(written(label) + after =~= label.0 + eq);
}

/// The end of a written block is found behind all of its labels, also where
/// a value holds braces or quotes.
pub proof fn law_block_ends_behind_its_labels(labels: Labels, rest: Seq<char>)
    requires
        forall|i: int| 0 <= i < labels.len() ==> plain_name((#[trigger] labels[i]).0),
    ensures
        block_end(block(labels) + seq!['}'] + rest, false) == Some(block(labels).len() as int),
    decreases labels.len(),
{
    let s = block(labels) + seq!['}'] + rest;
    let close = seq!['}'] + rest;
    if labels.len() == 0 {
        assert(s =~= close);
    } else if labels.len() == 1 {
        lemma_end_past_label(labels[0], close);
        assert(s =~= written(labels[0]) + close);
    } else {
        let tail = labels.drop_first();
        assert forall|i: int| 0 <= i < tail.len() implies plain_name((#[trigger] tail[i]).0) by {
            assert(tail[i] == labels[i + 1]);
        }
        law_block_ends_behind_its_labels(tail, rest);
        let after = seq![','] + (block(tail) + seq!['}'] + rest);
        assert(after.drop_first() =~= block(tail) + seq!['}'] + rest);
        lemma_end_past_label(labels[0], after);
        assert(s =~= written(labels[0]) + after);
    }
}

fn write_value(v: &str) -> (r: String)
    ensures
        r@ == escape(v@),
{
    let cs = to_chars(v);
    let mut out = String::new();
    let mut i: usize = 0;
    proof {
        assert(cs@.skip(0) =~= cs@);
        assert(out@ + escape(cs@) =~= escape(cs@));
    }
    while i < cs.len()
        invariant
            i <= cs.len(),
            out@ + escape(cs@.skip(i as int)) == escape(cs@),
        decreases cs.len() - i,
    {
        let c = cs[i];
        let ghost before = out@;
        if c == '\n' {
            out.push('\\');
            out.push('n');
        } else {
            if c == '\\' || c == '"' {
                out.push('\\');
            }
            out.push(c);
        }
        proof {
            let rest = cs@.skip(i as int);
            assert(rest.drop_first() =~= cs@.skip(i + 1));
            assert(out@ =~= before + escaped(c));
            assert(out@ + escape(cs@.skip(i + 1)) =~= before + escape(rest));
        }
        i = i + 1;
    }
    proof {
        assert(out@ =~= escape(cs@));
    }
    out
}

/// Writes labels as a block, without its braces.
pub fn write_block(labels: &Vec<(String, String)>) -> (r: String)
    ensures
        r@ == block(key::labels_view(labels@)),
{
    let ghost all = key::labels_view(labels@);
    let mut out = String::new();
    let mut i: usize = 0;
    proof {
        assert(all.skip(0) =~= all);
        assert(out@ + block(all) =~= block(all));
    }
    while i < labels.len()
        invariant
            i <= labels.len(),
            all == key::labels_view(labels@),
            out@ + block(all.skip(i as int)) == block(all),
        decreases labels.len() - i,
    {
        let ghost before = out@;
        let value = write_value(labels[i].1.as_str());
        out.append(labels[i].0.as_str());
        out.push('=');
        out.push('"');
        out.append(value.as_str());
        out.push('"');
        if i + 1 < labels.len() {
            out.push(',');
        }
        proof {
            let rest = all.skip(i as int);
            assert(rest.drop_first() =~= all.skip(i + 1));
            assert(rest[0] == all[i as int]);
            if i + 1 < labels.len() {
                assert(out@ + block(all.skip(i + 1)) =~= before + block(rest));
            } else {
                assert(out@ =~= before + written(rest[0]));
                assert(out@ + block(all.skip(i + 1)) =~= before + block(rest));
            }
        }
        i = i + 1;
    }
    proof {
        assert(out@ =~= block(all));
    }
    out
}

} // verus!
