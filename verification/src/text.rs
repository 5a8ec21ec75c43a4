//! Characters and strings: comparison, trimming, splitting and joining.
use vstd::prelude::*;

verus! {

/// Standard library: `String::push` appends one character.
pub assume_specification[ String::push ](s: &mut String, c: char)
    ensures
        final(s)@ == old(s)@.push(c),
;

/// Three-way outcome of a comparison.
#[derive(Clone, Copy, PartialEq, Eq, Structural, Debug)]
pub enum Rank {
    Below,
    Same,
    Above,
}

impl Rank {
    /// The same comparison seen from the other side.
    pub open spec fn flip(self) -> Rank {
        match self {
            Rank::Below => Rank::Above,
            Rank::Same => Rank::Same,
            Rank::Above => Rank::Below,
        }
    }
}

/// Lexicographic order of character sequences by code point.
pub open spec fn rank_text(a: Seq<char>, b: Seq<char>) -> Rank
    decreases a.len(),
{
    if a.len() == 0 {
        if b.len() == 0 {
            Rank::Same
        } else {
            Rank::Below
        }
    } else if b.len() == 0 {
        Rank::Above
    } else if a[0] < b[0] {
        Rank::Below
    } else if b[0] < a[0] {
        Rank::Above
    } else {
        rank_text(a.drop_first(), b.drop_first())
    }
}

/// Compares two strings by code point.
pub fn order_text(a: &str, b: &str) -> (r: Rank)
    ensures
        r == rank_text(a@, b@),
{
    let mut x = a.chars();
    let mut y = b.chars();
    loop
        invariant
            rank_text(a@, b@) == rank_text(
                vstd::std_specs::iter::IteratorSpec::remaining(&x),
                vstd::std_specs::iter::IteratorSpec::remaining(&y),
            ),
            vstd::std_specs::iter::IteratorSpec::decrease(&x) is Some,
        decreases vstd::std_specs::iter::IteratorSpec::decrease(&x)->0,
    {
        match x.next() {
            None => {
                return match y.next() {
                    None => Rank::Same,
                    Some(_) => Rank::Below,
                };
            },
            Some(c) => match y.next() {
                None => {
                    return Rank::Above;
                },
                Some(d) => {
                    if c < d {
                        return Rank::Below;
                    }
                    if d < c {
                        return Rank::Above;
                    }
                },
            },
        }
    }
}

/// The characters of a string, one by one.
pub fn to_chars(s: &str) -> (r: Vec<char>)
    ensures
        r@ == s@,
{
    let mut out: Vec<char> = Vec::new();
    let mut it = s.chars();
    loop
        invariant
            out@ + vstd::std_specs::iter::IteratorSpec::remaining(&it) == s@,
            vstd::std_specs::iter::IteratorSpec::decrease(&it) is Some,
        decreases vstd::std_specs::iter::IteratorSpec::decrease(&it)->0,
    {
        let ghost rest = vstd::std_specs::iter::IteratorSpec::remaining(&it);
        match it.next() {
            None => {
                return out;
            },
            Some(c) => {
                out.push(c);
                proof {
                    assert(out@ + vstd::std_specs::iter::IteratorSpec::remaining(&it)
                        =~= out@.drop_last() + rest);
                }
            },
        }
    }
}

/// Whether two strings hold the same characters.
pub fn same(a: &str, b: &str) -> (r: bool)
    ensures
        r == (a@ == b@),
{
    proof {
        lemma_rank_text_same(a@, b@);
    }
    matches!(order_text(a, b), Rank::Same)
}

pub proof fn lemma_rank_text_same(a: Seq<char>, b: Seq<char>)
    ensures
        (rank_text(a, b) == Rank::Same) == (a == b),
    decreases a.len(),
{
    if a.len() > 0 && b.len() > 0 && a[0] == b[0] {
        lemma_rank_text_same(a.drop_first(), b.drop_first());
        if a.drop_first() == b.drop_first() {
            assert(a =~= seq![a[0]] + a.drop_first());
            assert(b =~= seq![b[0]] + b.drop_first());
        }
    } else if a.len() == 0 && b.len() == 0 {
        assert(a =~= b);
    }
}

pub proof fn lemma_rank_text_flip(a: Seq<char>, b: Seq<char>)
    ensures
        rank_text(b, a) == rank_text(a, b).flip(),
    decreases a.len(),
{
    if a.len() > 0 && b.len() > 0 && a[0] == b[0] {
        lemma_rank_text_flip(a.drop_first(), b.drop_first());
    }
}

pub proof fn lemma_rank_text_trans(a: Seq<char>, b: Seq<char>, c: Seq<char>)
    requires
        rank_text(a, b) == Rank::Below,
        rank_text(b, c) == Rank::Below,
    ensures
        rank_text(a, c) == Rank::Below,
    decreases a.len(),
{
    if a.len() > 0 && b.len() > 0 && c.len() > 0 && a[0] == b[0] && b[0] == c[0] {
        lemma_rank_text_trans(a.drop_first(), b.drop_first(), c.drop_first());
    }
}

/// A string made of the given characters.
pub fn to_text(cs: &[char]) -> (r: String)
    ensures
        r@ == cs@,
{
    let mut out = String::new();
    let mut i: usize = 0;
    while i < cs.len()
        invariant
            i <= cs.len(),
            out@ == cs@.take(i as int),
        decreases cs.len() - i,
    {
        out.push(cs[i]);
        i = i + 1;
        proof {
            assert(cs@.take(i as int) =~= cs@.take(i - 1).push(cs@[i - 1]));
        }
    }
    proof {
        assert(cs@.take(cs@.len() as int) =~= cs@);
    }
    out
}

/// White space: the characters that separate words.
pub open spec fn space(c: char) -> bool {
    let u = c as u32;
    9 <= u <= 13 || u == 0x20 || u == 0x85 || u == 0xa0 || u == 0x1680 || 0x2000 <= u <= 0x200a || u
        == 0x2028 || u == 0x2029 || u == 0x202f || u == 0x205f || u == 0x3000
}

pub fn is_space(c: char) -> (r: bool)
    ensures
        r == space(c),
{
    let u: u32 = c as u32;
    (9 <= u && u <= 13) || u == 0x20 || u == 0x85 || u == 0xa0 || u == 0x1680 || (0x2000 <= u && u
        <= 0x200a) || u == 0x2028 || u == 0x2029 || u == 0x202f || u == 0x205f || u == 0x3000
}

/// The text without leading white space.
pub open spec fn trim_start(s: Seq<char>) -> Seq<char>
    decreases s.len(),
{
    if s.len() > 0 && space(s[0]) {
        trim_start(s.drop_first())
    } else {
        s
    }
}

/// The text without trailing white space.
pub open spec fn trim_end(s: Seq<char>) -> Seq<char>
    decreases s.len(),
{
    if s.len() > 0 && space(s.last()) {
        trim_end(s.drop_last())
    } else {
        s
    }
}

/// The text without white space at either end.
pub open spec fn trim(s: Seq<char>) -> Seq<char> {
    trim_end(trim_start(s))
}

/// Position of the first `c`, or the length.
pub open spec fn until_char(s: Seq<char>, c: char) -> int
    decreases s.len(),
{
    if s.len() == 0 || s[0] == c {
        0
    } else {
        1 + until_char(s.drop_first(), c)
    }
}

/// Position of the first white space, or the length.
pub open spec fn until_space(s: Seq<char>) -> int
    decreases s.len(),
{
    if s.len() == 0 || space(s[0]) {
        0
    } else {
        1 + until_space(s.drop_first())
    }
}

pub proof fn lemma_until_char(s: Seq<char>, c: char)
    ensures
        0 <= until_char(s, c) <= s.len(),
        until_char(s, c) < s.len() ==> s[until_char(s, c)] == c,
        forall|j: int| 0 <= j < until_char(s, c) ==> #[trigger] s[j] != c,
    decreases s.len(),
{
    if s.len() > 0 && s[0] != c {
        lemma_until_char(s.drop_first(), c);
        assert forall|j: int| 0 <= j < until_char(s, c) implies #[trigger] s[j] != c by {
            if j > 0 {
                assert(s.drop_first()[j - 1] == s[j]);
            }
        }
    }
}

pub proof fn lemma_until_char_is(s: Seq<char>, c: char, i: int)
    requires
        0 <= i <= s.len(),
        i < s.len() ==> s[i] == c,
        forall|j: int| 0 <= j < i ==> #[trigger] s[j] != c,
    ensures
        until_char(s, c) == i,
{
    lemma_until_char(s, c);
}

pub proof fn lemma_until_space(s: Seq<char>)
    ensures
        0 <= until_space(s) <= s.len(),
        until_space(s) < s.len() ==> space(s[until_space(s)]),
        forall|j: int| 0 <= j < until_space(s) ==> !space(#[trigger] s[j]),
    decreases s.len(),
{
    if s.len() > 0 && !space(s[0]) {
        lemma_until_space(s.drop_first());
        assert forall|j: int| 0 <= j < until_space(s) implies !space(#[trigger] s[j]) by {
            if j > 0 {
                assert(s.drop_first()[j - 1] == s[j]);
            }
        }
    }
}

pub proof fn lemma_until_space_is(s: Seq<char>, i: int)
    requires
        0 <= i <= s.len(),
        i < s.len() ==> space(s[i]),
        forall|j: int| 0 <= j < i ==> !space(#[trigger] s[j]),
    ensures
        until_space(s) == i,
{
    lemma_until_space(s);
}

pub proof fn lemma_trim_start(s: Seq<char>)
    ensures
        trim_start(s).len() <= s.len(),
        trim_start(s) == s.skip(s.len() - trim_start(s).len()),
        trim_start(s).len() > 0 ==> !space(trim_start(s)[0]),
    decreases s.len(),
{
    if s.len() > 0 && space(s[0]) {
        lemma_trim_start(s.drop_first());
        let t = s.drop_first();
        assert(t.skip(t.len() - trim_start(s).len()) =~= s.skip(s.len() - trim_start(s).len()));
    } else {
        assert(s.skip(0) =~= s);
    }
}

/// Position of the first `c`, or the length.
pub fn find_char(s: &[char], c: char) -> (r: usize)
    ensures
        r == until_char(s@, c),
        r <= s@.len(),
{
    let mut i: usize = 0;
    while i < s.len() && s[i] != c
        invariant
            i <= s.len(),
            forall|j: int| 0 <= j < i ==> #[trigger] s@[j] != c,
        decreases s.len() - i,
    {
        i = i + 1;
    }
    proof {
        lemma_until_char_is(s@, c, i as int);
    }
    i
}

/// Position of the first white space, or the length.
pub fn find_space(s: &[char]) -> (r: usize)
    ensures
        r == until_space(s@),
        r <= s@.len(),
{
    let mut i: usize = 0;
    while i < s.len() && !is_space(s[i])
        invariant
            i <= s.len(),
            forall|j: int| 0 <= j < i ==> !space(#[trigger] s@[j]),
        decreases s.len() - i,
    {
        i = i + 1;
    }
    proof {
        lemma_until_space_is(s@, i as int);
    }
    i
}

/// The part of `s` from `from` up to `to`.
pub fn part(s: &[char], from: usize, to: usize) -> (r: &[char])
    requires
        from <= to <= s@.len(),
    ensures
        r@ == s@.subrange(from as int, to as int),
{
    vstd::slice::slice_subrange(s, from, to)
}

pub fn strip_start(s: &[char]) -> (r: &[char])
    ensures
        r@ == trim_start(s@),
{
    let mut i: usize = 0;
    proof {
        assert(s@.skip(0) =~= s@);
    }
    while i < s.len() && is_space(s[i])
        invariant
            i <= s.len(),
            trim_start(s@) == trim_start(s@.skip(i as int)),
        decreases s.len() - i,
    {
        proof {
            assert(s@.skip(i as int).drop_first() =~= s@.skip(i + 1));
        }
        i = i + 1;
    }
    let r = part(s, i, s.len());
    proof {
        assert(r@ =~= s@.skip(i as int));
    }
    r
}

pub fn strip_end(s: &[char]) -> (r: &[char])
    ensures
        r@ == trim_end(s@),
{
    let mut n: usize = s.len();
    proof {
        assert(s@.take(n as int) =~= s@);
    }
    while n > 0 && is_space(s[n - 1])
        invariant
            n <= s.len(),
            trim_end(s@) == trim_end(s@.take(n as int)),
        decreases n,
    {
        proof {
            assert(s@.take(n as int).drop_last() =~= s@.take(n - 1));
        }
        n = n - 1;
    }
    let r = part(s, 0, n);
    proof {
        assert(r@ =~= s@.take(n as int));
    }
    r
}

pub fn strip(s: &[char]) -> (r: &[char])
    ensures
        r@ == trim(s@),
{
    strip_end(strip_start(s))
}

/// The words of a text: its longest runs without white space.
pub open spec fn words(s: Seq<char>) -> Seq<Seq<char>>
    decreases s.len(),
{
    let t = trim_start(s);
    let n = until_space(t);
    if t.len() == 0 {
        seq![]
    } else {
        proof {
            lemma_trim_start(s);
            lemma_until_space(t);
        }
        seq![t.take(n)] + words(t.skip(n))
    }
}

/// No word is empty.
pub proof fn law_words_are_not_empty(s: Seq<char>)
    ensures
        forall|i: int| 0 <= i < words(s).len() ==> (#[trigger] words(s)[i]).len() > 0,
    decreases s.len(),
{
    let t = trim_start(s);
    let n = until_space(t);
    if t.len() > 0 {
        lemma_trim_start(s);
        lemma_until_space(t);
        law_words_are_not_empty(t.skip(n));
        assert forall|i: int| 0 <= i < words(s).len() implies (#[trigger] words(s)[i]).len() > 0 by {
            if i > 0 {
                assert(words(s)[i] == words(t.skip(n))[i - 1]);
            }
        }
    }
}

/// The first word, if there is one.
pub fn first_word(s: &[char]) -> (r: Option<&[char]>)
    ensures
        match r {
            Some(w) => words(s@).len() > 0 && w@ == words(s@)[0],
            None => words(s@).len() == 0,
        },
{
    let t = strip_start(s);
    if t.len() == 0 {
        return None;
    }
    let n = find_space(t);
    let w = part(t, 0, n);
    proof {
        assert(w@ =~= t@.take(n as int));
    }
    Some(w)
}

/// Strings as text.
pub open spec fn texts(v: Seq<String>) -> Seq<Seq<char>> {
    Seq::new(v.len(), |i: int| v[i]@)
}

/// All words in order.
pub fn split_words(s: &[char]) -> (r: Vec<String>)
    ensures
        texts(r@) == words(s@),
{
    let mut out: Vec<String> = Vec::new();
    let mut rest = s;
    proof {
        assert(texts(out@) + words(rest@) =~= words(s@));
    }
    loop
        invariant
            texts(out@) + words(rest@) == words(s@),
        decreases rest@.len(),
    {
        let t = strip_start(rest);
        if t.len() == 0 {
            proof {
                assert(texts(out@) =~= words(s@));
            }
            return out;
        }
        proof {
            lemma_trim_start(rest@);
            lemma_until_space(t@);
        }
        let n = find_space(t);
        let w = to_text(part(t, 0, n));
        let ghost before = out@;
        let ghost word = w@;
        out.push(w);
        rest = part(t, n, t.len());
        proof {
            assert(texts(out@) =~= texts(before).push(word));
            assert(word =~= t@.take(n as int));
            assert(rest@ =~= t@.skip(n as int));
            assert(texts(out@) + words(rest@) =~= texts(before) + (seq![word] + words(rest@)));
        }
    }
}

/// The pieces of a text between occurrences of `c`.
pub open spec fn pieces(s: Seq<char>, c: char) -> Seq<Seq<char>>
    decreases s.len(),
{
    let n = until_char(s, c);
    if n >= s.len() {
        seq![s]
    } else {
        proof {
            lemma_until_char(s, c);
        }
        seq![s.take(n)] + pieces(s.skip(n + 1), c)
    }
}

/// A text that goes on behind a separator has one more piece.
pub proof fn law_pieces_go_on(s: Seq<char>, t: Seq<char>, c: char)
    requires
        forall|i: int| 0 <= i < t.len() ==> #[trigger] t[i] != c,
    ensures
        pieces(s + seq![c] + t, c) == pieces(s, c).push(t),
    decreases s.len(),
{
    let all = s + seq![c] + t;
    let n = until_char(s, c);
    lemma_until_char(s, c);
    lemma_until_char_is(all, c, n);
    if n >= s.len() {
        lemma_until_char_is(t, c, t.len() as int);
        assert(all.take(n) =~= s);
        assert(all.skip(n + 1) =~= t);
        assert(pieces(t, c) == seq![t]);
        assert(pieces(s, c) == seq![s]);
        assert(seq![s] + seq![t] =~= seq![s].push(t));
    } else {
        law_pieces_go_on(s.skip(n + 1), t, c);
        assert(all.take(n) =~= s.take(n));
        assert(all.skip(n + 1) =~= s.skip(n + 1) + seq![c] + t);
        let rest = pieces(s.skip(n + 1), c);
        assert(seq![s.take(n)] + rest.push(t) =~= (seq![s.take(n)] + rest).push(t));
    }
}

/// Whether the text starts with `p`.
pub fn starts_with(s: &[char], p: &str) -> (r: bool)
    ensures
        r == p@.is_prefix_of(s@),
{
    let q = to_chars(p);
    if s.len() < q.len() {
        return false;
    }
    let mut i: usize = 0;
    while i < q.len()
        invariant
            i <= q.len() <= s.len(),
            q@ == p@,
            forall|j: int| 0 <= j < i ==> #[trigger] q@[j] == s@[j],
        decreases q.len() - i,
    {
        if q[i] != s[i] {
            proof {
                assert(s@.subrange(0, q@.len() as int)[i as int] == s@[i as int]);
            }
            return false;
        }
        i = i + 1;
    }
    proof {
        assert(q@ =~= s@.subrange(0, q@.len() as int));
    }
    true
}

/// Whether the text ends with `p`.
pub fn ends_with(s: &[char], p: &str) -> (r: bool)
    ensures
        r == p@.is_suffix_of(s@),
        r ==> p@.len() <= s@.len() <= usize::MAX,
{
    let q = to_chars(p);
    if s.len() < q.len() {
        return false;
    }
    let off: usize = s.len() - q.len();
    let mut i: usize = 0;
    while i < q.len()
        invariant
            i <= q.len() <= s.len(),
            off == s.len() - q.len(),
            q@ == p@,
            forall|j: int| 0 <= j < i ==> #[trigger] q@[j] == s@[off + j],
        decreases q.len() - i,
    {
        if q[i] != s[off + i] {
            proof {
                assert(s@.subrange(off as int, s@.len() as int)[i as int] == s@[off + i]);
            }
            return false;
        }
        i = i + 1;
    }
    proof {
        assert(q@ =~= s@.subrange(off as int, s@.len() as int));
    }
    true
}

/// The text before a suffix.
pub fn before_suffix<'a>(s: &'a [char], p: &str) -> (r: Option<&'a [char]>)
    ensures
        match r {
            Some(b) => p@.is_suffix_of(s@) && b@ == s@.take(s@.len() - p@.len()),
            None => !p@.is_suffix_of(s@),
        },
{
    if ends_with(s, p) {
        let n = to_chars(p).len();
        let b = part(s, 0, s.len() - n);
        proof {
            assert(b@ =~= s@.take(s@.len() - p@.len()));
        }
        Some(b)
    } else {
        None
    }
}

/// Whether the characters spell the string.
pub fn spells(s: &[char], p: &str) -> (r: bool)
    ensures
        r == (s@ == p@),
{
    let q = to_chars(p);
    if s.len() != q.len() {
        return false;
    }
    let r = starts_with(s, p);
    proof {
        assert(s@.subrange(0, s@.len() as int) =~= s@);
    }
    r
}

/// Decimal digits of a count.
pub open spec fn digits(n: nat) -> Seq<char>
    decreases n,
{
    if n < 10 {
        seq![('0' as u8 + n) as char]
    } else {
        digits(n / 10).push(('0' as u8 + n % 10) as char)
    }
}

fn digit(n: u64) -> (r: char)
    requires
        n < 10,
    ensures
        r == ('0' as u8 + n) as char,
{
    (48u8 + n as u8) as char
}

/// Writes a count in decimal.
pub fn decimal(n: u64) -> (r: String)
    ensures
        r@ == digits(n as nat),
    decreases n,
{
    if n < 10 {
        let mut out = String::new();
        out.push(digit(n));
        proof {
            assert(out@ =~= digits(n as nat));
        }
        out
    } else {
        let mut out = decimal(n / 10);
        out.push(digit(n % 10));
        out
    }
}

/// Two strings one behind the other.
pub fn join2(a: &str, b: &str) -> (r: String)
    ensures
        r@ == a@ + b@,
{
    let mut out = String::new();
    out.append(a);
    out.append(b);
    proof {
        assert(Seq::<char>::empty() + a@ + b@ =~= a@ + b@);
    }
    out
}

} // verus!
