//! The text exposition format: one scrape as a [`Sample`].
use crate::key;
use crate::key::{sort_labels, KeyView, Labels};
use crate::keymap;
use crate::keymap::KeyMap;
use crate::labels::{find_block_end, parse_labels, write_block};
use crate::labels;
use crate::num::{num, Num, INFINITE, NEG_INFINITE, NOT_A_NUMBER, ZERO};
use crate::text::{
    before_suffix, decimal, find_char, find_space, first_word, join2, part, same, spells,
    split_words, starts_with, strip, to_chars, to_text,
};
use crate::text;
use vstd::prelude::*;

pub use crate::key::SeriesKey;

verus! {

/// Most series that one payload may carry. A histogram family counts once
/// per label set, however long its ladder is.
pub const SERIES_CAP: usize = 20_000;

/// Most buckets that one histogram may carry.
pub const BUCKET_CAP: usize = 256;

/// Cumulative histogram state at one scrape, for one label combination.
#[derive(Debug)]
pub struct HistSeries {
    /// Upper bounds, ascending; the last entry is usually infinite.
    pub le: Vec<Num>,
    /// Cumulative counts, parallel to `le`.
    pub counts: Vec<Num>,
    pub count: u64,
}

#[verifier::ext_equal]
pub struct HistView {
    pub le: Seq<Num>,
    pub counts: Seq<Num>,
    pub count: u64,
}

impl View for HistSeries {
    type V = HistView;

    open spec fn view(&self) -> HistView {
        HistView { le: self.le@, counts: self.counts@, count: self.count }
    }
}

/// One scrape: simple gauge/counter series plus histogram families.
#[derive(Debug)]
pub struct Sample {
    pub simple: KeyMap<Num>,
    pub hist: KeyMap<HistSeries>,
}

#[verifier::ext_equal]
pub struct SampleView {
    pub simple: Seq<(KeyView, Num)>,
    pub hist: Seq<(KeyView, HistView)>,
}

impl View for Sample {
    type V = SampleView;

    open spec fn view(&self) -> SampleView {
        SampleView { simple: self.simple@, hist: self.hist@ }
    }
}

/// The value of the first series of a family, in key order.
pub open spec fn first_named(s: Seq<(KeyView, Num)>, name: Seq<char>) -> Option<Num>
    decreases s.len(),
{
    if s.len() == 0 {
        None
    } else if s[0].0.name == name {
        Some(s[0].1)
    } else {
        first_named(s.drop_first(), name)
    }
}

impl SampleView {
    pub open spec fn wf(self) -> bool {
        keymap::sorted(self.simple) && keymap::sorted(self.hist)
    }

    pub open spec fn gauge(self, name: Seq<char>) -> Option<Num> {
        first_named(self.simple, name)
    }
}

impl Sample {
    pub open spec fn wf(&self) -> bool {
        self@.wf()
    }

    /// The reading of a family: that of its first series.
    pub fn gauge(&self, name: &str) -> (r: Option<Num>)
        ensures
            r == self@.gauge(name@),
    {
        let mut i: usize = 0;
        proof {
            assert(self@.simple.skip(0) =~= self@.simple);
        }
        while i < self.simple.entries.len()
            invariant
                i <= self.simple.entries.len(),
                self@.gauge(name@) == first_named(self@.simple.skip(i as int), name@),
            decreases self.simple.entries.len() - i,
        {
            if same(self.simple.entries[i].0.name.as_str(), name) {
                return Some(self.simple.entries[i].1);
            }
            proof {
                assert(self@.simple.skip(i as int).drop_first() =~= self@.simple.skip(i + 1));
            }
            i = i + 1;
        }
        None
    }
}

/// Why a payload is rejected as a whole.
#[derive(Debug)]
pub enum ParseError {
    /// More series than [`SERIES_CAP`].
    TooManySeries { count: usize },
    /// One histogram with more buckets than [`BUCKET_CAP`].
    TooManyBuckets { family: SeriesKey, count: usize },
}

pub enum Reject {
    TooManySeries { count: nat },
    TooManyBuckets { family: KeyView, count: nat },
}

impl View for ParseError {
    type V = Reject;

    open spec fn view(&self) -> Reject {
        match self {
            ParseError::TooManySeries { count } => Reject::TooManySeries { count: *count as nat },
            ParseError::TooManyBuckets { family, count } => Reject::TooManyBuckets {
                family: family@,
                count: *count as nat,
            },
        }
    }
}

/// What a value token is read as: the number for each text, if it is one.
pub type Reader = spec_fn(Seq<char>) -> Option<Num>;

/// The reader may be asked for any text.
pub open spec fn readable<R: Fn(&str) -> Option<Num>>(read: R) -> bool {
    forall|s: &str| #[trigger] read.requires((s,))
}

/// Every result of the reader is the one that `m` gives.
pub open spec fn reads<R: Fn(&str) -> Option<Num>>(read: R, m: Reader) -> bool {
    forall|s: &str, r: Option<Num>| #[trigger] read.ensures((s,), r) ==> r == m(s@)
}

/// The value at the start of a text; what follows its first word is a
/// timestamp.
pub open spec fn value_of(m: Reader, s: Seq<char>) -> Option<Num> {
    if text::words(s).len() == 0 {
        None
    } else {
        let word = text::words(s)[0];
        if word == "+Inf"@ || word == "Inf"@ {
            Some(num(INFINITE))
        } else if word == "-Inf"@ {
            Some(num(NEG_INFINITE))
        } else if word == "Nan"@ || word == "NaN"@ || word == "nan"@ {
            Some(num(NOT_A_NUMBER))
        } else {
            m(word)
        }
    }
}

pub fn parse_value<R: Fn(&str) -> Option<Num> + Copy>(s: &[char], read: R) -> (r: Option<Num>)
    requires
        readable(read),
    ensures
        forall|m: Reader| #[trigger] reads(read, m) ==> r == value_of(m, s@),
{
    match first_word(s) {
        None => None,
        Some(word) => {
            if spells(word, "+Inf") || spells(word, "Inf") {
                Some(num(INFINITE))
            } else if spells(word, "-Inf") {
                Some(num(NEG_INFINITE))
            } else if spells(word, "Nan") || spells(word, "NaN") || spells(word, "nan") {
                Some(num(NOT_A_NUMBER))
            } else {
                let token = to_text(word);
                read(token.as_str())
            }
        },
    }
}

/// The three parts of a record: `name{block} value` or `name value`.
pub struct RecordView {
    pub name: Seq<char>,
    pub block: Option<Seq<char>>,
    pub value: Seq<char>,
}

/// Splits a record. `None` where the block does not close, or where nothing
/// follows the name.
pub open spec fn record(line: Seq<char>) -> Option<RecordView> {
    let open = text::until_char(line, '{');
    if open < line.len() {
        match labels::block_end(line.skip(open + 1), false) {
            Some(n) => Some(
                RecordView {
                    name: line.take(open),
                    block: Some(line.subrange(open + 1, open + 1 + n)),
                    value: line.skip(open + n + 2),
                },
            ),
            None => None,
        }
    } else {
        let n = text::until_space(line);
        if n < line.len() {
            Some(RecordView { name: line.take(n), block: None, value: line.skip(n + 1) })
        } else {
            None
        }
    }
}

struct Record<'a> {
    name: &'a [char],
    block: Option<&'a [char]>,
    value: &'a [char],
}

fn split_record<'a>(line: &'a [char]) -> (r: Option<Record<'a>>)
    ensures
        match r {
            Some(rec) => record(line@) == Some(
                RecordView {
                    name: rec.name@,
                    block: match rec.block {
                        Some(b) => Some(b@),
                        None => None,
                    },
                    value: rec.value@,
                },
            ),
            None => record(line@) is None,
        },
{
    let open = find_char(line, '{');
    if open < line.len() {
        let rest = part(line, open + 1, line.len());
        proof {
            assert(rest@ =~= line@.skip(open + 1));
        }
        match find_block_end(rest) {
            Some(n) => {
                let name = part(line, 0, open);
                let value = part(line, open + n + 2, line.len());
                proof {
                    assert(name@ =~= line@.take(open as int));
                    assert(value@ =~= line@.skip(open + n + 2));
                }
                Some(Record { name, block: Some(part(line, open + 1, open + 1 + n)), value })
            },
            None => None,
        }
    } else {
        let n = find_space(line);
        if n < line.len() {
            let name = part(line, 0, n);
            let value = part(line, n + 1, line.len());
            proof {
                assert(name@ =~= line@.take(n as int));
                assert(value@ =~= line@.skip(n + 1));
            }
            Some(Record { name, block: None, value })
        } else {
            None
        }
    }
}

/// What a record of a histogram family reports.
#[derive(Clone, Copy, PartialEq, Eq, Structural, Debug)]
pub enum Role {
    Bucket,
    Total,
    Count,
    Plain,
}

/// The family that a name belongs to if it is part of a histogram, and the
/// role that its suffix gives it.
pub open spec fn role_of(name: Seq<char>) -> (Seq<char>, Role) {
    if "_bucket"@.is_suffix_of(name) {
        (name.take(name.len() - "_bucket"@.len()), Role::Bucket)
    } else if "_sum"@.is_suffix_of(name) {
        (name.take(name.len() - "_sum"@.len()), Role::Total)
    } else if "_count"@.is_suffix_of(name) {
        (name.take(name.len() - "_count"@.len()), Role::Count)
    } else {
        (name, Role::Plain)
    }
}

fn find_role<'a>(name: &'a [char]) -> (r: (&'a [char], Role))
    ensures
        role_of(name@) == (r.0@, r.1),
{
    if let Some(b) = before_suffix(name, "_bucket") {
        return (b, Role::Bucket);
    }
    if let Some(b) = before_suffix(name, "_sum") {
        return (b, Role::Total);
    }
    if let Some(b) = before_suffix(name, "_count") {
        return (b, Role::Count);
    }
    (name, Role::Plain)
}

/// The labels but for `le`.
pub open spec fn without_le(labels: Labels) -> Labels
    decreases labels.len(),
{
    if labels.len() == 0 {
        seq![]
    } else if labels.last().0 == "le"@ {
        without_le(labels.drop_last())
    } else {
        without_le(labels.drop_last()).push(labels.last())
    }
}

fn drop_le(labels: &Vec<(String, String)>) -> (r: Vec<(String, String)>)
    ensures
        key::labels_view(r@) == without_le(key::labels_view(labels@)),
{
    let mut out: Vec<(String, String)> = Vec::new();
    let mut i: usize = 0;
    let ghost all = key::labels_view(labels@);
    proof {
        assert(key::labels_view(out@) =~= without_le(all.take(0)));
    }
    while i < labels.len()
        invariant
            i <= labels.len(),
            all == key::labels_view(labels@),
            key::labels_view(out@) == without_le(all.take(i as int)),
        decreases labels.len() - i,
    {
        proof {
            assert(all.take(i + 1).drop_last() =~= all.take(i as int));
        }
        if !same(labels[i].0.as_str(), "le") {
            let ghost before = out@;
            out.push((labels[i].0.clone(), labels[i].1.clone()));
            proof {
                assert(key::labels_view(out@) =~= key::labels_view(before).push(all[i as int]));
            }
        }
        i = i + 1;
    }
    proof {
        assert(all.take(all.len() as int) =~= all);
    }
    out
}

/// The upper bound that a bucket's labels give: the value of the first `le`.
/// What is not a number bounds nothing.
pub open spec fn bound_of(m: Reader, labels: Labels) -> Option<Num>
    decreases labels.len(),
{
    if labels.len() == 0 {
        None
    } else if labels[0].0 == "le"@ {
        match value_of(m, labels[0].1) {
            Some(v) => if v.nan() {
                None
            } else {
                Some(v)
            },
            None => None,
        }
    } else {
        bound_of(m, labels.drop_first())
    }
}

fn find_bound<R: Fn(&str) -> Option<Num> + Copy>(labels: &Vec<(String, String)>, read: R) -> (r:
    Option<Num>)
    requires
        readable(read),
    ensures
        forall|m: Reader| #[trigger]
            reads(read, m) ==> r == bound_of(m, key::labels_view(labels@)),
{
    let ghost all = key::labels_view(labels@);
    let mut i: usize = 0;
    proof {
        assert(all.skip(0) =~= all);
    }
    while i < labels.len()
        invariant
            i <= labels.len(),
            all == key::labels_view(labels@),
            readable(read),
            forall|m: Reader| #[trigger]
                reads(read, m) ==> bound_of(m, all) == bound_of(m, all.skip(i as int)),
        decreases labels.len() - i,
    {
        proof {
            assert(all.skip(i as int).drop_first() =~= all.skip(i + 1));
            assert(all.skip(i as int)[0] == all[i as int]);
        }
        if same(labels[i].0.as_str(), "le") {
            let value = to_chars(labels[i].1.as_str());
            return match parse_value(value.as_slice(), read) {
                Some(v) => if v.is_nan() {
                    None
                } else {
                    Some(v)
                },
                None => None,
            };
        }
        i = i + 1;
    }
    None
}

/// A histogram while its records come in.
#[derive(Debug)]
pub struct Tally {
    pub buckets: Vec<(Num, Num)>,
    pub count: u64,
}

#[verifier::ext_equal]
pub struct TallyView {
    pub buckets: Seq<(Num, Num)>,
    pub count: u64,
}

impl View for Tally {
    type V = TallyView;

    open spec fn view(&self) -> TallyView {
        TallyView { buckets: self.buckets@, count: self.count }
    }
}

/// What has been read of a payload so far.
#[verifier::ext_equal]
pub struct ScanView {
    /// Families by the type that their last `# TYPE` line gave: whether it is
    /// `histogram`.
    pub types: Seq<(KeyView, bool)>,
    pub simple: Seq<(KeyView, Num)>,
    pub hist: Seq<(KeyView, TallyView)>,
}

/// A key without labels.
pub open spec fn bare(name: Seq<char>) -> KeyView {
    KeyView { name, labels: seq![] }
}

impl ScanView {
    pub open spec fn start() -> ScanView {
        ScanView { types: seq![], simple: seq![], hist: seq![] }
    }

    /// Whether the family was declared a histogram.
    pub open spec fn histogram(self, family: Seq<char>) -> bool {
        keymap::lookup(self.types, bare(family)) == Some(true)
    }

    /// Number of series: simple ones and histograms.
    pub open spec fn series(self) -> nat {
        self.simple.len() + self.hist.len()
    }

    /// The state, unless it holds more series than the cap.
    pub open spec fn capped(self) -> Result<ScanView, Reject> {
        if self.series() > SERIES_CAP {
            Err(Reject::TooManySeries { count: self.series() })
        } else {
            Ok(self)
        }
    }

    /// What the histogram holds so far.
    pub open spec fn tally(self, k: KeyView) -> TallyView {
        match keymap::lookup(self.hist, k) {
            Some(t) => t,
            None => TallyView { buckets: seq![], count: 0 },
        }
    }

    /// Takes in a comment line, without its `# `.
    pub open spec fn comment(self, rest: Seq<char>) -> ScanView {
        let w = text::words(rest);
        if w.len() >= 3 && w[0] == "TYPE"@ {
            ScanView {
                types: keymap::put(self.types, bare(w[1]), w[2] == "histogram"@),
                ..self
            }
        } else {
            self
        }
    }

    /// Takes in a record of a histogram. A full histogram takes no record of
    /// any role.
    pub open spec fn grow(self, k: KeyView, role: Role, le: Num, v: Num) -> Result<
        ScanView,
        Reject,
    > {
        let t = self.tally(k);
        if t.buckets.len() >= BUCKET_CAP {
            Err(Reject::TooManyBuckets { family: k, count: t.buckets.len() + 1 })
        } else {
            let u = match role {
                Role::Bucket => TallyView { buckets: t.buckets.push((le, v)), ..t },
                Role::Count => TallyView { count: v.larger(num(ZERO)).whole() as u64, ..t },
                _ => t,
            };
            (ScanView { hist: keymap::put(self.hist, k, u), ..self }).capped()
        }
    }

    /// Takes in a record with a finite value. The labels of its series are
    /// sorted.
    pub open spec fn accept(self, m: Reader, rec: RecordView, v: Num) -> Result<ScanView, Reject> {
        let labels = match rec.block {
            Some(b) => labels::labels_of(b),
            None => seq![],
        };
        let (family, role) = role_of(rec.name);
        if role != Role::Plain && self.histogram(family) {
            let k = KeyView { name: family, labels: key::arranged(without_le(labels)) };
            if role == Role::Bucket {
                match bound_of(m, labels) {
                    Some(le) => self.grow(k, role, le, v),
                    None => Ok(self),
                }
            } else {
                self.grow(k, role, num(ZERO), v)
            }
        } else {
            let k = KeyView { name: rec.name, labels: key::arranged(labels) };
            (ScanView { simple: keymap::put(self.simple, k, v), ..self }).capped()
        }
    }

    /// Takes in one line.
    pub open spec fn line(self, m: Reader, raw: Seq<char>) -> Result<ScanView, Reject> {
        let line = text::trim(raw);
        if line.len() == 0 {
            Ok(self)
        } else if "# "@.is_prefix_of(line) {
            Ok(self.comment(line.skip("# "@.len() as int)))
        } else {
            match record(line) {
                Some(rec) => match value_of(m, rec.value) {
                    Some(v) => if v.finite() {
                        self.accept(m, rec, v)
                    } else {
                        Ok(self)
                    },
                    None => Ok(self),
                },
                None => Ok(self),
            }
        }
    }

    pub open spec fn wf(self) -> bool {
        &&& keymap::sorted(self.types)
        &&& keymap::sorted(self.simple)
        &&& keymap::sorted(self.hist)
        &&& self.series() <= SERIES_CAP
        &&& forall|i: int|
            0 <= i < self.hist.len() ==> (#[trigger] self.hist[i]).1.buckets.len() <= BUCKET_CAP
    }
}

/// Takes in lines in order; the first one that is rejected ends it.
pub open spec fn scan_lines(m: Reader, lines: Seq<Seq<char>>) -> Result<ScanView, Reject>
    decreases lines.len(),
{
    if lines.len() == 0 {
        Ok(ScanView::start())
    } else {
        match scan_lines(m, lines.drop_last()) {
            Ok(st) => st.line(m, lines.last()),
            Err(e) => Err(e),
        }
    }
}

struct Scanner {
    types: KeyMap<bool>,
    simple: KeyMap<Num>,
    hist: KeyMap<Tally>,
}

impl View for Scanner {
    type V = ScanView;

    closed spec fn view(&self) -> ScanView {
        ScanView { types: self.types@, simple: self.simple@, hist: self.hist@ }
    }
}

impl Scanner {
    fn new() -> (r: Scanner)
        ensures
            r@ == ScanView::start(),
            r@.wf(),
    {
        Scanner { types: KeyMap::new(), simple: KeyMap::new(), hist: KeyMap::new() }
    }

    fn is_histogram(&self, family: &[char]) -> (r: bool)
        requires
            self@.wf(),
        ensures
            r == self@.histogram(family@),
    {
        let k = SeriesKey { name: to_text(family), labels: Vec::new() };
        proof {
            assert(k@ =~= bare(family@));
        }
        match self.types.get(&k) {
            Some(t) => *t,
            None => false,
        }
    }

    fn take_comment(&mut self, rest: &[char])
        requires
            old(self)@.wf(),
        ensures
            final(self)@ == old(self)@.comment(rest@),
            final(self)@.wf(),
    {
        let w = split_words(rest);
        proof {
            assert(text::texts(w@).len() == w@.len());
            assert(forall|i: int| 0 <= i < w@.len() ==> text::texts(w@)[i] == #[trigger] w@[i]@);
        }
        if w.len() >= 3 && same(w[0].as_str(), "TYPE") {
            let is_hist = same(w[2].as_str(), "histogram");
            let k = SeriesKey { name: w[1].clone(), labels: Vec::new() };
            proof {
                assert(k@ =~= bare(text::words(rest@)[1]));
            }
            self.types.insert(k, is_hist);
        }
    }

    fn check_series(&self) -> (r: Result<(), ParseError>)
        requires
            self@.series() <= SERIES_CAP + 1,
        ensures
            match r {
                Ok(_) => self@.capped() == Ok::<ScanView, Reject>(self@),
                Err(e) => self@.capped() == Err::<ScanView, Reject>(e@),
            },
    {
        let count: usize = self.simple.len() + self.hist.len();
        if count > SERIES_CAP {
            Err(ParseError::TooManySeries { count })
        } else {
            Ok(())
        }
    }

    fn take_simple(&mut self, key: SeriesKey, v: Num) -> (r: Result<(), ParseError>)
        requires
            old(self)@.wf(),
        ensures
            ({
                let out = (ScanView {
                    simple: keymap::put(old(self)@.simple, key@, v),
                    ..old(self)@
                }).capped();
                match r {
                    Ok(_) => out == Ok::<ScanView, Reject>(final(self)@) && final(self)@.wf(),
                    Err(e) => out == Err::<ScanView, Reject>(e@),
                }
            }),
    {
        proof {
            keymap::lemma_put_at_slot(self@.simple, key@, v);
        }
        self.simple.insert(key, v);
        self.check_series()
    }

    fn take_hist(&mut self, key: SeriesKey, role: Role, le: Num, v: Num) -> (r: Result<
        (),
        ParseError,
    >)
        requires
            old(self)@.wf(),
        ensures
            match r {
                Ok(_) => old(self)@.grow(key@, role, le, v) == Ok::<ScanView, Reject>(final(self)@)
                    && final(self)@.wf(),
                Err(e) => old(self)@.grow(key@, role, le, v) == Err::<ScanView, Reject>(e@),
            },
    {
        let ghost before = self@;
        let ghost k = key@;
        let ghost t = before.tally(k);
        proof {
            keymap::lemma_put_at_slot(before.hist, k, t);
        }
        let (i, found) = self.hist.locate(&key);
        if !found {
            self.hist.insert(key, Tally { buckets: Vec::new(), count: 0 });
            proof {
                assert(t =~= TallyView { buckets: seq![], count: 0 });
            }
        }
        let ghost made = self.hist@;
        proof {
            assert(made[i as int] == (k, t));
            assert(made =~= keymap::put(before.hist, k, t));
        }
        if self.hist.entries[i].1.buckets.len() >= BUCKET_CAP {
            return Err(
                ParseError::TooManyBuckets {
                    count: self.hist.entries[i].1.buckets.len() + 1,
                    family: self.hist.entries[i].0.clone(),
                },
            );
        }
        match role {
            Role::Bucket => {
                self.hist.entries[i].1.buckets.push((le, v));
            },
            Role::Count => {
                self.hist.entries[i].1.count = v.max(num(ZERO)).to_count();
            },
            _ => {},
        }
        proof {
            let u = match role {
                Role::Bucket => TallyView { buckets: t.buckets.push((le, v)), ..t },
                Role::Count => TallyView { count: v.larger(num(ZERO)).whole() as u64, ..t },
                _ => t,
            };
            assert(self.hist@[i as int].1 =~= u);
            assert(self.hist@ =~= made.update(i as int, (k, u)));
            assert(self.hist@ =~= keymap::put(before.hist, k, u));
            keymap::law_put_keeps_order(before.hist, k, u);
            keymap::lemma_put_at_slot(before.hist, k, u);
            assert forall|j: int| 0 <= j < self.hist@.len() implies (
            #[trigger] self.hist@[j]).1.buckets.len() <= BUCKET_CAP by {
                if j != i {
                    assert(self.hist@[j] == made[j]);
                    if found || j < i {
                        assert(made[j] == before.hist[j]);
                    } else {
                        assert(made[j] == before.hist[j - 1]);
                    }
                }
            }
        }
        self.check_series()
    }

    fn take_record<R: Fn(&str) -> Option<Num> + Copy>(
        &mut self,
        rec: &Record,
        v: Num,
        read: R,
    ) -> (r: Result<(), ParseError>)
        requires
            old(self)@.wf(),
            readable(read),
        ensures
            forall|m: Reader| #[trigger]
                reads(read, m) ==> ({
                    let out = old(self)@.accept(
                        m,
                        RecordView {
                            name: rec.name@,
                            block: match rec.block {
                                Some(b) => Some(b@),
                                None => None,
                            },
                            value: rec.value@,
                        },
                        v,
                    );
                    match r {
                        Ok(_) => out == Ok::<ScanView, Reject>(final(self)@),
                        Err(e) => out == Err::<ScanView, Reject>(e@),
                    }
                }),
            r is Ok ==> final(self)@.wf(),
    {
        let labels: Vec<(String, String)> = match rec.block {
            Some(b) => parse_labels(b),
            None => Vec::new(),
        };
        let ghost block = match rec.block {
            Some(b) => labels::labels_of(b@),
            None => seq![],
        };
        proof {
            assert(key::labels_view(labels@) =~= block);
        }
        let (family, role) = find_role(rec.name);
        let is_hist = match role {
            Role::Plain => false,
            _ => self.is_histogram(family),
        };
        if is_hist {
            let key = SeriesKey {
                name: to_text(family),
                labels: sort_labels(&drop_le(&labels)),
            };
            match role {
                Role::Bucket => match find_bound(&labels, read) {
                    Some(le) => self.take_hist(key, role, le, v),
                    None => Ok(()),
                },
                _ => self.take_hist(key, role, num(ZERO), v),
            }
        } else {
            let key = SeriesKey { name: to_text(rec.name), labels: sort_labels(&labels) };
            self.take_simple(key, v)
        }
    }

    fn take_line<R: Fn(&str) -> Option<Num> + Copy>(&mut self, raw: &[char], read: R) -> (r: Result<
        (),
        ParseError,
    >)
        requires
            old(self)@.wf(),
            readable(read),
        ensures
            forall|m: Reader| #[trigger]
                reads(read, m) ==> match r {
                    Ok(_) => old(self)@.line(m, raw@) == Ok::<ScanView, Reject>(final(self)@),
                    Err(e) => old(self)@.line(m, raw@) == Err::<ScanView, Reject>(e@),
                },
            r is Ok ==> final(self)@.wf(),
    {
        let line = strip(raw);
        if line.len() == 0 {
            return Ok(());
        }
        if starts_with(line, "# ") {
            let n = to_chars("# ").len();
            let rest = part(line, n, line.len());
            proof {
                assert(rest@ =~= line@.skip("# "@.len() as int));
            }
            self.take_comment(rest);
            return Ok(());
        }
        match split_record(line) {
            None => Ok(()),
            Some(rec) => match parse_value(rec.value, read) {
                None => Ok(()),
                Some(v) => if v.is_finite() {
                    self.take_record(&rec, v, read)
                } else {
                    Ok(())
                },
            },
        }
    }
}

/// Puts a bucket behind those with the same or a smaller bound.
pub open spec fn insert_bucket(s: Seq<(Num, Num)>, b: (Num, Num)) -> Seq<(Num, Num)>
    decreases s.len(),
{
    if s.len() > 0 && b.0.below(s.last().0) {
        insert_bucket(s.drop_last(), b).push(s.last())
    } else {
        s.push(b)
    }
}

/// The buckets by ascending bound; those with one bound keep their order.
pub open spec fn ladder(s: Seq<(Num, Num)>) -> Seq<(Num, Num)>
    decreases s.len(),
{
    if s.len() == 0 {
        seq![]
    } else {
        insert_bucket(ladder(s.drop_last()), s.last())
    }
}

pub proof fn lemma_insert_bucket(s: Seq<(Num, Num)>, b: (Num, Num), j: int)
    requires
        0 <= j <= s.len(),
        forall|i: int| j <= i < s.len() ==> b.0.below((#[trigger] s[i]).0),
        j > 0 ==> !b.0.below(s[j - 1].0),
    ensures
        insert_bucket(s, b) == s.insert(j, b),
    decreases s.len(),
{
    if j < s.len() {
        lemma_insert_bucket(s.drop_last(), b, j);
        assert(s.insert(j, b) =~= s.drop_last().insert(j, b).push(s.last()));
    } else {
        assert(s.insert(j, b) =~= s.push(b));
    }
}

pub proof fn lemma_ladder_len(s: Seq<(Num, Num)>)
    ensures
        ladder(s).len() == s.len(),
    decreases s.len(),
{
    if s.len() > 0 {
        lemma_ladder_len(s.drop_last());
        lemma_insert_len(ladder(s.drop_last()), s.last());
    }
}

proof fn lemma_insert_len(s: Seq<(Num, Num)>, b: (Num, Num))
    ensures
        insert_bucket(s, b).len() == s.len() + 1,
    decreases s.len(),
{
    if s.len() > 0 && b.0.below(s.last().0) {
        lemma_insert_len(s.drop_last(), b);
    }
}

/// Orders pairs by their first number; pairs with one number keep their order.
pub fn sort_buckets(v: &Vec<(Num, Num)>) -> (r: Vec<(Num, Num)>)
    ensures
        r@ == ladder(v@),
{
    let mut out: Vec<(Num, Num)> = Vec::new();
    let mut i: usize = 0;
    while i < v.len()
        invariant
            i <= v.len(),
            out@ == ladder(v@.take(i as int)),
        decreases v.len() - i,
    {
        let b = v[i];
        let mut j: usize = out.len();
        while j > 0 && b.0.is_below(out[j - 1].0)
            invariant
                j <= out.len(),
                forall|k: int| j <= k < out.len() ==> b.0.below((#[trigger] out@[k]).0),
            decreases j,
        {
            j = j - 1;
        }
        proof {
            lemma_insert_bucket(out@, b, j as int);
            assert(v@.take(i + 1).drop_last() =~= v@.take(i as int));
        }
        out.insert(j, b);
        i = i + 1;
    }
    proof {
        assert(v@.take(v@.len() as int) =~= v@);
    }
    out
}

/// A histogram as it is kept: its buckets by ascending bound.
pub open spec fn hist_of(t: TallyView) -> HistView {
    let b = ladder(t.buckets);
    HistView {
        le: Seq::new(b.len(), |i: int| b[i].0),
        counts: Seq::new(b.len(), |i: int| b[i].1),
        count: t.count,
    }
}

/// The sample that a scan amounts to.
pub open spec fn sample_of(st: ScanView) -> SampleView {
    SampleView {
        simple: st.simple,
        hist: Seq::new(st.hist.len(), |i: int| (st.hist[i].0, hist_of(st.hist[i].1))),
    }
}

/// What a payload is read as: a sample, or the reason to reject it whole.
pub open spec fn outcome(m: Reader, body: Seq<char>) -> Result<SampleView, Reject> {
    match scan_lines(m, text::pieces(body, '\n')) {
        Ok(st) => Ok(sample_of(st)),
        Err(e) => Err(e),
    }
}

fn finish_hist(t: &Tally) -> (r: HistSeries)
    ensures
        r@ == hist_of(t@),
{
    let b = sort_buckets(&t.buckets);
    let mut le: Vec<Num> = Vec::new();
    let mut counts: Vec<Num> = Vec::new();
    let mut i: usize = 0;
    while i < b.len()
        invariant
            i <= b.len(),
            le.len() == i,
            counts.len() == i,
            forall|j: int| 0 <= j < i ==> #[trigger] le@[j] == b@[j].0,
            forall|j: int| 0 <= j < i ==> #[trigger] counts@[j] == b@[j].1,
        decreases b.len() - i,
    {
        le.push(b[i].0);
        counts.push(b[i].1);
        i = i + 1;
    }
    let r = HistSeries { le, counts, count: t.count };
    proof {
        assert(r@ =~= hist_of(t@));
    }
    r
}

fn finish(st: Scanner) -> (r: Sample)
    requires
        st@.wf(),
    ensures
        r@ == sample_of(st@),
        r.wf(),
{
    let mut entries: Vec<(SeriesKey, HistSeries)> = Vec::new();
    let mut i: usize = 0;
    while i < st.hist.entries.len()
        invariant
            i <= st.hist.entries.len(),
            entries.len() == i,
            forall|j: int|
                0 <= j < i ==> keymap::entries_view(entries@)[j] == #[trigger] sample_of(st@).hist[j],
        decreases st.hist.entries.len() - i,
    {
        let ghost before = entries@;
        let h = finish_hist(&st.hist.entries[i].1);
        entries.push((st.hist.entries[i].0.clone(), h));
        proof {
            assert forall|j: int| 0 <= j < i + 1 implies keymap::entries_view(entries@)[j]
                == #[trigger] sample_of(st@).hist[j] by {
                if j < i {
                    assert(keymap::entries_view(entries@)[j] == keymap::entries_view(before)[j]);
                }
            }
        }
        i = i + 1;
    }
    let r = Sample { simple: st.simple, hist: KeyMap { entries } };
    proof {
        assert(r@.hist =~= sample_of(st@).hist);
        assert forall|a: int, b: int| 0 <= a < b < r@.hist.len() implies (
        #[trigger] r@.hist[a]).0.below((#[trigger] r@.hist[b]).0) by {
            assert(st@.hist[a].0.below(st@.hist[b].0));
        }
    }
    r
}

/// Parses a text exposition payload.
///
/// Handles `# HELP`/`# TYPE` headers, `name{labels} value` records, label
/// escape sequences (`\\`, `\"`, `\n`), optional timestamps, and histogram
/// bucket ladders (`_bucket` with `le`, `_sum`, `_count`). A record that cannot
/// be read, or whose value is not finite, is skipped. A payload over one of the
/// caps is rejected whole. `read` turns a value token into a number.
pub fn parse<R: Fn(&str) -> Option<Num> + Copy>(body: &str, read: R) -> (r: Result<
    Sample,
    ParseError,
>)
    requires
        readable(read),
    ensures
        forall|m: Reader| #[trigger]
            reads(read, m) ==> match r {
                Ok(s) => outcome(m, body@) == Ok::<SampleView, Reject>(s@),
                Err(e) => outcome(m, body@) == Err::<SampleView, Reject>(e@),
            },
        r matches Ok(s) ==> s.wf(),
{
    let cs = to_chars(body);
    let mut st = Scanner::new();
    let mut rest = cs.as_slice();
    let ghost mut done: Seq<Seq<char>> = seq![];
    let ghost all = text::pieces(body@, '\n');
    proof {
        assert(done + text::pieces(rest@, '\n') =~= all);
    }
    loop
        invariant
            readable(read),
            st@.wf(),
            all == text::pieces(body@, '\n'),
            done + text::pieces(rest@, '\n') == all,
            forall|m: Reader| #[trigger]
                reads(read, m) ==> scan_lines(m, done) == Ok::<ScanView, Reject>(st@),
        decreases rest@.len(),
    {
        let n = find_char(rest, '\n');
        let line = part(rest, 0, n);
        let ghost before = st@;
        let ghost next = done.push(line@);
        proof {
            text::lemma_until_char(rest@, '\n');
            assert(line@ =~= rest@.take(n as int));
            assert(next.drop_last() =~= done);
            let tail = if n < rest@.len() {
                text::pieces(rest@.skip(n + 1), '\n')
            } else {
                seq![]
            };
            assert(line@ =~= rest@.take(n as int));
            if n >= rest@.len() {
                assert(rest@.take(n as int) =~= rest@);
            }
            assert(next + tail =~= all);
        }
        match st.take_line(line, read) {
            Ok(_) => {},
            Err(e) => {
                proof {
                    assert forall|m: Reader| #[trigger] reads(read, m) implies outcome(m, body@)
                        == Err::<SampleView, Reject>(e@) by {
                        assert(scan_lines(m, next) == Err::<ScanView, Reject>(e@));
                        let tail = all.skip(next.len() as int);
                        assert(next + tail =~= all);
                        lemma_rejected_stays(m, next, tail);
                    }
                }
                return Err(e);
            },
        }
        proof {
            assert forall|m: Reader| #[trigger] reads(read, m) implies scan_lines(m, next) == Ok::<
                ScanView,
                Reject,
            >(st@) by {
                assert(next.last() == line@);
            }
        }
        if n >= rest.len() {
            proof {
                assert(next =~= all);
            }
            return Ok(finish(st));
        }
        proof {
            done = next;
        }
        let tail = part(rest, n + 1, rest.len());
        proof {
            assert(tail@ =~= rest@.skip(n + 1));
        }
        rest = tail;
    }
}

proof fn lemma_rejected_stays(m: Reader, lines: Seq<Seq<char>>, more: Seq<Seq<char>>)
    requires
        scan_lines(m, lines) is Err,
    ensures
        scan_lines(m, lines + more) == scan_lines(m, lines),
    decreases more.len(),
{
    if more.len() == 0 {
        assert(lines + more =~= lines);
    } else {
        lemma_rejected_stays(m, lines, more.drop_last());
        assert((lines + more).drop_last() =~= lines + more.drop_last());
    }
}

/// The line carries nothing that could be stored: it is blank, or it is no
/// comment and its record cannot be split, or its value cannot be read or is
/// not finite.
pub open spec fn unreadable(m: Reader, raw: Seq<char>) -> bool {
    let line = text::trim(raw);
    line.len() == 0 || (!"# "@.is_prefix_of(line) && match record(line) {
        Some(rec) => match value_of(m, rec.value) {
            Some(v) => !v.finite(),
            None => true,
        },
        None => true,
    })
}

/// A line that cannot be read, a reading of `NaN` among them, has no effect: a
/// payload reads the same with it and without it.
pub proof fn law_unreadable_line_is_no_line(
    m: Reader,
    before: Seq<Seq<char>>,
    raw: Seq<char>,
    after: Seq<Seq<char>>,
)
    requires
        unreadable(m, raw),
    ensures
        scan_lines(m, before.push(raw) + after) == scan_lines(m, before + after),
    decreases after.len(),
{
    if after.len() == 0 {
        assert(before.push(raw) + after =~= before.push(raw));
        assert(before + after =~= before);
        assert(before.push(raw).drop_last() =~= before);
    } else {
        law_unreadable_line_is_no_line(m, before, raw, after.drop_last());
        assert((before.push(raw) + after).drop_last() =~= before.push(raw) + after.drop_last());
        assert((before + after).drop_last() =~= before + after.drop_last());
    }
}

/// Every value of a sample is a finite number, the labels of every series are
/// in order, and no cap is exceeded.
pub open spec fn sound(st: ScanView) -> bool {
    &&& st.wf()
    &&& forall|i: int|
        0 <= i < st.simple.len() ==> key::in_order((#[trigger] st.simple[i]).0.labels)
    &&& forall|i: int| 0 <= i < st.hist.len() ==> key::in_order((#[trigger] st.hist[i]).0.labels)
    &&& forall|i: int| 0 <= i < st.simple.len() ==> (#[trigger] st.simple[i]).1.finite()
    &&& forall|i: int| 0 <= i < st.hist.len() ==> numbers((#[trigger] st.hist[i]).1)
}

/// Bounds are numbers, and counts are finite.
pub open spec fn numbers(t: TallyView) -> bool {
    forall|j: int|
        0 <= j < t.buckets.len() ==> !(#[trigger] t.buckets[j]).0.nan() && t.buckets[j].1.finite()
}

proof fn lemma_line_keeps_sound(m: Reader, st: ScanView, raw: Seq<char>)
    requires
        sound(st),
    ensures
        st.line(m, raw) matches Ok(out) ==> sound(out),
{
    let line = text::trim(raw);
    if line.len() == 0 {
    } else if "# "@.is_prefix_of(line) {
        let w = text::words(line.skip("# "@.len() as int));
        if w.len() >= 3 && w[0] == "TYPE"@ {
            keymap::law_put_keeps_order(st.types, bare(w[1]), w[2] == "histogram"@);
        }
    } else if let Some(rec) = record(line) {
        if let Some(v) = value_of(m, rec.value) {
            if v.finite() {
                lemma_accept_keeps_sound(m, st, rec, v);
            }
        }
    }
}

proof fn lemma_accept_keeps_sound(m: Reader, st: ScanView, rec: RecordView, v: Num)
    requires
        sound(st),
        v.finite(),
    ensures
        st.accept(m, rec, v) matches Ok(out) ==> sound(out),
{
    let labels = match rec.block {
        Some(b) => labels::labels_of(b),
        None => seq![],
    };
    let (family, role) = role_of(rec.name);
    if role != Role::Plain && st.histogram(family) {
        let k = KeyView { name: family, labels: key::arranged(without_le(labels)) };
        key::law_arranged_labels_are_sorted(without_le(labels));
        if role == Role::Bucket {
            if let Some(le) = bound_of(m, labels) {
                lemma_bound_is_number(m, labels);
                lemma_grow_keeps_sound(st, k, role, le, v);
            }
        } else {
            lemma_grow_keeps_sound(st, k, role, num(ZERO), v);
        }
    } else {
        let k = KeyView { name: rec.name, labels: key::arranged(labels) };
        key::law_arranged_labels_are_sorted(labels);
        keymap::law_put_keeps_order(st.simple, k, v);
        keymap::law_put_adds_one_entry(st.simple, k, v);
    }
}

proof fn lemma_bound_is_number(m: Reader, labels: Labels)
    ensures
        bound_of(m, labels) matches Some(le) ==> !le.nan(),
    decreases labels.len(),
{
    if labels.len() > 0 && labels[0].0 != "le"@ {
        lemma_bound_is_number(m, labels.drop_first());
    }
}

proof fn lemma_grow_keeps_sound(st: ScanView, k: KeyView, role: Role, le: Num, v: Num)
    requires
        sound(st),
        v.finite(),
        !le.nan(),
        key::in_order(k.labels),
    ensures
        st.grow(k, role, le, v) matches Ok(out) ==> sound(out),
{
    let t = st.tally(k);
    if t.buckets.len() < BUCKET_CAP {
        let u = match role {
            Role::Bucket => TallyView { buckets: t.buckets.push((le, v)), ..t },
            Role::Count => TallyView { count: v.larger(num(ZERO)).whole() as u64, ..t },
            _ => t,
        };
        keymap::law_put_keeps_order(st.hist, k, u);
        keymap::law_put_adds_one_entry(st.hist, k, u);
        keymap::law_lookup_finds_entries(st.hist, k);
        assert(numbers(t));
        assert(numbers(u));
    }
}

proof fn lemma_scan_is_sound(m: Reader, lines: Seq<Seq<char>>)
    ensures
        scan_lines(m, lines) matches Ok(st) ==> sound(st),
    decreases lines.len(),
{
    if lines.len() > 0 {
        lemma_scan_is_sound(m, lines.drop_last());
        if let Ok(st) = scan_lines(m, lines.drop_last()) {
            lemma_line_keeps_sound(m, st, lines.last());
        }
    }
}

/// Bounds in ascending order.
pub open spec fn ascending(s: Seq<(Num, Num)>) -> bool {
    forall|i: int, j: int|
        0 <= i < j < s.len() ==> (#[trigger] s[i]).0.at_most((#[trigger] s[j]).0)
}

proof fn lemma_insert_keeps_ascending(s: Seq<(Num, Num)>, b: (Num, Num))
    requires
        ascending(s),
        !b.0.nan(),
        forall|i: int| 0 <= i < s.len() ==> !(#[trigger] s[i]).0.nan(),
    ensures
        ascending(insert_bucket(s, b)),
        insert_bucket(s, b).len() == s.len() + 1,
        forall|x: (Num, Num)| #[trigger]
            insert_bucket(s, b).contains(x) <==> s.contains(x) || x == b,
    decreases s.len(),
{
    let t = insert_bucket(s, b);
    if s.len() > 0 && b.0.below(s.last().0) {
        let u = s.drop_last();
        lemma_insert_keeps_ascending(u, b);
        let v = insert_bucket(u, b);
        assert(t == v.push(s.last()));
        assert forall|i: int, j: int| 0 <= i < j < t.len() implies (#[trigger] t[i]).0.at_most(
            (#[trigger] t[j]).0,
        ) by {
            if j < t.len() - 1 {
                assert(v[i].0.at_most(v[j].0));
            } else {
                assert(v.contains(v[i]));
                if v[i] != b {
                    let k = choose|k: int| 0 <= k < u.len() && u[k] == v[i];
                    assert(s[k].0.at_most(s[s.len() - 1].0));
                }
            }
        }
        assert forall|x: (Num, Num)| #[trigger] t.contains(x) <==> s.contains(x) || x == b by {
            if t.contains(x) {
                let k = choose|k: int| 0 <= k < t.len() && t[k] == x;
                if k < v.len() {
                    assert(v.contains(x));
                    if x != b {
                        let q = choose|q: int| 0 <= q < u.len() && u[q] == x;
                        assert(s[q] == x);
                    }
                } else {
                    assert(s[s.len() - 1] == x);
                }
            }
            if s.contains(x) || x == b {
                if x == s.last() {
                    assert(t[t.len() - 1] == x);
                } else {
                    if x != b {
                        let q = choose|q: int| 0 <= q < s.len() && s[q] == x;
                        assert(u[q] == x);
                    }
                    assert(v.contains(x));
                    let q = choose|q: int| 0 <= q < v.len() && v[q] == x;
                    assert(t[q] == x);
                }
            }
        }
    } else {
        assert forall|i: int, j: int| 0 <= i < j < t.len() implies (#[trigger] t[i]).0.at_most(
            (#[trigger] t[j]).0,
        ) by {
            if j < s.len() {
                assert(s[i].0.at_most(s[j].0));
            } else if i < s.len() - 1 {
                assert(s[i].0.at_most(s[s.len() - 1].0));
            }
        }
        assert forall|x: (Num, Num)| #[trigger] t.contains(x) <==> s.contains(x) || x == b by {
            if s.contains(x) {
                let q = choose|q: int| 0 <= q < s.len() && s[q] == x;
                assert(t[q] == x);
            }
            assert(t[s.len() as int] == b);
            if t.contains(x) {
                let q = choose|q: int| 0 <= q < t.len() && t[q] == x;
                if q < s.len() {
                    assert(s[q] == x);
                }
            }
        }
    }
}

/// A ladder holds the buckets it was made from, by ascending bound.
pub proof fn law_ladder_is_sorted(s: Seq<(Num, Num)>)
    requires
        forall|i: int| 0 <= i < s.len() ==> !(#[trigger] s[i]).0.nan(),
    ensures
        ascending(ladder(s)),
        ladder(s).len() == s.len(),
        forall|x: (Num, Num)| #[trigger] ladder(s).contains(x) <==> s.contains(x),
    decreases s.len(),
{
    if s.len() > 0 {
        let u = s.drop_last();
        law_ladder_is_sorted(u);
        let v = ladder(u);
        assert forall|i: int| 0 <= i < v.len() implies !(#[trigger] v[i]).0.nan() by {
            assert(v.contains(v[i]));
            let k = choose|k: int| 0 <= k < u.len() && u[k] == v[i];
            assert(!s[k].0.nan());
        }
        lemma_insert_keeps_ascending(v, s.last());
        assert forall|x: (Num, Num)| #[trigger] ladder(s).contains(x) <==> s.contains(x) by {
            if s.contains(x) {
                let k = choose|k: int| 0 <= k < s.len() && s[k] == x;
                if k < u.len() {
                    assert(u[k] == x);
                    assert(u.contains(x));
                }
            }
            if ladder(s).contains(x) && x != s.last() {
                assert(v.contains(x));
                let k = choose|k: int| 0 <= k < u.len() && u[k] == x;
                assert(s[k] == x);
            }
            if x == s.last() {
                assert(s[s.len() - 1] == x);
            }
        }
    }
}

/// A sample that was read keeps its series in key order, each key once and with
/// its labels in order; every simple value and every bucket count is finite; no
/// cap is exceeded; and every ladder ascends.
pub proof fn law_sample_is_sound(m: Reader, body: Seq<char>)
    ensures
        outcome(m, body) matches Ok(s) ==> {
            &&& s.wf()
            &&& forall|i: int|
                0 <= i < s.simple.len() ==> key::in_order((#[trigger] s.simple[i]).0.labels)
            &&& forall|i: int|
                0 <= i < s.hist.len() ==> key::in_order((#[trigger] s.hist[i]).0.labels)
            &&& s.simple.len() + s.hist.len() <= SERIES_CAP
            &&& forall|i: int| 0 <= i < s.simple.len() ==> (#[trigger] s.simple[i]).1.finite()
            &&& forall|i: int|
                0 <= i < s.hist.len() ==> (#[trigger] s.hist[i]).1.le.len()
                    == s.hist[i].1.counts.len() <= BUCKET_CAP
            &&& forall|i: int, j: int|
                0 <= i < s.hist.len() && 0 <= j < s.hist[i].1.counts.len()
                    ==> #[trigger] s.hist[i].1.counts[j].finite()
            &&& forall|i: int, a: int, b: int|
                0 <= i < s.hist.len() && 0 <= a < b < s.hist[i].1.le.len()
                    ==> #[trigger] s.hist[i].1.le[a].at_most(#[trigger] s.hist[i].1.le[b])
        },
{
    lemma_scan_is_sound(m, text::pieces(body, '\n'));
    if let Ok(st) = scan_lines(m, text::pieces(body, '\n')) {
        let s = sample_of(st);
        assert forall|a: int, b: int| 0 <= a < b < s.hist.len() implies (#[trigger] s.hist[a]).0.below(
            (#[trigger] s.hist[b]).0,
        ) by {
            assert(st.hist[a].0.below(st.hist[b].0));
        }
        assert forall|i: int| 0 <= i < s.hist.len() implies ({
            let b = #[trigger] st.hist[i].1.buckets;
            &&& ladder(b).len() == b.len()
            &&& ascending(ladder(b))
            &&& b.len() <= BUCKET_CAP
            &&& forall|j: int| 0 <= j < b.len() ==> (#[trigger] ladder(b)[j]).1.finite()
        }) by {
            let b = st.hist[i].1.buckets;
            assert forall|j: int| 0 <= j < b.len() implies !(#[trigger] b[j]).0.nan() by {
                assert(numbers(st.hist[i].1));
            }
            law_ladder_is_sorted(b);
            assert forall|j: int| 0 <= j < b.len() implies (#[trigger] ladder(b)[j]).1.finite() by {
                assert(ladder(b).contains(ladder(b)[j]));
                let k = choose|k: int| 0 <= k < b.len() && b[k] == ladder(b)[j];
                assert(numbers(st.hist[i].1));
            }
        }
        assert forall|i: int| 0 <= i < s.hist.len() implies (#[trigger] s.hist[i]).1.le.len()
            == s.hist[i].1.counts.len() <= BUCKET_CAP by {
            assert(st.hist[i].1.buckets.len() <= BUCKET_CAP);
        }
        assert forall|i: int, j: int|
            0 <= i < s.hist.len() && 0 <= j < s.hist[i].1.counts.len() implies #[trigger] s.hist[i].1.counts[j].finite() by {
            let b = st.hist[i].1.buckets;
            assert(ladder(b)[j].1.finite());
        }
        assert forall|i: int, a: int, b: int|
            0 <= i < s.hist.len() && 0 <= a < b < s.hist[i].1.le.len() implies #[trigger] s.hist[i].1.le[a].at_most(
            #[trigger] s.hist[i].1.le[b],
        ) by {
            let t = st.hist[i].1.buckets;
            assert(ladder(t)[a].0.at_most(ladder(t)[b].0));
        }
    }
}

/// A record as an exporter writes it.
pub open spec fn written_record(name: Seq<char>, labels: Labels, token: Seq<char>) -> Seq<char> {
    name + seq!['{'] + labels::block(labels) + seq!['}', ' '] + token
}

/// A family name: not empty, and free of what would end it or make the line a
/// comment.
pub open spec fn family_name(name: Seq<char>) -> bool {
    &&& name.len() > 0
    &&& name[0] != '#'
    &&& forall|i: int| 0 <= i < name.len() ==> #[trigger] name[i] != '{' && !text::space(name[i])
}

/// A word: not empty and free of white space.
pub open spec fn one_word(token: Seq<char>) -> bool {
    token.len() > 0 && forall|i: int| 0 <= i < token.len() ==> !text::space(#[trigger] token[i])
}

proof fn lemma_one_word(token: Seq<char>, lead: Seq<char>)
    requires
        one_word(token),
        lead == seq![' '] || lead == Seq::<char>::empty(),
    ensures
        text::words(lead + token).len() > 0,
        text::words(lead + token)[0] == token,
{
    let s = lead + token;
    assert(text::trim_start(token) == token);
    if lead.len() == 1 {
        assert(s.drop_first() =~= token);
    } else {
        assert(s =~= token);
    }
    assert(text::trim_start(s) == token);
    text::lemma_until_space_is(token, token.len() as int);
    assert(token.take(token.len() as int) =~= token);
}

proof fn lemma_written_record(name: Seq<char>, labels: Labels, token: Seq<char>)
    requires
        family_name(name),
        forall|i: int| 0 <= i < labels.len() ==> labels::plain_name((#[trigger] labels[i]).0),
        one_word(token),
    ensures
        ({
            let line = written_record(name, labels, token);
            let block = labels::block(labels);
            &&& text::trim(line) == line
            &&& line.len() > 0
            &&& !"# "@.is_prefix_of(line)
            &&& record(line) == Some(
                RecordView { name, block: Some(block), value: seq![' '] + token },
            )
            &&& labels::labels_of(block) == labels
        }),
        forall|m: Reader| #[trigger] value_of(m, seq![' '] + token) == value_of(m, token),
{
    reveal_strlit("# ");
    let line = written_record(name, labels, token);
    let open = name.len() as int;
    let rest = seq![' '] + token;
    let n = labels::block(labels).len() as int;
    assert(line[0] == name[0]);
    assert(line.last() == token.last());
    assert(text::trim(line) == line);
    if "# "@.is_prefix_of(line) {
        assert("# "@[0] == line.subrange(0, 2)[0]);
    }
    assert forall|j: int| 0 <= j < open implies #[trigger] line[j] != '{' by {
        assert(line[j] == name[j]);
    }
    text::lemma_until_char_is(line, '{', open);
    labels::law_block_ends_behind_its_labels(labels, rest);
    assert(line.skip(open + 1) =~= labels::block(labels) + seq!['}'] + rest);
    assert(line.take(open) =~= name);
    assert(line.subrange(open + 1, open + 1 + n) =~= labels::block(labels));
    assert(line.skip(open + n + 2) =~= rest);
    labels::law_labels_read_back(labels);
    lemma_one_word(token, seq![' ']);
    lemma_one_word(token, seq![]);
    assert(Seq::<char>::empty() + token =~= token);
}

/// A record reads back: the series is stored under the name and the sorted labels
/// that were written, with the value that its token stands for.
pub proof fn law_written_record_reads_back(
    m: Reader,
    st: ScanView,
    name: Seq<char>,
    labels: Labels,
    token: Seq<char>,
    v: Num,
)
    requires
        family_name(name),
        forall|i: int| 0 <= i < labels.len() ==> labels::plain_name((#[trigger] labels[i]).0),
        one_word(token),
        value_of(m, token) == Some(v),
        v.finite(),
        role_of(name).1 == Role::Plain || !st.histogram(role_of(name).0),
    ensures
        st.line(m, written_record(name, labels, token)) == (ScanView {
            simple: keymap::put(st.simple, KeyView { name, labels: key::arranged(labels) }, v),
            ..st
        }).capped(),
{
    lemma_written_record(name, labels, token);
}

/// A record without labels reads back in the same way.
pub proof fn law_bare_record_reads_back(
    m: Reader,
    st: ScanView,
    name: Seq<char>,
    token: Seq<char>,
    v: Num,
)
    requires
        family_name(name),
        one_word(token),
        forall|i: int| 0 <= i < token.len() ==> #[trigger] token[i] != '{',
        value_of(m, token) == Some(v),
        v.finite(),
        role_of(name).1 == Role::Plain || !st.histogram(role_of(name).0),
    ensures
        st.line(m, name + seq![' '] + token) == (ScanView {
            simple: keymap::put(st.simple, bare(name), v),
            ..st
        }).capped(),
{
    reveal_strlit("# ");
    let line = name + seq![' '] + token;
    let n = name.len() as int;
    assert(line[0] == name[0]);
    assert(line.last() == token.last());
    assert(text::trim(line) == line);
    if "# "@.is_prefix_of(line) {
        assert("# "@[0] == line.subrange(0, 2)[0]);
    }
    assert forall|j: int| 0 <= j < line.len() implies #[trigger] line[j] != '{' by {
        if j < n {
            assert(line[j] == name[j]);
        } else if j > n {
            assert(line[j] == token[j - n - 1]);
        }
    }
    text::lemma_until_char_is(line, '{', line.len() as int);
    assert forall|j: int| 0 <= j < n implies !text::space(#[trigger] line[j]) by {
        assert(line[j] == name[j]);
    }
    text::lemma_until_space_is(line, n);
    assert(line.take(n) =~= name);
    assert(line.skip(n + 1) =~= token);
}

/// The order in which the labels of a record are written makes no difference.
pub proof fn law_written_order_makes_no_difference(
    m: Reader,
    st: ScanView,
    name: Seq<char>,
    a: Labels,
    b: Labels,
    token: Seq<char>,
    v: Num,
)
    requires
        family_name(name),
        forall|i: int| 0 <= i < a.len() ==> labels::plain_name((#[trigger] a[i]).0),
        forall|i: int| 0 <= i < b.len() ==> labels::plain_name((#[trigger] b[i]).0),
        a.to_multiset() == b.to_multiset(),
        one_word(token),
        value_of(m, token) == Some(v),
        v.finite(),
        role_of(name).1 == Role::Plain || !st.histogram(role_of(name).0),
    ensures
        st.line(m, written_record(name, a, token)) == st.line(m, written_record(name, b, token)),
{
    law_written_record_reads_back(m, st, name, a, token, v);
    law_written_record_reads_back(m, st, name, b, token, v);
    key::law_label_order_does_not_matter(a, b);
}

/// A record of a declared histogram reads back: it goes to the family under its
/// sorted labels without `le`, a bucket with the bound that `le` gives.
pub proof fn law_written_histogram_record_reads_back(
    m: Reader,
    st: ScanView,
    name: Seq<char>,
    labels: Labels,
    token: Seq<char>,
    v: Num,
)
    requires
        family_name(name),
        forall|i: int| 0 <= i < labels.len() ==> labels::plain_name((#[trigger] labels[i]).0),
        one_word(token),
        value_of(m, token) == Some(v),
        v.finite(),
        role_of(name).1 != Role::Plain,
        st.histogram(role_of(name).0),
    ensures
        ({
            let (family, role) = role_of(name);
            let k = KeyView { name: family, labels: key::arranged(without_le(labels)) };
            st.line(m, written_record(name, labels, token)) == match role {
                Role::Bucket => match bound_of(m, labels) {
                    Some(le) => st.grow(k, role, le, v),
                    None => Ok(st),
                },
                _ => st.grow(k, role, num(ZERO), v),
            }
        }),
{
    lemma_written_record(name, labels, token);
}

/// A histogram with all the buckets that it may have takes no further record of
/// its own, however many series there are.
pub proof fn law_full_histogram_takes_no_record(
    m: Reader,
    st: ScanView,
    name: Seq<char>,
    labels: Labels,
    token: Seq<char>,
    v: Num,
)
    requires
        family_name(name),
        forall|i: int| 0 <= i < labels.len() ==> labels::plain_name((#[trigger] labels[i]).0),
        one_word(token),
        value_of(m, token) == Some(v),
        v.finite(),
        role_of(name).1 != Role::Plain,
        role_of(name).1 == Role::Bucket ==> bound_of(m, labels) is Some,
        st.histogram(role_of(name).0),
        st.tally(
            KeyView { name: role_of(name).0, labels: key::arranged(without_le(labels)) },
        ).buckets.len() == BUCKET_CAP,
    ensures
        st.line(m, written_record(name, labels, token)) == Err::<ScanView, Reject>(
            Reject::TooManyBuckets {
                family: KeyView {
                    name: role_of(name).0,
                    labels: key::arranged(without_le(labels)),
                },
                count: (BUCKET_CAP + 1) as nat,
            },
        ),
{
    law_written_histogram_record_reads_back(m, st, name, labels, token, v);
}

/// A line at the end of a payload is taken in after everything before it.
pub proof fn law_last_line_is_read_last(m: Reader, body: Seq<char>, line: Seq<char>)
    requires
        forall|i: int| 0 <= i < line.len() ==> #[trigger] line[i] != '\n',
    ensures
        scan_lines(m, text::pieces(body + seq!['\n'] + line, '\n')) == match scan_lines(
            m,
            text::pieces(body, '\n'),
        ) {
            Ok(st) => st.line(m, line),
            Err(e) => Err(e),
        },
{
    text::law_pieces_go_on(body, line, '\n');
    assert(text::pieces(body, '\n').push(line).drop_last() =~= text::pieces(body, '\n'));
}

/// A record that ends a payload is found in the sample under the name and the
/// sorted labels that were written, with its value, and every other series is as it
/// was. Only the cap on series can reject it.
pub proof fn law_last_record_is_found(
    m: Reader,
    body: Seq<char>,
    st: ScanView,
    name: Seq<char>,
    labels: Labels,
    token: Seq<char>,
    v: Num,
    other: KeyView,
)
    requires
        scan_lines(m, text::pieces(body, '\n')) == Ok::<ScanView, Reject>(st),
        family_name(name),
        forall|i: int| 0 <= i < labels.len() ==> labels::plain_name((#[trigger] labels[i]).0),
        forall|k: int, i: int|
            0 <= k < labels.len() && 0 <= i < labels[k].0.len() ==> #[trigger] labels[k].0[i]
                != '\n',
        one_word(token),
        value_of(m, token) == Some(v),
        v.finite(),
        role_of(name).1 == Role::Plain || !st.histogram(role_of(name).0),
    ensures
        ({
            let k = KeyView { name, labels: key::arranged(labels) };
            let count = keymap::put(st.simple, k, v).len() + st.hist.len();
            match outcome(m, body + seq!['\n'] + written_record(name, labels, token)) {
                Ok(s) => {
                    &&& count <= SERIES_CAP
                    &&& keymap::lookup(s.simple, k) == Some(v)
                    &&& other != k ==> keymap::lookup(s.simple, other) == keymap::lookup(
                        st.simple,
                        other,
                    )
                    &&& s.hist == sample_of(st).hist
                },
                Err(e) => count > SERIES_CAP && e == (Reject::TooManySeries { count }),
            }
        }),
{
    let line = written_record(name, labels, token);
    assert forall|i: int| 0 <= i < line.len() implies #[trigger] line[i] != '\n' by {
        labels::law_block_is_one_line(labels);
        let n = name.len() as int;
        let b = labels::block(labels).len() as int;
        if i < n {
            assert(line[i] == name[i]);
        } else if n < i < n + 1 + b {
            assert(line[i] == labels::block(labels)[i - n - 1]);
        } else if i >= n + b + 3 {
            assert(line[i] == token[i - n - b - 3]);
        }
    }
    law_last_line_is_read_last(m, body, line);
    law_written_record_reads_back(m, st, name, labels, token, v);
    lemma_scan_is_sound(m, text::pieces(body, '\n'));
    keymap::law_lookup_after_put(
        st.simple,
        KeyView { name, labels: key::arranged(labels) },
        v,
        other,
    );
}

/// A key as it is shown: `name`, or `name{k="v",...}`.
pub open spec fn shown_key(k: KeyView) -> Seq<char> {
    if k.labels.len() == 0 {
        k.name
    } else {
        k.name + "{"@ + labels::block(k.labels) + "}"@
    }
}

impl SeriesKey {
    /// Shows the key as an exporter would write it.
    pub fn show(&self) -> (r: String)
        ensures
            r@ == shown_key(self@),
    {
        if self.labels.len() == 0 {
            return self.name.clone();
        }
        let mut out = self.name.clone();
        let block = write_block(&self.labels);
        out.append("{");
        out.append(block.as_str());
        out.append("}");
        out
    }
}

impl Reject {
    /// The sentence that tells the user.
    pub open spec fn message(self) -> Seq<char> {
        match self {
            Reject::TooManySeries { count } => "endpoint too large: "@ + text::digits(count)
                + " series (cap "@ + text::digits(SERIES_CAP as nat) + ")"@,
            Reject::TooManyBuckets { family, count } => "endpoint too large: "@ + shown_key(family)
                + " has "@ + text::digits(count) + " buckets (cap "@ + text::digits(
                BUCKET_CAP as nat,
            ) + ")"@,
        }
    }
}

impl ParseError {
    /// Names the cap and the observed count.
    pub fn message(&self) -> (r: String)
        ensures
            r@ == self@.message(),
    {
        match self {
            ParseError::TooManySeries { count } => {
                let n = decimal(*count as u64);
                let cap = decimal(SERIES_CAP as u64);
                let mut out = join2("endpoint too large: ", n.as_str());
                out.append(" series (cap ");
                out.append(cap.as_str());
                out.append(")");
                out
            },
            ParseError::TooManyBuckets { family, count } => {
                let k = family.show();
                let n = decimal(*count as u64);
                let cap = decimal(BUCKET_CAP as u64);
                let mut out = join2("endpoint too large: ", k.as_str());
                out.append(" has ");
                out.append(n.as_str());
                out.append(" buckets (cap ");
                out.append(cap.as_str());
                out.append(")");
                out
            },
        }
    }
}

} // verus!
