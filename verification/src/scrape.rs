//! What is asked of the endpoint, and what its answers change.
use crate::derive::{update_peaks, Peaks};
use crate::history::{History, HistoryView};
use crate::metrics;
use crate::metrics::{parse, Reader, SampleView};
use crate::num;
use crate::num::{Calc, Model, Num};
use crate::text::{ends_with, join2, part, to_chars, to_text};
use vstd::prelude::*;

verus! {

/// Longest time that one request may take, in milliseconds.
pub const TIMEOUT_MS: u64 = 5_000;

/// Most bytes of an answer that are read.
pub const BODY_CAP: u64 = 67_108_864;

/// Shortest pause between two scrapes, in milliseconds.
pub const MIN_PAUSE_MS: u64 = 250;

/// Longest pause between two scrapes, in milliseconds.
pub const MAX_PAUSE_MS: u64 = 10_000;

/// The text without trailing slashes.
pub open spec fn without_slashes(s: Seq<char>) -> Seq<char>
    decreases s.len(),
{
    if s.len() > 0 && s.last() == '/' {
        without_slashes(s.drop_last())
    } else {
        s
    }
}

/// The full metrics URL of a base URL.
pub open spec fn endpoint(base: Seq<char>) -> Seq<char> {
    let b = without_slashes(base);
    if "/metrics"@.is_suffix_of(b) {
        b
    } else {
        b + "/metrics"@
    }
}

/// Normalizes a user-supplied base URL into a full /metrics URL.
pub fn metrics_url(base: &str) -> (r: String)
    ensures
        r@ == endpoint(base@),
{
    let cs = to_chars(base);
    let mut n: usize = cs.len();
    proof {
        assert(cs@.take(n as int) =~= cs@);
    }
    while n > 0 && cs[n - 1] == '/'
        invariant
            n <= cs.len(),
            without_slashes(cs@) == without_slashes(cs@.take(n as int)),
        decreases n,
    {
        proof {
            assert(cs@.take(n as int).drop_last() =~= cs@.take(n - 1));
        }
        n = n - 1;
    }
    let b = part(cs.as_slice(), 0, n);
    proof {
        assert(b@ =~= cs@.take(n as int));
    }
    let t = to_text(b);
    if ends_with(b, "/metrics") {
        t
    } else {
        join2(t.as_str(), "/metrics")
    }
}

/// Every metrics URL ends in `/metrics`.
pub proof fn law_url_names_the_metrics(base: Seq<char>)
    ensures
        "/metrics"@.is_suffix_of(endpoint(base)),
{
    let b = without_slashes(base);
    let t = b + "/metrics"@;
    assert(t.subrange(t.len() - "/metrics"@.len(), t.len() as int) =~= "/metrics"@);
}

/// A metrics URL stands for itself.
pub proof fn law_url_is_stable(base: Seq<char>)
    ensures
        endpoint(endpoint(base)) == endpoint(base),
{
    law_url_names_the_metrics(base);
    reveal_strlit("/metrics");
    let u = endpoint(base);
    assert("/metrics"@.last() == 's');
    assert(u.subrange(u.len() - "/metrics"@.len(), u.len() as int).last() == u.last());
}

/// Trailing slashes make no difference.
pub proof fn law_url_ignores_trailing_slashes(base: Seq<char>)
    ensures
        endpoint(base.push('/')) == endpoint(base),
{
    assert(base.push('/').drop_last() =~= base);
}

/// The authorization header's value for a key.
pub open spec fn bearer(key: Seq<char>) -> Seq<char> {
    "Bearer "@ + key
}

/// The authorization header's value, where there is a key.
pub fn authorization(api_key: Option<&str>) -> (r: Option<String>)
    ensures
        match (api_key, r) {
            (Some(k), Some(v)) => v@ == bearer(k@),
            (None, None) => true,
            _ => false,
        },
{
    match api_key {
        Some(k) => Some(join2("Bearer ", k)),
        None => None,
    }
}

/// Why an answer did not arrive, with the cause as the transport words it.
#[derive(Debug)]
pub enum FetchError {
    /// The request was not answered.
    Request(String),
    /// The answer could not be read.
    Body(String),
}

impl FetchError {
    /// The sentence that tells the user.
    pub open spec fn told(&self) -> Seq<char> {
        match self {
            FetchError::Request(cause) => "scrape failed: "@ + cause@,
            FetchError::Body(cause) => "reading scrape body: "@ + cause@,
        }
    }

    pub fn message(&self) -> (r: String)
        ensures
            r@ == self.told(),
    {
        match self {
            FetchError::Request(cause) => join2("scrape failed: ", cause.as_str()),
            FetchError::Body(cause) => join2("reading scrape body: ", cause.as_str()),
        }
    }
}

/// What the scraper and the screen share.
#[derive(Debug)]
pub struct Shared {
    pub history: History,
    /// When the last good scrape came in, in nanoseconds.
    pub last_ok: Option<u64>,
    pub last_error: Option<String>,
    pub paused: bool,
    /// Scraper poll interval, live-adjustable from the screen.
    pub interval_ms: u64,
    /// Session peak rates.
    pub peaks: Peaks,
}

#[verifier::ext_equal]
pub struct SharedView {
    pub history: HistoryView,
    pub last_ok: Option<u64>,
    pub last_error: Option<Seq<char>>,
    pub paused: bool,
    pub interval_ms: u64,
    pub peaks: Peaks,
}

impl View for Shared {
    type V = SharedView;

    open spec fn view(&self) -> SharedView {
        SharedView {
            history: self.history@,
            last_ok: self.last_ok,
            last_error: match self.last_error {
                Some(e) => Some(e@),
                None => None,
            },
            paused: self.paused,
            interval_ms: self.interval_ms,
            peaks: self.peaks,
        }
    }
}

impl SharedView {
    /// The state before the first scrape.
    pub open spec fn start() -> SharedView {
        SharedView {
            history: HistoryView { entries: seq![], first_seen: None, graphs: None },
            last_ok: None,
            last_error: None,
            paused: false,
            interval_ms: 1000,
            peaks: crate::derive::no_peaks(),
        }
    }

    /// The state after a failure, told in `e`. Nothing else changes, so the
    /// screen goes stale under the error banner.
    pub open spec fn failed(self, e: Seq<char>) -> SharedView {
        SharedView { last_error: Some(e), ..self }
    }

    /// The state after a good scrape.
    pub open spec fn scraped(self, m: Model, now: u64, sample: SampleView) -> SharedView {
        let history = self.history.after(m, now, sample);
        SharedView {
            history,
            last_ok: Some(now),
            last_error: None,
            peaks: crate::derive::peaks_after(m, self.peaks, history),
            ..self
        }
    }

    /// The state after an answer of the endpoint.
    pub open spec fn answered(
        self,
        m: Model,
        rd: Reader,
        now: u64,
        answer: Result<String, FetchError>,
    ) -> SharedView {
        match answer {
            Ok(body) => match metrics::outcome(rd, body@) {
                Ok(sample) => self.scraped(m, now, sample),
                Err(e) => self.failed(e.message()),
            },
            Err(e) => self.failed(e.told()),
        }
    }

    /// The pause before the next scrape.
    pub open spec fn pause(self) -> u64 {
        if self.interval_ms < MIN_PAUSE_MS {
            MIN_PAUSE_MS
        } else if self.interval_ms > MAX_PAUSE_MS {
            MAX_PAUSE_MS
        } else {
            self.interval_ms
        }
    }
}

impl Shared {
    pub open spec fn wf(&self) -> bool {
        self.history.wf()
    }

    pub fn new() -> (r: Shared)
        ensures
            r.wf(),
            r@ == SharedView::start(),
    {
        Shared {
            history: History::new(),
            last_ok: None,
            last_error: None,
            paused: false,
            interval_ms: 1000,
            peaks: Peaks::default(),
        }
    }

    /// Whether the scraper should ask the endpoint now.
    pub fn wants_scrape(&self) -> (r: bool)
        ensures
            r == !self@.paused,
    {
        !self.paused
    }

    /// How long the scraper waits before its next turn, in milliseconds.
    pub fn pause_ms(&self) -> (r: u64)
        ensures
            r == self@.pause(),
            MIN_PAUSE_MS <= r <= MAX_PAUSE_MS,
    {
        if self.interval_ms < MIN_PAUSE_MS {
            MIN_PAUSE_MS
        } else if self.interval_ms > MAX_PAUSE_MS {
            MAX_PAUSE_MS
        } else {
            self.interval_ms
        }
    }

    /// Takes in an answer of the endpoint that arrived at the time `now`.
    pub fn take_in<R: Fn(&str) -> Option<Num> + Copy, C: Fn(Calc) -> Num + Copy>(
        &mut self,
        now: u64,
        answer: Result<String, FetchError>,
        read: R,
        calc: C,
    )
        requires
            metrics::readable(read),
            num::total(calc),
            old(self).wf(),
        ensures
            final(self).wf(),
            forall|m: Model, rd: Reader|
                #![trigger num::models(calc, m), metrics::reads(read, rd)]
                num::models(calc, m) && metrics::reads(read, rd) ==> final(self)@
                    == old(self)@.answered(m, rd, now, answer),
            answer matches Err(e) ==> final(self)@ == old(self)@.failed(e.told()),
            final(self)@.last_error is Some ==> final(self)@.history == old(self)@.history
                && final(self)@.peaks == old(self)@.peaks
                && final(self)@.last_ok == old(self)@.last_ok,
    {
        match answer {
            Ok(body) => match parse(body.as_str(), read) {
                Ok(sample) => {
                    self.history.push(now, sample, calc);
                    update_peaks(&mut self.peaks, &self.history, calc);
                    self.last_ok = Some(now);
                    self.last_error = None;
                },
                Err(e) => {
                    self.last_error = Some(e.message());
                },
            },
            Err(e) => {
                self.last_error = Some(e.message());
            },
        }
    }
}

/// A rejected payload leaves history and peaks untouched, and so does a failed
/// request; the error is told.
pub proof fn law_failures_keep_the_data(
    m: Model,
    rd: Reader,
    s: SharedView,
    now: u64,
    answer: Result<String, FetchError>,
)
    requires
        answer matches Ok(body) ==> metrics::outcome(rd, body@) is Err,
    ensures
        ({
            let t = s.answered(m, rd, now, answer);
            &&& t.history == s.history
            &&& t.peaks == s.peaks
            &&& t.last_ok == s.last_ok
            &&& t.last_error is Some
        }),
{
}

/// A good scrape clears the error and is dated.
pub proof fn law_good_scrape_clears_the_error(
    m: Model,
    rd: Reader,
    s: SharedView,
    now: u64,
    body: String,
)
    requires
        metrics::outcome(rd, body@) is Ok,
    ensures
        ({
            let t = s.answered(m, rd, now, Ok(body));
            &&& t.last_error is None
            &&& t.last_ok == Some(now)
            &&& t.history.entries.len() > 0
            &&& t.history.entries.last().t == now
        }),
{
    let sample = metrics::outcome(rd, body@)->Ok_0;
    crate::history::law_push_appends(m, s.history, now, sample);
}

/// The scraper never touches the pause switch or the poll interval.
pub proof fn law_scrapes_keep_the_settings(
    m: Model,
    rd: Reader,
    s: SharedView,
    now: u64,
    answer: Result<String, FetchError>,
)
    ensures
        s.answered(m, rd, now, answer).paused == s.paused,
        s.answered(m, rd, now, answer).interval_ms == s.interval_ms,
{
}

/// A good scrape is added to the history, and the peaks are brought up to date
/// with it.
pub proof fn law_good_scrape_is_taken_in(
    m: Model,
    rd: Reader,
    s: SharedView,
    now: u64,
    body: String,
    sample: SampleView,
)
    requires
        metrics::outcome(rd, body@) matches Ok(read) && read == sample,
    ensures
        ({
            let t = s.answered(m, rd, now, Ok(body));
            &&& t.history.entries.last().sample == sample
            &&& t.history.entries.last().t == now
            &&& t.history.entries.is_suffix_of(
                s.history.entries.push(crate::history::EntryView { t: now, sample }),
            )
            &&& t.peaks == crate::derive::peaks_after(m, s.peaks, t.history)
        }),
{
    crate::history::law_push_appends(m, s.history, now, sample);
}

/// The pause is the poll interval, kept between a quarter of a second and ten
/// seconds.
pub proof fn law_pause_is_the_interval_in_bounds(s: SharedView)
    ensures
        250 <= s.pause() <= 10_000,
        250 <= s.interval_ms <= 10_000 ==> s.pause() == s.interval_ms,
        s.interval_ms < 250 ==> s.pause() == 250,
        s.interval_ms > 10_000 ==> s.pause() == 10_000,
{
}

} // verus!
