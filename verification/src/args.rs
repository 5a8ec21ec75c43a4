//! What the user asks for on the command line.
use crate::metrics;
use crate::metrics::Reader;
use crate::num;
use crate::num::{num, Calc, Model, Num, HALF, TEN, THOUSAND};
use vstd::prelude::*;

verus! {

/// The options of a run.
#[derive(Debug)]
pub struct Args {
    /// Base URL of the server.
    pub url: String,
    pub api_key: Option<String>,
    /// Accept any server certificate.
    pub insecure: bool,
    /// Poll interval in seconds.
    pub interval: Num,
    /// Name of the color theme.
    pub theme: String,
    /// Start in the compact layout.
    pub compact: bool,
    /// Print one snapshot and exit.
    pub once: bool,
}

impl Args {
    /// The poll interval that is used, in seconds.
    pub open spec fn poll(&self) -> Num {
        self.interval.between(num(HALF), num(TEN))
    }

    pub fn poll_interval(&self) -> (r: Num)
        ensures
            r == self.poll(),
            !self.interval.nan() ==> num(HALF).at_most(r) && r.at_most(num(TEN)),
    {
        self.interval.clamp(num(HALF), num(TEN))
    }

    /// The poll interval in whole milliseconds.
    pub fn poll_ms<C: Fn(Calc) -> Num + Copy>(&self, calc: C) -> (r: u64)
        requires
            num::total(calc),
        ensures
            forall|m: Model| #[trigger]
                num::models(calc, m) ==> r == m(
                    Calc::Product(self.poll(), num(THOUSAND)),
                ).whole(),
    {
        calc(Calc::Product(self.poll_interval(), num(THOUSAND))).to_count()
    }
}

/// Why an interval is rejected.
#[derive(Clone, Copy, PartialEq, Eq, Structural, Debug)]
pub enum IntervalError {
    /// Not a number at all.
    Unreadable,
    /// Infinite, or not a number.
    NotFinite,
}

impl IntervalError {
    pub fn message(self) -> (r: &'static str)
        ensures
            r@ == match self {
                IntervalError::Unreadable => "interval must be a number of seconds"@,
                IntervalError::NotFinite => "interval must be finite"@,
            },
    {
        match self {
            IntervalError::Unreadable => "interval must be a number of seconds",
            IntervalError::NotFinite => "interval must be finite",
        }
    }
}

/// What an interval on the command line is taken as.
pub open spec fn interval_of(m: Reader, s: Seq<char>) -> Result<Num, IntervalError> {
    match m(s) {
        None => Err(IntervalError::Unreadable),
        Some(v) => if v.finite() {
            Ok(v)
        } else {
            Err(IntervalError::NotFinite)
        },
    }
}

/// Reads a poll interval: a finite number of seconds.
pub fn parse_interval<R: Fn(&str) -> Option<Num> + Copy>(s: &str, read: R) -> (r: Result<
    Num,
    IntervalError,
>)
    requires
        metrics::readable(read),
    ensures
        forall|m: Reader| #[trigger] metrics::reads(read, m) ==> r == interval_of(m, s@),
        r matches Ok(v) ==> v.finite(),
{
    match read(s) {
        None => Err(IntervalError::Unreadable),
        Some(v) => if v.is_finite() {
            Ok(v)
        } else {
            Err(IntervalError::NotFinite)
        },
    }
}

/// The poll interval is the one that was asked for, kept between half a second
/// and ten seconds.
pub proof fn law_poll_is_the_interval_in_bounds(args: &Args)
    requires
        !args.interval.nan(),
    ensures
        ({
            let (half, ten) = (num(0x3fe0_0000_0000_0000), num(0x4024_0000_0000_0000));
            &&& half.at_most(args.interval) && args.interval.at_most(ten) ==> args.poll()
                == args.interval
            &&& args.interval.below(half) ==> args.poll() == half
            &&& ten.below(args.interval) ==> args.poll() == ten
        }),
{
}

} // verus!
