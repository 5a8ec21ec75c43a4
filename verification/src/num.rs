//! Numbers as the exporter reports them.
//!
//! A reading is a binary64 value held as its 64-bit pattern. What only needs the
//! order of two readings (thresholds, medians, maxima, clamping) is decided here
//! on the pattern itself. What needs arithmetic is asked of a calculator, a
//! function from [`Calc`] to [`Num`] that the caller hands in; contracts speak of
//! every function that describes it.
use vstd::arithmetic::power2;
use vstd::bits;
use vstd::prelude::*;

verus! {

/// A binary64 value by its bit pattern.
#[derive(Clone, Copy, PartialEq, Eq, Structural, Debug)]
pub struct Num {
    pub bits: u64,
}

/// The number with the given bit pattern.
#[verifier::allow_in_spec]
pub fn num(bits: u64) -> (r: Num)
    returns
        (Num { bits }),
{
    Num { bits }
}

/// The sign bit.
pub const SIGN: u64 = 0x8000_0000_0000_0000;

/// Positive infinity; a larger magnitude is not a number.
pub const INFINITE: u64 = 0x7ff0_0000_0000_0000;

/// Negative infinity.
pub const NEG_INFINITE: u64 = 0xfff0_0000_0000_0000;

/// Not a number.
pub const NOT_A_NUMBER: u64 = 0x7ff8_0000_0000_0000;

pub const ZERO: u64 = 0;

/// The largest finite number.
pub const LARGEST: u64 = 0x7fef_ffff_ffff_ffff;

/// 0.08
pub const TICK: u64 = 0x3fb4_7ae1_47ae_147b;

/// 0.25
pub const QUARTER: u64 = 0x3fd0_0000_0000_0000;

/// 0.5
pub const HALF: u64 = 0x3fe0_0000_0000_0000;

/// 0.7
pub const FILLING: u64 = 0x3fe6_6666_6666_6666;

/// 0.9
pub const FULL: u64 = 0x3fec_cccc_cccc_cccd;

/// 0.95
pub const P95: u64 = 0x3fee_6666_6666_6666;

/// 0.96
pub const HEADROOM: u64 = 0x3fee_b851_eb85_1eb8;

/// 0.99
pub const P99: u64 = 0x3fef_ae14_7ae1_47ae;

/// 1.0
pub const ONE: u64 = 0x3ff0_0000_0000_0000;

/// 1.05
pub const ONE_05: u64 = 0x3ff0_cccc_cccc_cccd;

/// 1.1
pub const ONE_10: u64 = 0x3ff1_9999_9999_999a;

/// 1.15
pub const ONE_15: u64 = 0x3ff2_6666_6666_6666;

/// 2.0
pub const TWO: u64 = 0x4000_0000_0000_0000;

/// 3.0
pub const THREE: u64 = 0x4008_0000_0000_0000;

/// 5.0
pub const FIVE: u64 = 0x4014_0000_0000_0000;

/// 10.0
pub const TEN: u64 = 0x4024_0000_0000_0000;

/// 20.0
pub const TWENTY: u64 = 0x4034_0000_0000_0000;

/// 100.0
pub const HUNDRED: u64 = 0x4059_0000_0000_0000;

/// 1000.0
pub const THOUSAND: u64 = 0x408f_4000_0000_0000;

/// 1000000.0
pub const MILLION: u64 = 0x412e_8480_0000_0000;

impl View for Num {
    type V = Num;

    open spec fn view(&self) -> Num {
        *self
    }
}

/// One arithmetic step, as asked of a calculator.
#[derive(Clone, Copy, PartialEq, Eq, Structural, Debug)]
pub enum Calc {
    /// `a + b`
    Sum(Num, Num),
    /// `a - b`
    Difference(Num, Num),
    /// `a * b`
    Product(Num, Num),
    /// `a / b`
    Quotient(Num, Num),
    /// A number of nanoseconds, in seconds.
    Seconds(u64),
    /// A number of seconds, in whole nanoseconds.
    Nanos(Num),
    /// A whole number.
    Whole(u64),
    /// The largest power of ten that is not above `a`.
    Decade(Num),
    /// The smallest whole number that is not below `a`.
    Ceil(Num),
}

/// What a calculator computes: its result for each step.
pub type Model = spec_fn(Calc) -> Num;

/// The calculator may be asked for any step.
pub open spec fn total<C: Fn(Calc) -> Num>(calc: C) -> bool {
    forall|c: Calc| #[trigger] calc.requires((c,))
}

/// Every result of the calculator is the one that `m` gives.
pub open spec fn models<C: Fn(Calc) -> Num>(calc: C, m: Model) -> bool {
    forall|c: Calc, r: Num| #[trigger] calc.ensures((c,), r) ==> r == m(c)
}

impl Num {
    /// The pattern without its sign bit.
    pub open spec fn magnitude(self) -> int {
        if self.bits >= SIGN {
            self.bits - SIGN
        } else {
            self.bits as int
        }
    }

    /// Place on the number line: patterns of one sign are ordered as integers.
    /// The two zeros share a place.
    pub open spec fn place(self) -> int {
        if self.bits >= SIGN {
            -self.magnitude()
        } else {
            self.magnitude()
        }
    }

    pub open spec fn nan(self) -> bool {
        self.magnitude() > INFINITE
    }

    pub open spec fn finite(self) -> bool {
        self.magnitude() < INFINITE
    }

    /// `self < other`; never with something that is not a number.
    pub open spec fn below(self, other: Num) -> bool {
        !self.nan() && !other.nan() && self.place() < other.place()
    }

    /// `self <= other`; never with something that is not a number.
    pub open spec fn at_most(self, other: Num) -> bool {
        !self.nan() && !other.nan() && self.place() <= other.place()
    }

    /// `self > 0`
    pub open spec fn positive(self) -> bool {
        num(ZERO).below(self)
    }

    /// The larger of two numbers; of a number and something else, the number.
    pub open spec fn larger(self, other: Num) -> Num {
        if self.nan() || self.below(other) {
            other
        } else {
            self
        }
    }

    /// The smaller of two numbers; of a number and something else, the number.
    pub open spec fn smaller(self, other: Num) -> Num {
        if self.nan() || other.below(self) {
            other
        } else {
            self
        }
    }

    /// The nearest value between `lo` and `hi`; what is not a number stays.
    pub open spec fn between(self, lo: Num, hi: Num) -> Num {
        if self.below(lo) {
            lo
        } else if hi.below(self) {
            hi
        } else {
            self
        }
    }

    /// The integer part, from zero up to the largest 64-bit count; zero for what
    /// is negative or not a number.
    pub open spec fn whole(self) -> nat {
        let exponent = self.magnitude() / 0x10_0000_0000_0000;
        let significand = 0x10_0000_0000_0000 + self.magnitude() % 0x10_0000_0000_0000;
        if self.nan() || self.bits >= SIGN || exponent < 1023 {
            0
        } else if exponent < 1075 {
            (significand / (power2::pow2((1075 - exponent) as nat) as int)) as nat
        } else if exponent < 1087 {
            (significand * power2::pow2((exponent - 1075) as nat)) as nat
        } else {
            u64::MAX as nat
        }
    }

    pub fn is_nan(self) -> (r: bool)
        ensures
            r == self.nan(),
    {
        if self.bits >= SIGN {
            self.bits - SIGN > INFINITE
        } else {
            self.bits > INFINITE
        }
    }

    pub fn is_finite(self) -> (r: bool)
        ensures
            r == self.finite(),
    {
        if self.bits >= SIGN {
            self.bits - SIGN < INFINITE
        } else {
            self.bits < INFINITE
        }
    }

    pub fn is_below(self, other: Num) -> (r: bool)
        ensures
            r == self.below(other),
    {
        if self.is_nan() || other.is_nan() {
            false
        } else if self.bits >= SIGN {
            if other.bits >= SIGN {
                other.bits < self.bits
            } else {
                self.bits != SIGN || other.bits != 0
            }
        } else {
            other.bits < SIGN && self.bits < other.bits
        }
    }

    pub fn is_at_most(self, other: Num) -> (r: bool)
        ensures
            r == self.at_most(other),
    {
        !self.is_nan() && !other.is_nan() && !other.is_below(self)
    }

    pub fn is_positive(self) -> (r: bool)
        ensures
            r == self.positive(),
    {
        num(ZERO).is_below(self)
    }

    pub fn max(self, other: Num) -> (r: Num)
        ensures
            r == self.larger(other),
    {
        if self.is_nan() || self.is_below(other) {
            other
        } else {
            self
        }
    }

    pub fn min(self, other: Num) -> (r: Num)
        ensures
            r == self.smaller(other),
    {
        if self.is_nan() || other.is_below(self) {
            other
        } else {
            self
        }
    }

    pub fn clamp(self, lo: Num, hi: Num) -> (r: Num)
        ensures
            r == self.between(lo, hi),
    {
        if self.is_below(lo) {
            lo
        } else if hi.is_below(self) {
            hi
        } else {
            self
        }
    }

    /// Truncates to a count.
    pub fn to_count(self) -> (r: u64)
        ensures
            r == self.whole(),
    {
        if self.is_nan() || self.bits >= SIGN {
            return 0;
        }
        let exponent: u64 = self.bits / 0x10_0000_0000_0000;
        let significand: u64 = 0x10_0000_0000_0000 + self.bits % 0x10_0000_0000_0000;
        if exponent < 1023 {
            0
        } else if exponent < 1075 {
            proof {
                bits::lemma_u64_shr_is_div(significand, (1075 - exponent) as u64);
            }
            significand >> (1075 - exponent)
        } else if exponent < 1087 {
            proof {
                let k = (exponent - 1075) as nat;
                power2::lemma_pow2_pos(k);
                power2::lemma2_to64();
                if k < 11 {
                    power2::lemma_pow2_strictly_increases(k, 11);
                }
                assert(significand * power2::pow2(k) <= 0x1f_ffff_ffff_ffff * 2048)
                    by (nonlinear_arith)
                    requires
                        significand <= 0x1f_ffff_ffff_ffff,
                        power2::pow2(k) <= 2048,
                ;
                bits::lemma_u64_shl_is_mul(significand, k as u64);
            }
            significand << (exponent - 1075)
        } else {
            u64::MAX
        }
    }
}

/// A clamped number lies in its bounds.
pub proof fn law_clamp_stays_in_bounds(x: Num, lo: Num, hi: Num)
    requires
        !x.nan(),
        lo.at_most(hi),
    ensures
        lo.at_most(x.between(lo, hi)),
        x.between(lo, hi).at_most(hi),
{
}

/// The order on numbers is total and transitive.
pub proof fn law_order_is_total(a: Num, b: Num, c: Num)
    requires
        !a.nan(),
        !b.nan(),
        !c.nan(),
    ensures
        a.at_most(b) || b.below(a),
        a.at_most(b) && b.at_most(c) ==> a.at_most(c),
        !(a.at_most(b) && b.below(a)),
{
}

/// The sum of the numbers, added from zero in order.
pub open spec fn sum_of(m: Model, s: Seq<Num>) -> Num
    decreases s.len(),
{
    if s.len() == 0 {
        num(ZERO)
    } else {
        m(Calc::Sum(sum_of(m, s.drop_last()), s.last()))
    }
}

/// Adds the numbers from zero in order.
pub fn add_up<C: Fn(Calc) -> Num + Copy>(v: &[Num], calc: C) -> (r: Num)
    requires
        total(calc),
    ensures
        forall|m: Model| #[trigger] models(calc, m) ==> r == sum_of(m, v@),
{
    let mut out = num(ZERO);
    let mut i: usize = 0;
    while i < v.len()
        invariant
            i <= v.len(),
            total(calc),
            forall|m: Model| #[trigger] models(calc, m) ==> out == sum_of(m, v@.take(i as int)),
        decreases v.len() - i,
    {
        out = calc(Calc::Sum(out, v[i]));
        i = i + 1;
        proof {
            assert(v@.take(i as int).drop_last() =~= v@.take(i - 1));
        }
    }
    proof {
        assert(v@.take(v@.len() as int) =~= v@);
    }
    out
}

/// The largest of the numbers, from zero up.
pub open spec fn peak_of(s: Seq<Num>) -> Num
    decreases s.len(),
{
    if s.len() == 0 {
        num(ZERO)
    } else {
        peak_of(s.drop_last()).larger(s.last())
    }
}

/// No number of the sequence is above its peak, and the peak is not negative.
pub proof fn law_peak_bounds_every_number(s: Seq<Num>)
    ensures
        num(ZERO).at_most(peak_of(s)),
        forall|i: int| 0 <= i < s.len() && !s[i].nan() ==> #[trigger] s[i].at_most(peak_of(s)),
    decreases s.len(),
{
    if s.len() > 0 {
        law_peak_bounds_every_number(s.drop_last());
        assert forall|i: int| 0 <= i < s.len() && !s[i].nan() implies #[trigger] s[i].at_most(
            peak_of(s),
        ) by {
            if i < s.len() - 1 {
                assert(s.drop_last()[i].at_most(peak_of(s.drop_last())));
            }
        }
    }
}

pub fn peak(v: &[Num]) -> (r: Num)
    ensures
        r == peak_of(v@),
{
    let mut out = num(ZERO);
    let mut i: usize = 0;
    while i < v.len()
        invariant
            i <= v.len(),
            out == peak_of(v@.take(i as int)),
        decreases v.len() - i,
    {
        out = out.max(v[i]);
        i = i + 1;
        proof {
            assert(v@.take(i as int).drop_last() =~= v@.take(i - 1));
        }
    }
    proof {
        assert(v@.take(v@.len() as int) =~= v@);
    }
    out
}

} // verus!
