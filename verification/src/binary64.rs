//! Floating-point values as this crate holds them: by the bits of their binary64
//! form. Comparing such values is comparing integers; computing with them, reading
//! and writing them as text is left to the caller.
use crate::order::TextMap;
use crate::text::same;
use vstd::arithmetic::div_mod::lemma_div_denominator;
use vstd::arithmetic::power2::{
    lemma2_to64, lemma_pow2_pos, lemma_pow2_strictly_increases, lemma_pow2_unfold, pow2,
};
use vstd::prelude::*;

verus! {

/// The bit of the sign.
pub const SIGN_BIT: u64 = 0x8000_0000_0000_0000;

/// The bits of positive infinity.
pub const INFINITY_BITS: u64 = 0x7ff0_0000_0000_0000;

/// A binary64 value.
#[derive(Clone, Copy, Debug, PartialEq, Eq, Structural)]
pub struct Real {
    pub bits: u64,
}

impl Real {
    /// The distance from zero, as an integer that grows with it.
    pub open spec fn magnitude(self) -> int {
        if self.bits >= SIGN_BIT {
            self.bits - SIGN_BIT
        } else {
            self.bits as int
        }
    }

    pub open spec fn is_nan(self) -> bool {
        self.magnitude() > INFINITY_BITS
    }

    /// An integer that grows with the value; positive and negative zero have the same.
    pub open spec fn rank(self) -> int {
        if self.bits >= SIGN_BIT {
            -self.magnitude()
        } else {
            self.magnitude()
        }
    }

    /// An integer that grows in the total order of binary64 values, in which negative
    /// zero is before positive zero and a value that is no number is outermost.
    pub open spec fn total_rank(self) -> int {
        if self.bits >= SIGN_BIT {
            -self.magnitude() - 1
        } else {
            self.magnitude()
        }
    }

    /// Whether the value is less than or equal to the other; never where one is no number.
    pub open spec fn le_of(self, other: Real) -> bool {
        !self.is_nan() && !other.is_nan() && self.rank() <= other.rank()
    }

    /// Whether the values are equal as numbers.
    pub open spec fn eq_of(self, other: Real) -> bool {
        !self.is_nan() && !other.is_nan() && self.rank() == other.rank()
    }

    fn size(self) -> (r: u64)
        ensures
            r == self.magnitude(),
    {
        if self.bits >= SIGN_BIT {
            self.bits - SIGN_BIT
        } else {
            self.bits
        }
    }

    pub fn at_most(self, other: Real) -> (r: bool)
        ensures
            r == self.le_of(other),
    {
        let a: u64 = self.size();
        let b: u64 = other.size();
        if a > INFINITY_BITS || b > INFINITY_BITS {
            false
        } else if self.bits >= SIGN_BIT {
            if other.bits >= SIGN_BIT {
                b <= a
            } else {
                true
            }
        } else if other.bits >= SIGN_BIT {
            a == 0 && b == 0
        } else {
            a <= b
        }
    }

    pub fn equals(self, other: Real) -> (r: bool)
        ensures
            r == self.eq_of(other),
    {
        self.at_most(other) && other.at_most(self)
    }

    /// Whether the value is before the other in the total order of binary64 values.
    pub fn is_before_in_total_order(self, other: Real) -> (r: bool)
        ensures
            r == (self.total_rank() < other.total_rank()),
    {
        if self.bits >= SIGN_BIT {
            if other.bits >= SIGN_BIT {
                self.bits > other.bits
            } else {
                true
            }
        } else if other.bits >= SIGN_BIT {
            false
        } else {
            self.bits < other.bits
        }
    }
}

impl Real {
    /// The biased exponent.
    pub open spec fn exponent(self) -> nat {
        (self.magnitude() / 0x10_0000_0000_0000) as nat
    }

    /// The digits of a value that is at least one.
    pub open spec fn significand(self) -> nat {
        (self.magnitude() % 0x10_0000_0000_0000 + 0x10_0000_0000_0000) as nat
    }

    pub open spec fn is_finite(self) -> bool {
        self.magnitude() < INFINITY_BITS
    }

    /// The whole part of a finite value that is not negative, up to the greatest that the
    /// result can hold. Such a value is its significand times two to the power of its
    /// exponent less 1075.
    pub open spec fn whole_part(self) -> nat {
        if self.exponent() < 1_023 {
            0
        } else if self.exponent() >= 1_087 {
            u64::MAX as nat
        } else if self.exponent() >= 1_075 {
            self.significand() * pow2((self.exponent() - 1_075) as nat)
        } else {
            self.significand() / pow2((1_075 - self.exponent()) as nat)
        }
    }

    /// The value without its sign.
    pub open spec fn absolute_of(self) -> Real {
        Real { bits: self.magnitude() as u64 }
    }

    /// The value without its sign.
    pub fn absolute(self) -> (r: Real)
        ensures
            r == self.absolute_of(),
    {
        Real { bits: self.size() }
    }

    pub fn finite(self) -> (r: bool)
        ensures
            r == self.is_finite(),
    {
        self.size() < INFINITY_BITS
    }

    /// The whole part of a finite value that is not negative.
    pub fn to_whole(self) -> (r: u64)
        ensures
            r == self.whole_part(),
    {
        let size: u64 = self.size();
        let exponent: u64 = size / 0x10_0000_0000_0000;
        let mut n: u64 = size % 0x10_0000_0000_0000 + 0x10_0000_0000_0000;
        if exponent < 1_023 {
            return 0;
        }
        if exponent >= 1_087 {
            return u64::MAX;
        }
        if exponent >= 1_075 {
            let mut k: u64 = 0;
            proof {
                lemma2_to64();
            }
            while k < exponent - 1_075
                invariant
                    1_075 <= exponent < 1_087,
                    k <= exponent - 1_075,
                    self.significand() < 0x20_0000_0000_0000,
                    n == self.significand() * pow2(k as nat),
                decreases exponent - k,
            {
                proof {
                    lemma2_to64();
                    lemma_pow2_unfold((k + 1) as nat);
                    doubled(self.significand() as int, pow2(k as nat) as int);
                    assert(pow2(k as nat) <= 1_024) by {
                        if k < 10 {
                            lemma_pow2_strictly_increases(k as nat, 10);
                        }
                    }
                    bounded(self.significand() as int, pow2(k as nat) as int);
                }
                n = n * 2;
                k += 1;
            }
            return n;
        }
        let mut k: u64 = 0;
        proof {
            lemma2_to64();
        }
        while k < 1_075 - exponent
            invariant
                1_023 <= exponent < 1_075,
                k <= 1_075 - exponent,
                n == self.significand() / pow2(k as nat),
            decreases 1_075 - exponent - k,
        {
            proof {
                lemma_pow2_pos(k as nat);
                lemma_pow2_unfold((k + 1) as nat);
                lemma_div_denominator(self.significand() as int, pow2(k as nat) as int, 2);
                doubled(1, pow2(k as nat) as int);
            }
            n = n / 2;
            k += 1;
        }
        n
    }
}

proof fn doubled(a: int, b: int)
    ensures
        a * (2 * b) == (a * b) * 2,
        b * 2 == 2 * b,
{
    assert(a * (2 * b) == (a * b) * 2) by (nonlinear_arith);
}

proof fn bounded(a: int, b: int)
    requires
        0 <= a < 0x20_0000_0000_0000,
        0 <= b <= 1_024,
    ensures
        a * b <= 0x1f_ffff_ffff_ffff * 1_024,
{
    assert(a * b <= 0x1f_ffff_ffff_ffff * 1_024) by (nonlinear_arith)
        requires
            0 <= a < 0x20_0000_0000_0000,
            0 <= b <= 1_024,
    ;
}

/// A binary64 value together with the text that it is written as.
#[derive(Debug, PartialEq, Eq)]
pub struct Decimal {
    pub value: Real,
    pub text: String,
}

/// A value with its text, as contracts speak of it.
pub struct DecimalFacts {
    pub value: Real,
    pub text: Seq<char>,
}

impl View for Decimal {
    type V = DecimalFacts;

    open spec fn view(&self) -> DecimalFacts {
        DecimalFacts { value: self.value, text: self.text@ }
    }
}

impl Clone for Decimal {
    fn clone(&self) -> (r: Decimal)
        ensures
            r == *self,
    {
        Decimal { value: self.value, text: self.text.clone() }
    }
}

/// An optional value with its text, as contracts speak of it.
pub open spec fn decimal_facts(value: Option<Decimal>) -> Option<DecimalFacts> {
    match value {
        Some(v) => Some(v@),
        None => None,
    }
}

pub fn copy_decimal(value: &Option<Decimal>) -> (r: Option<Decimal>)
    ensures
        r == *value,
{
    match value {
        Some(v) => Some(v.clone()),
        None => None,
    }
}

/// An optional text, as contracts speak of it.
pub open spec fn text_facts(value: Option<String>) -> Option<Seq<char>> {
    match value {
        Some(v) => Some(v@),
        None => None,
    }
}

pub fn copy_text(value: &Option<String>) -> (r: Option<String>)
    ensures
        r == *value,
{
    match value {
        Some(v) => Some(v.clone()),
        None => None,
    }
}

/// Whether an optional text is the given one.
pub fn is_text(value: &Option<String>, text: &str) -> (r: bool)
    ensures
        r == (text_facts(*value) == Some(text@)),
{
    match value {
        Some(v) => same(v.as_str(), text),
        None => false,
    }
}

/// Whether two optional texts are the same.
pub fn same_text(a: &Option<String>, b: &Option<String>) -> (r: bool)
    ensures
        r == (text_facts(*a) == text_facts(*b)),
{
    match a {
        Some(x) => is_text(b, x.as_str()),
        None => b.is_none(),
    }
}

/// The values that texts denote, as the caller's reader of floating-point text gave
/// them. A text that is missing denotes none.
pub type Numbers = TextMap<Decimal>;

/// What a text denotes among the given values.
pub open spec fn number_in(numbers: Map<Seq<char>, Decimal>, text: Seq<char>) -> Option<
    DecimalFacts,
> {
    if numbers.contains_key(text) {
        Some(numbers[text]@)
    } else {
        None
    }
}

pub fn find_number(numbers: &Numbers, text: &str) -> (r: Option<Decimal>)
    ensures
        decimal_facts(r) == number_in(numbers@, text@),
{
    match numbers.get(text) {
        Some(v) => Some(v.clone()),
        None => None,
    }
}

/// The order of values is that of the numbers that their bits stand for: of values without the
/// sign the one with the greater bits is greater, of values with it the one with the lesser
/// bits, a value with the sign is never greater than one without it, and the two zeros are
/// equal. What is no number is in no order.
pub proof fn order_is_that_of_numbers(a: Real, b: Real)
    ensures
        a.bits <= 0x7ff0_0000_0000_0000 && b.bits <= 0x7ff0_0000_0000_0000 ==> (a.le_of(b)
            <==> a.bits <= b.bits) && (a.eq_of(b) <==> a.bits == b.bits),
        0x8000_0000_0000_0000 <= a.bits <= 0xfff0_0000_0000_0000 && 0x8000_0000_0000_0000 <= b.bits
            <= 0xfff0_0000_0000_0000 ==> (a.le_of(b) <==> b.bits <= a.bits) && (a.eq_of(b)
            <==> a.bits == b.bits),
        0x8000_0000_0000_0000 <= a.bits <= 0xfff0_0000_0000_0000 && b.bits
            <= 0x7ff0_0000_0000_0000 ==> {
            &&& a.le_of(b)
            &&& b.le_of(a) <==> a.bits == 0x8000_0000_0000_0000 && b.bits == 0
            &&& a.eq_of(b) <==> a.bits == 0x8000_0000_0000_0000 && b.bits == 0
        },
        a.is_nan() <==> 0x7ff0_0000_0000_0000 < a.bits < 0x8000_0000_0000_0000 || a.bits
            > 0xfff0_0000_0000_0000,
        a.is_nan() ==> !a.le_of(b) && !b.le_of(a) && !a.eq_of(b),
        a.is_finite() <==> a.bits < 0x7ff0_0000_0000_0000 || 0x8000_0000_0000_0000 <= a.bits
            < 0xfff0_0000_0000_0000,
        !a.is_nan() && !b.is_nan() ==> {
            &&& a.le_of(b) <==> a.rank() <= b.rank()
            &&& a.le_of(b) || b.le_of(a)
        },
{
}

/// The value without its sign is not less than zero, and has the bits of the value but for the
/// sign.
pub proof fn absolute_has_no_sign(a: Real)
    ensures
        a.absolute_of().bits < 0x8000_0000_0000_0000,
        a.absolute_of().bits == a.bits || a.absolute_of().bits + 0x8000_0000_0000_0000 == a.bits,
        a.absolute_of().absolute_of() == a.absolute_of(),
{
}

/// In the total order every value with the sign is before every one without it; of two with
/// it the one with the greater bits is before the other, of two without it the one with the
/// lesser bits.
pub proof fn total_order_is_by_sign_and_bits(a: Real, b: Real)
    ensures
        a.bits >= 0x8000_0000_0000_0000 > b.bits ==> a.total_rank() < b.total_rank(),
        a.bits >= 0x8000_0000_0000_0000 && b.bits >= 0x8000_0000_0000_0000 ==> (a.total_rank()
            < b.total_rank() <==> a.bits > b.bits),
        a.bits < 0x8000_0000_0000_0000 && b.bits < 0x8000_0000_0000_0000 ==> (a.total_rank()
            < b.total_rank() <==> a.bits < b.bits),
        a.total_rank() == b.total_rank() <==> a == b,
{
}

} // verus!
