use vstd::prelude::*;

verus! {

/// The bit pattern of positive one.
pub const ONE_BITS: u32 = 0x3F80_0000;

/// The bit pattern of one half.
pub const HALF_BITS: u32 = 0x3F00_0000;

/// The bit that carries the sign.
pub const SIGN_BIT: u32 = 0x8000_0000;

/// The magnitude bits of the infinities; a larger magnitude is not a number.
pub const INFINITY_BITS: u32 = 0x7F80_0000;

/// A single-precision binary number, held as its IEEE 754 bit pattern.
///
/// The library never does arithmetic on values: it stores them, hands them to
/// the arithmetic that its callers supply, and compares them.
#[derive(Debug, Clone, Copy, PartialEq, Eq, Structural)]
pub struct Value {
    pub bits: u32,
}

impl Value {
    /// The bits below the sign bit.
    pub open spec fn magnitude(&self) -> int {
        self.bits as int % 0x8000_0000
    }

    /// Whether the sign bit is set.
    pub open spec fn negative(&self) -> bool {
        self.bits >= SIGN_BIT
    }

    /// Whether the pattern stands for no number.
    pub open spec fn is_nan(&self) -> bool {
        self.magnitude() > INFINITY_BITS
    }

    /// An integer that orders the patterns as the numbers they stand for:
    /// for two patterns that are numbers, the one stands for a smaller number
    /// than the other exactly if its key is smaller. Both zeros have key zero.
    pub open spec fn order_key(&self) -> int {
        if self.negative() {
            -self.magnitude()
        } else {
            self.magnitude()
        }
    }

    /// Whether both are numbers and `self` is the greater.
    pub open spec fn greater_than(&self, other: Value) -> bool {
        !self.is_nan() && !other.is_nan() && self.order_key() > other.order_key()
    }

    /// Whether both are numbers and `self` is not the smaller.
    pub open spec fn at_least(&self, other: Value) -> bool {
        !self.is_nan() && !other.is_nan() && self.order_key() >= other.order_key()
    }

    /// Whether both are numbers and `self` is not the greater.
    pub open spec fn at_most(&self, other: Value) -> bool {
        !self.is_nan() && !other.is_nan() && self.order_key() <= other.order_key()
    }

    /// Positive zero.
    pub fn zero() -> (value: Value)
        ensures
            value.bits == 0,
    {
        Value { bits: 0 }
    }

    /// Negative zero.
    pub fn negative_zero() -> (value: Value)
        ensures
            value.bits == SIGN_BIT,
    {
        Value { bits: SIGN_BIT }
    }

    /// Positive one.
    pub fn one() -> (value: Value)
        ensures
            value.bits == ONE_BITS,
    {
        Value { bits: ONE_BITS }
    }

    /// Negative one.
    pub fn negative_one() -> (value: Value)
        ensures
            value.bits == ONE_BITS + SIGN_BIT,
    {
        Value { bits: ONE_BITS + SIGN_BIT }
    }

    /// One half.
    pub fn half() -> (value: Value)
        ensures
            value.bits == HALF_BITS,
    {
        Value { bits: HALF_BITS }
    }

    /// Negative one half.
    pub fn negative_half() -> (value: Value)
        ensures
            value.bits == HALF_BITS + SIGN_BIT,
    {
        Value { bits: HALF_BITS + SIGN_BIT }
    }

    /// Whether the pattern stands for no number.
    pub fn not_a_number(&self) -> (nan: bool)
        ensures
            nan == self.is_nan(),
    {
        self.bits % SIGN_BIT > INFINITY_BITS
    }

    /// The integer by which the value is ordered.
    pub fn key(&self) -> (key: i64)
        ensures
            key == self.order_key(),
    {
        let magnitude: u32 = self.bits % SIGN_BIT;
        if self.bits >= SIGN_BIT {
            0 - (magnitude as i64)
        } else {
            magnitude as i64
        }
    }

    /// Whether both are numbers and `self` is the greater.
    pub fn exceeds(&self, other: &Value) -> (greater: bool)
        ensures
            greater == self.greater_than(*other),
    {
        !self.not_a_number() && !other.not_a_number() && self.key() > other.key()
    }

    /// Whether both are numbers and `self` is not the smaller.
    pub fn reaches(&self, other: &Value) -> (reached: bool)
        ensures
            reached == self.at_least(*other),
    {
        !self.not_a_number() && !other.not_a_number() && self.key() >= other.key()
    }

    /// Whether both are numbers and `self` is not the greater.
    pub fn stays_within(&self, other: &Value) -> (within: bool)
        ensures
            within == self.at_most(*other),
    {
        !self.not_a_number() && !other.not_a_number() && self.key() <= other.key()
    }
}

} // verus!
