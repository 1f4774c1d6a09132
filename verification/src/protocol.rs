//! What passes between the app and its conversion backends.

use vstd::prelude::*;

verus! {

/// A moment in UTC: seconds since the Unix epoch, and the nanoseconds within the second.
#[derive(Debug, Clone, Copy, PartialEq, Eq)]
pub struct Timestamp {
    pub seconds: i64,
    pub nanos: u32,
}

/// Where a transform was asked for.
#[derive(Debug, Clone, PartialEq, Eq)]
pub struct TransformContext {
    pub timestamp: Timestamp,
    pub os: String,
    pub app_name: Option<String>,
    pub process_id: Option<u32>,
    pub window_title: Option<String>,
}

/// A draft to convert, with the memory that applies to it.
#[derive(Debug, Clone, PartialEq, Eq)]
pub struct TransformRequest {
    pub raw: String,
    pub memory: String,
    pub context: TransformContext,
    pub kana_candidate: Option<String>,
}

/// What a backend makes of a draft.
#[derive(Debug, Clone, PartialEq, Eq)]
pub struct TransformResponse {
    pub converted: String,
    pub refined: String,
    pub confidence: Confidence,
}

/// What a [`TransformResponse`] holds.
pub struct ResponseView {
    pub converted: Seq<char>,
    pub refined: Seq<char>,
    pub confidence: Confidence,
}

impl View for TransformResponse {
    type V = ResponseView;

    open spec fn view(&self) -> ResponseView {
        ResponseView {
            converted: self.converted@,
            refined: self.refined@,
            confidence: self.confidence,
        }
    }
}

/// How sure a backend is of its answer: a single-precision number, held as its IEEE 754 bits.
#[derive(Debug, Clone, Copy, PartialEq, Eq, Structural)]
pub struct Confidence {
    pub bits: u32,
}

/// The bits of 0.25.
pub const QUARTER: u32 = 0x3e80_0000;

/// The bits of 0.5.
pub const HALF: u32 = 0x3f00_0000;

/// The bits of 1.
pub const ONE: u32 = 0x3f80_0000;

/// The bits of positive infinity.
pub const INFINITY: u32 = 0x7f80_0000;

/// The bit that makes a number negative.
pub const SIGN: u32 = 0x8000_0000;

impl Confidence {
    /// Whether the number is below zero or is the negative zero.
    pub open spec fn is_signed(self) -> bool {
        self.bits >= SIGN
    }

    /// The bits without the sign.
    pub open spec fn magnitude(self) -> int {
        if self.is_signed() {
            self.bits - SIGN
        } else {
            self.bits as int
        }
    }

    /// Whether the bits are not a number.
    pub open spec fn is_nan(self) -> bool {
        self.magnitude() > INFINITY
    }

    /// Where the number stands among all numbers: of two that are not NaN, the lesser one has
    /// the lesser rank, and equal ones have equal ranks.
    pub open spec fn rank(self) -> int {
        if self.is_signed() {
            -self.magnitude()
        } else {
            self.magnitude()
        }
    }

    /// The nearest number between 0 and 1; NaN stays as it is.
    pub open spec fn clamped_spec(self) -> Confidence {
        if self.is_nan() {
            self
        } else if self.rank() < 0 {
            Confidence { bits: 0 }
        } else if self.rank() > ONE {
            Confidence { bits: ONE }
        } else {
            self
        }
    }

    /// The nearest number between 0 and 1; NaN stays as it is.
    pub fn clamped(self) -> (c: Confidence)
        ensures
            c == self.clamped_spec(),
    {
        let signed = self.bits >= SIGN;
        let magnitude: u32 = if signed {
            self.bits - SIGN
        } else {
            self.bits
        };
        if magnitude > INFINITY {
            self
        } else if signed && magnitude > 0 {
            Confidence { bits: 0 }
        } else if !signed && magnitude > ONE {
            Confidence { bits: ONE }
        } else {
            self
        }
    }
}

/// A clamped confidence that is a number stands between 0 and 1.
pub proof fn law_clamped_in_range(c: Confidence)
    requires
        !c.is_nan(),
    ensures
        !c.clamped_spec().is_nan(),
        0 <= c.clamped_spec().rank() <= ONE,
{
}

/// A confidence between 0 and 1 is not changed by clamping, so clamping twice is clamping once.
pub proof fn law_clamped_keeps_range(c: Confidence)
    ensures
        0 <= c.rank() <= ONE ==> c.clamped_spec() == c,
        c.clamped_spec().clamped_spec() == c.clamped_spec(),
{
}

/// Numbers from 0 to 1 are kept bit by bit, greater ones become 1 and lesser ones 0; the negative
/// zero, and what is not a number, stay as they are.
pub proof fn law_clamped_bit_by_bit(c: Confidence)
    ensures
        c.bits <= 0x3f80_0000 ==> c.clamped_spec().bits == c.bits,
        0x3f80_0000 < c.bits <= 0x7f80_0000 ==> c.clamped_spec().bits == 0x3f80_0000,
        0x7f80_0000 < c.bits <= 0x8000_0000 ==> c.clamped_spec().bits == c.bits,
        0x8000_0000 < c.bits <= 0xff80_0000 ==> c.clamped_spec().bits == 0,
        0xff80_0000 < c.bits ==> c.clamped_spec().bits == c.bits,
{
}

} // verus!
