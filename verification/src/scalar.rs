//! The tagged control value and its coercion to a gain.

use crate::float32::{
    from_f64, from_u32, from_u64, lemma_rounds_to_unique, magnitude, narrows_to, rounds_to,
    wide_grid, wide_is_nan, wide_magnitude,
};
use vstd::arithmetic::power2::{lemma_pow2_pos, pow2};
use vstd::prelude::*;

verus! {

/// A control value: a number under one of four tags, null, or a marker for
/// every tag that carries no gain. Floating-point payloads are held as
/// their bit patterns.
#[derive(Debug, Clone, Copy, PartialEq, Eq, Structural)]
pub enum TaggedScalar {
    /// A binary32 value.
    F32(u32),
    /// A binary64 value.
    F64(u64),
    /// A 32-bit unsigned integer.
    U32(u32),
    /// A 64-bit unsigned integer.
    U64(u64),
    /// No value.
    Null,
    /// A value of any other kind.
    Unsupported,
}

/// Whether the tag is one that a gain can be read from.
pub open spec fn is_supported(value: TaggedScalar) -> bool {
    !(value is Unsupported)
}

/// `gain` is the binary32 pattern that `value` is coerced to: a binary32
/// value is taken as it is, a binary64 value is narrowed, an integer is
/// rounded to nearest with ties to even, and null is zero.
pub open spec fn coerces_to(value: TaggedScalar, gain: u32) -> bool {
    match value {
        TaggedScalar::F32(bits) => gain == bits,
        TaggedScalar::F64(wide) => narrows_to(gain, wide),
        TaggedScalar::U32(v) => rounds_to(gain as nat, v as nat * pow2(149), 1),
        TaggedScalar::U64(v) => rounds_to(gain as nat, v as nat * pow2(149), 1),
        TaggedScalar::Null => gain == 0,
        TaggedScalar::Unsupported => false,
    }
}

/// Coercion is a function of the value: two gains that a value is coerced
/// to are the same pattern.
pub proof fn lemma_coercion_is_determined(value: TaggedScalar, a: u32, b: u32)
    requires
        coerces_to(value, a),
        coerces_to(value, b),
    ensures
        a == b,
{
    match value {
        TaggedScalar::F64(wide) => {
            if !wide_is_nan(wide) {
                lemma_pow2_pos(925);
                lemma_rounds_to_unique(
                    magnitude(a),
                    magnitude(b),
                    wide_grid(wide_magnitude(wide)),
                    pow2(925),
                );
            }
        },
        TaggedScalar::U32(v) => {
            lemma_rounds_to_unique(a as nat, b as nat, v as nat * pow2(149), 1);
        },
        TaggedScalar::U64(v) => {
            lemma_rounds_to_unique(a as nat, b as nat, v as nat * pow2(149), 1);
        },
        _ => {},
    }
}

impl TaggedScalar {
    /// The gain that the value is coerced to, or `None` for an unsupported
    /// tag.
    pub fn to_gain(&self) -> (gain: Option<u32>)
        ensures
            gain is Some == is_supported(*self),
            gain is Some ==> coerces_to(*self, gain->0),
    {
        match *self {
            TaggedScalar::F32(bits) => Some(bits),
            TaggedScalar::F64(wide) => Some(from_f64(wide)),
            TaggedScalar::U32(v) => Some(from_u32(v)),
            TaggedScalar::U64(v) => Some(from_u64(v)),
            TaggedScalar::Null => Some(0),
            TaggedScalar::Unsupported => None,
        }
    }
}

} // verus!
