//! The noise stage of the synthetic source, and its control port.

use crate::float32::{is_negative, magnitude, negated};
use crate::scalar::{coerces_to, is_supported, TaggedScalar};
use vstd::prelude::*;

verus! {

/// The acknowledgement of an accepted control update.
#[derive(Debug, Clone, Copy, PartialEq, Eq, Structural)]
pub struct Ack;

/// Why a control update was not applied.
#[derive(Debug, Clone, Copy, PartialEq, Eq, Structural)]
pub enum Rejected {
    /// The value carried a tag that no gain can be read from.
    UnsupportedTag,
    /// The update did not reach the stage, or no answer came back.
    Undelivered,
}

/// Where the noise added to each part of a sample is drawn from.
#[derive(Debug, Clone, Copy, PartialEq, Eq, Structural)]
pub enum NoiseRange {
    /// The gain is zero: nothing is drawn and samples pass unchanged.
    Silent,
    /// Uniformly between the two bounds, `low` being `high` negated.
    Uniform { low: u32, high: u32 },
    /// The gain is negative, infinite or a NaN: there is nothing to draw from.
    Invalid,
}

/// The range that noise is drawn from under a given gain.
pub open spec fn range_for(gain: u32) -> NoiseRange {
    if magnitude(gain) == 0 {
        NoiseRange::Silent
    } else if is_negative(gain) || magnitude(gain) >= 0x7F80_0000 {
        NoiseRange::Invalid
    } else {
        NoiseRange::Uniform { low: (gain + 0x8000_0000) as u32, high: gain }
    }
}

/// How many samples one round of work moves, and whether the stage is done.
#[derive(Debug, Clone, Copy, PartialEq, Eq, Structural)]
pub struct WorkPlan {
    /// Samples to read, disturb and write.
    pub items: usize,
    /// Whether the stage has seen the end of its input.
    pub finished: bool,
}

/// Adds uniform noise, scaled by a gain, to both parts of each complex
/// sample. The gain is a binary32 bit pattern.
pub struct AdditiveNoise {
    gain: u32,
}

impl AdditiveNoise {
    /// The current gain.
    pub closed spec fn gain(&self) -> u32 {
        self.gain
    }

    /// A stage with the given gain.
    pub fn new(gain: u32) -> (stage: AdditiveNoise)
        ensures
            stage.gain() == gain,
    {
        AdditiveNoise { gain }
    }

    /// Reads the current gain.
    pub fn current_gain(&self) -> (gain: u32)
        ensures
            gain == self.gain(),
    {
        self.gain
    }

    /// The control port: sets the gain to what `value` is coerced to. A
    /// value with an unsupported tag is rejected and changes nothing.
    pub fn gain_handler(&mut self, value: TaggedScalar) -> (outcome: Result<Ack, Rejected>)
        ensures
            is_supported(value) ==> outcome == Ok::<Ack, Rejected>(Ack) && coerces_to(
                value,
                final(self).gain(),
            ),
            !is_supported(value) ==> outcome == Err::<Ack, Rejected>(Rejected::UnsupportedTag)
                && final(self).gain() == old(self).gain(),
    {
        match value.to_gain() {
            Some(gain) => {
                self.gain = gain;
                Ok(Ack)
            },
            None => Err(Rejected::UnsupportedTag),
        }
    }

    /// The range that the noise of the next samples is drawn from.
    pub fn noise_range(&self) -> (range: NoiseRange)
        ensures
            range == range_for(self.gain()),
    {
        let gain: u32 = self.gain;
        let mag: u32 = gain % 0x8000_0000;
        if mag == 0 {
            NoiseRange::Silent
        } else if gain >= 0x8000_0000 || mag >= 0x7F80_0000 {
            NoiseRange::Invalid
        } else {
            NoiseRange::Uniform { low: negated(gain), high: gain }
        }
    }

    /// Plans one round of work: as many samples move as the input holds and
    /// the output has room for, and the stage is done once its input has
    /// ended and nothing of it is left behind.
    pub fn work(&self, available: usize, room: usize, input_finished: bool) -> (plan: WorkPlan)
        ensures
            plan.items == if available <= room {
                available
            } else {
                room
            },
            plan.finished == (input_finished && plan.items == available),
    {
        let items: usize = if available <= room {
            available
        } else {
            room
        };
        WorkPlan { items, finished: input_finished && items == available }
    }
}

} // verus!
