//! A verified streaming bridge between a block producer and a renderer.
//!
//! A producer (a synthetic signal chain with injectable noise, a cyclic
//! replay of recorded data, or a network feed) emits fixed-size blocks of
//! magnitude samples. A bounded, lossy queue hands the freshest of them to
//! a renderer, and a lifecycle controller starts, tunes and stops the
//! producer on the user's demand.
//!
//! Samples and gains travel as IEEE-754 binary32 bit patterns (`u32`), so
//! every rule about them is stated over plain integers.

use vstd::prelude::*;

pub mod additive_noise;
pub mod channel;
pub mod channel_sink;
pub mod extent;
pub mod float32;
pub mod integral;
pub mod lifecycle;
pub mod network_feed;
pub mod render;
pub mod replay;
pub mod scalar;
mod slices;
pub mod wire;

verus! {

/// Number of samples in one block of the synthetic source.
pub const FFT_SIZE: usize = 512;

/// Samples per second that the synthetic source is throttled to: four
/// blocks.
pub const PLOT_RATE: usize = 2048;

} // verus!
