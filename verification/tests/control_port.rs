use sample_bridge::additive_noise::{Ack, AdditiveNoise, NoiseRange, Rejected, WorkPlan};
use sample_bridge::scalar::TaggedScalar;

#[test]
fn float32_update_is_taken_as_it_is() {
    let mut stage = AdditiveNoise::new(0);
    assert_eq!(stage.gain_handler(TaggedScalar::F32(1.5f32.to_bits())), Ok(Ack));
    assert_eq!(f32::from_bits(stage.current_gain()), 1.5);
}

#[test]
fn float64_update_is_narrowed() {
    let mut stage = AdditiveNoise::new(0);
    assert_eq!(stage.gain_handler(TaggedScalar::F64(0.1f64.to_bits())), Ok(Ack));
    assert_eq!(f32::from_bits(stage.current_gain()), 0.1f64 as f32);
}

#[test]
fn integer_updates_are_rounded() {
    let mut stage = AdditiveNoise::new(0);
    assert_eq!(stage.gain_handler(TaggedScalar::U32(7)), Ok(Ack));
    assert_eq!(f32::from_bits(stage.current_gain()), 7.0);
    assert_eq!(stage.gain_handler(TaggedScalar::U32(4_000_000_001)), Ok(Ack));
    assert_eq!(f32::from_bits(stage.current_gain()), 4_000_000_001u32 as f32);
    assert_eq!(stage.gain_handler(TaggedScalar::U64(1 << 40)), Ok(Ack));
    assert_eq!(f32::from_bits(stage.current_gain()), (1u64 << 40) as f32);
    assert_eq!(stage.gain_handler(TaggedScalar::U64(u64::MAX - 5)), Ok(Ack));
    assert_eq!(f32::from_bits(stage.current_gain()), (u64::MAX - 5) as f32);
}

#[test]
fn null_resets_the_gain_to_zero() {
    let mut stage = AdditiveNoise::new(3.0f32.to_bits());
    assert_eq!(stage.gain_handler(TaggedScalar::Null), Ok(Ack));
    assert_eq!(stage.current_gain(), 0);
}

#[test]
fn unsupported_tag_is_rejected_and_changes_nothing() {
    let mut stage = AdditiveNoise::new(3.0f32.to_bits());
    assert_eq!(stage.gain_handler(TaggedScalar::Unsupported), Err(Rejected::UnsupportedTag));
    assert_eq!(stage.current_gain(), 3.0f32.to_bits());
}

#[test]
fn to_gain_covers_every_tag() {
    assert_eq!(TaggedScalar::F32(0x4040_0000).to_gain(), Some(0x4040_0000));
    assert_eq!(TaggedScalar::F64(3.0f64.to_bits()).to_gain(), Some(0x4040_0000));
    assert_eq!(TaggedScalar::U32(3).to_gain(), Some(0x4040_0000));
    assert_eq!(TaggedScalar::U64(3).to_gain(), Some(0x4040_0000));
    assert_eq!(TaggedScalar::Null.to_gain(), Some(0));
    assert_eq!(TaggedScalar::Unsupported.to_gain(), None);
}

#[test]
fn zero_gain_draws_no_noise() {
    assert_eq!(AdditiveNoise::new(0).noise_range(), NoiseRange::Silent);
    assert_eq!(AdditiveNoise::new(0x8000_0000).noise_range(), NoiseRange::Silent);
}

#[test]
fn positive_gain_draws_between_its_negation_and_itself() {
    let gain = 0.5f32.to_bits();
    assert_eq!(
        AdditiveNoise::new(gain).noise_range(),
        NoiseRange::Uniform { low: (-0.5f32).to_bits(), high: gain }
    );
    assert_eq!(
        AdditiveNoise::new(1).noise_range(),
        NoiseRange::Uniform { low: 0x8000_0001, high: 1 }
    );
}

#[test]
fn unusable_gains_are_reported() {
    assert_eq!(AdditiveNoise::new((-1.0f32).to_bits()).noise_range(), NoiseRange::Invalid);
    assert_eq!(AdditiveNoise::new(f32::INFINITY.to_bits()).noise_range(), NoiseRange::Invalid);
    assert_eq!(AdditiveNoise::new(f32::NAN.to_bits()).noise_range(), NoiseRange::Invalid);
}

#[test]
fn work_moves_what_fits() {
    let stage = AdditiveNoise::new(0);
    assert_eq!(stage.work(8, 5, false), WorkPlan { items: 5, finished: false });
    assert_eq!(stage.work(5, 8, false), WorkPlan { items: 5, finished: false });
    assert_eq!(stage.work(5, 8, true), WorkPlan { items: 5, finished: true });
    assert_eq!(stage.work(8, 5, true), WorkPlan { items: 5, finished: false });
    assert_eq!(stage.work(0, 5, true), WorkPlan { items: 0, finished: true });
    assert_eq!(stage.work(0, 0, false), WorkPlan { items: 0, finished: false });
}

#[test]
fn float64_nan_update_gives_the_quiet_nan() {
    let mut stage = AdditiveNoise::new(0);
    assert_eq!(stage.gain_handler(TaggedScalar::F64(0xFFF0_0000_0000_0001)), Ok(Ack));
    assert_eq!(stage.current_gain(), 0xFFC0_0000);
    assert_eq!(stage.gain_handler(TaggedScalar::F64(f64::NAN.to_bits())), Ok(Ack));
    assert!(f32::from_bits(stage.current_gain()).is_nan());
}
