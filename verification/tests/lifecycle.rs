use sample_bridge::lifecycle::{Action, Controller, Event, Phase, UiState};
use sample_bridge::scalar::TaggedScalar;

fn shown(enabled: bool, noise_level: i32) -> UiState {
    UiState { enabled, noise_level }
}

fn gain(noise_level: i32) -> u32 {
    (noise_level as f32 / 10.0).to_bits()
}

fn running(noise_level: i32) -> Controller {
    let mut c = Controller::new();
    assert_eq!(
        c.step(Event::Toggled(shown(true, noise_level))),
        Action::Spawn { gain: gain(noise_level) }
    );
    assert_eq!(c.step(Event::Constructed), Action::Nothing);
    assert_eq!(c.phase, Phase::Running);
    c
}

#[test]
fn enabling_starts_an_instance() {
    let mut c = Controller::new();
    assert_eq!(c.phase, Phase::Idle);
    assert_eq!(c.step(Event::Toggled(shown(false, 10))), Action::Nothing);
    assert_eq!(c.phase, Phase::Idle);
    assert_eq!(c.step(Event::Toggled(shown(true, 3))), Action::Spawn { gain: 0.3f32.to_bits() });
    assert_eq!(c.phase, Phase::Starting);
    assert_eq!(c.step(Event::Block(Some(shown(true, 3)))), Action::Nothing);
    assert_eq!(c.step(Event::Constructed), Action::Nothing);
    assert_eq!(c.phase, Phase::Running);
}

#[test]
fn unchanged_gain_is_not_sent_again() {
    let mut c = running(5);
    for _ in 0..3 {
        assert_eq!(c.step(Event::Block(Some(shown(true, 5)))), Action::Render);
    }
    assert!(!c.awaiting_ack);
}

#[test]
fn changed_gain_is_sent_once() {
    let mut c = running(5);
    assert_eq!(
        c.step(Event::Block(Some(shown(true, 7)))),
        Action::RenderAndUpdate { value: TaggedScalar::F32(gain(7)) }
    );
    assert!(c.awaiting_ack);
    assert_eq!(c.step(Event::Acked), Action::Nothing);
    assert!(!c.awaiting_ack);
    assert_eq!(c.step(Event::Block(Some(shown(true, 7)))), Action::Render);
    assert_eq!(
        c.step(Event::Block(Some(shown(true, 5)))),
        Action::RenderAndUpdate { value: TaggedScalar::F32(gain(5)) }
    );
}

#[test]
fn no_second_update_while_one_is_pending() {
    let mut c = running(0);
    assert_eq!(
        c.step(Event::Block(Some(shown(true, 10)))),
        Action::RenderAndUpdate { value: TaggedScalar::F32(1.0f32.to_bits()) }
    );
    assert_eq!(c.step(Event::Block(Some(shown(true, 20)))), Action::Render);
    assert_eq!(c.step(Event::Acked), Action::Nothing);
    assert_eq!(
        c.step(Event::Block(Some(shown(true, 20)))),
        Action::RenderAndUpdate { value: TaggedScalar::F32(2.0f32.to_bits()) }
    );
}

#[test]
fn negative_level_gives_a_negative_gain() {
    let mut c = running(0);
    assert_eq!(
        c.step(Event::Block(Some(shown(true, -25)))),
        Action::RenderAndUpdate { value: TaggedScalar::F32((-2.5f32).to_bits()) }
    );
}

#[test]
fn disabling_drains_and_nothing_more_is_sent() {
    let mut c = running(5);
    assert_eq!(c.step(Event::Block(Some(shown(false, 9)))), Action::Terminate);
    assert_eq!(c.phase, Phase::Draining);
    assert_eq!(c.step(Event::Block(Some(shown(true, 9)))), Action::Nothing);
    assert_eq!(c.step(Event::Toggled(shown(true, 9))), Action::Nothing);
    assert_eq!(c.step(Event::Acked), Action::Nothing);
    assert_eq!(c.step(Event::ChannelClosed), Action::Nothing);
    assert_eq!(c.phase, Phase::Draining);
    assert_eq!(c.step(Event::Stopped), Action::Nothing);
    assert_eq!(c.phase, Phase::Terminated);
    assert_eq!(c.step(Event::Toggled(shown(true, 9))), Action::Spawn { gain: gain(9) });
    assert_eq!(c.phase, Phase::Starting);
    assert_eq!(c.last_gain, gain(9));
}

#[test]
fn vanished_interface_drains() {
    let mut c = running(5);
    assert_eq!(c.step(Event::Block(None)), Action::Terminate);
    assert_eq!(c.phase, Phase::Draining);
}

#[test]
fn ended_queue_drains() {
    let mut c = running(5);
    assert_eq!(c.step(Event::ChannelClosed), Action::Terminate);
    assert_eq!(c.phase, Phase::Draining);
}

#[test]
fn disabling_while_an_update_is_pending_still_drains() {
    let mut c = running(5);
    c.step(Event::Block(Some(shown(true, 6))));
    assert!(c.awaiting_ack);
    assert_eq!(c.step(Event::Block(Some(shown(false, 6)))), Action::Terminate);
    assert!(!c.awaiting_ack);
    assert_eq!(c.step(Event::Acked), Action::Nothing);
    assert_eq!(c.phase, Phase::Draining);
}

#[test]
fn toggling_while_running_starts_nothing() {
    let mut c = running(5);
    assert_eq!(c.step(Event::Toggled(shown(true, 5))), Action::Nothing);
    assert_eq!(c.step(Event::Toggled(shown(false, 5))), Action::Nothing);
    assert_eq!(c.step(Event::Stopped), Action::Nothing);
    assert_eq!(c.phase, Phase::Running);
}
