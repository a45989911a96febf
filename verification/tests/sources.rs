use sample_bridge::network_feed::{FeedAction, FeedEvent, FeedState, NetworkFeed};
use sample_bridge::replay::{ReplaySource, REPLAY_DELAY_MS};
use sample_bridge::wire::{decode, decode_words, WireMessage, FALLBACK_LEN, RETRY_DELAY_MS};

#[test]
fn binary_message_decodes_to_floats() {
    let payload = vec![
        0x00, 0x00, 0x80, 0x3F, 0x00, 0x00, 0x00, 0x40, 0x00, 0x00, 0x40, 0x40, 0x00, 0x00, 0x80,
        0x40,
    ];
    let block = decode(&WireMessage::Binary(payload));
    let values: Vec<f32> = block.iter().map(|bits| f32::from_bits(*bits)).collect();
    assert_eq!(values, vec![1.0, 2.0, 3.0, 4.0]);
}

#[test]
fn text_message_decodes_to_three_zeros() {
    let block = decode(&WireMessage::Other);
    assert_eq!(block.len(), FALLBACK_LEN);
    let values: Vec<f32> = block.iter().map(|bits| f32::from_bits(*bits)).collect();
    assert_eq!(values, vec![0.0, 0.0, 0.0]);
}

#[test]
fn trailing_bytes_are_left_out() {
    assert_eq!(decode_words(&[1, 2, 3, 4, 5, 6, 7]), vec![0x0403_0201]);
    assert_eq!(decode_words(&[1, 2, 3]), Vec::<u32>::new());
    assert_eq!(decode_words(&[]), Vec::<u32>::new());
    assert_eq!(decode(&WireMessage::Binary(vec![])), Vec::<u32>::new());
}

#[test]
fn words_are_little_endian() {
    assert_eq!(decode_words(&[0xFF, 0xFF, 0xFF, 0xFF]), vec![u32::MAX]);
    assert_eq!(decode_words(&[0x78, 0x56, 0x34, 0x12]), vec![0x1234_5678]);
    let mut state: u32 = 12345;
    for _ in 0..10_000 {
        state = state.wrapping_mul(1_664_525).wrapping_add(1_013_904_223);
        assert_eq!(decode_words(&state.to_le_bytes()), vec![state]);
        let value = f32::from_bits(state);
        assert_eq!(decode_words(&value.to_le_bytes()), vec![value.to_bits()]);
    }
}

#[test]
fn replay_repeats_after_one_pass() {
    let data: Vec<u32> = (0..12).collect();
    let mut source = ReplaySource::new(data, 4);
    let first = source.next_chunk();
    let second = source.next_chunk();
    let third = source.next_chunk();
    assert_eq!(first, Some(vec![0, 1, 2, 3]));
    assert_eq!(second, Some(vec![4, 5, 6, 7]));
    assert_eq!(third, Some(vec![8, 9, 10, 11]));
    assert_eq!(source.next_chunk(), first);
    assert_eq!(source.next_chunk(), second);
    assert_eq!(source.next_chunk(), third);
    assert_eq!(source.next_chunk(), first);
}

#[test]
fn replay_skips_a_short_tail() {
    let data: Vec<u32> = (0..7).collect();
    let mut source = ReplaySource::new(data, 3);
    assert_eq!(source.next_chunk(), Some(vec![0, 1, 2]));
    assert_eq!(source.next_chunk(), Some(vec![3, 4, 5]));
    assert_eq!(source.next_chunk(), Some(vec![0, 1, 2]));
}

#[test]
fn replay_of_too_little_data_delivers_nothing() {
    let mut source = ReplaySource::new(vec![1, 2], 3);
    assert_eq!(source.next_chunk(), None);
    assert_eq!(source.next_chunk(), None);
    let mut empty = ReplaySource::new(vec![], 1);
    assert_eq!(empty.next_chunk(), None);
}

#[test]
fn replay_of_a_single_chunk_repeats_it() {
    let mut source = ReplaySource::new(vec![5, 6], 2);
    for _ in 0..5 {
        assert_eq!(source.next_chunk(), Some(vec![5, 6]));
    }
    assert_eq!(REPLAY_DELAY_MS, 100);
}

#[test]
fn feed_reconnects_after_a_flat_delay() {
    let mut feed = NetworkFeed::new();
    assert_eq!(feed.state, FeedState::Connecting);
    for _ in 0..5 {
        assert_eq!(feed.step(FeedEvent::ConnectFailed), FeedAction::Sleep { millis: 100 });
        assert_eq!(feed.state, FeedState::Waiting);
        assert_eq!(feed.step(FeedEvent::DelayElapsed), FeedAction::Connect);
        assert_eq!(feed.state, FeedState::Connecting);
    }
    assert_eq!(feed.step(FeedEvent::Connected), FeedAction::Read);
    assert_eq!(feed.step(FeedEvent::Message), FeedAction::Deliver);
    assert_eq!(feed.step(FeedEvent::Message), FeedAction::Deliver);
    assert_eq!(feed.state, FeedState::Reading);
    assert_eq!(feed.step(FeedEvent::StreamEnded), FeedAction::Sleep { millis: RETRY_DELAY_MS });
    assert_eq!(feed.step(FeedEvent::DelayElapsed), FeedAction::Connect);
}

#[test]
fn feed_ignores_events_that_do_not_fit() {
    let mut feed = NetworkFeed::new();
    assert_eq!(feed.step(FeedEvent::Message), FeedAction::Nothing);
    assert_eq!(feed.step(FeedEvent::DelayElapsed), FeedAction::Nothing);
    assert_eq!(feed.step(FeedEvent::StreamEnded), FeedAction::Nothing);
    assert_eq!(feed.state, FeedState::Connecting);
    feed.step(FeedEvent::ConnectFailed);
    assert_eq!(feed.step(FeedEvent::Connected), FeedAction::Nothing);
    assert_eq!(feed.state, FeedState::Waiting);
}
