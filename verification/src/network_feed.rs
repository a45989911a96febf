//! The connection loop of the network feed: connect, read until the
//! stream ends, wait a fixed time, connect again, without end.
//!
//! The caller performs each action and reports its outcome as an event. A
//! message is decoded with [`crate::wire::decode`] when the action says so.

use crate::wire::RETRY_DELAY_MS;
use vstd::prelude::*;

verus! {

/// Where the feed stands.
#[derive(Debug, Clone, Copy, PartialEq, Eq, Structural)]
pub enum FeedState {
    /// A connection attempt is under way.
    Connecting,
    /// The connection stands and the next message is awaited.
    Reading,
    /// The connection is lost and the retry delay runs.
    Waiting,
}

/// What happened.
#[derive(Debug, Clone, Copy, PartialEq, Eq, Structural)]
pub enum FeedEvent {
    /// The connection attempt succeeded.
    Connected,
    /// The connection attempt failed.
    ConnectFailed,
    /// A message arrived, of whatever kind.
    Message,
    /// The stream of messages has ended.
    StreamEnded,
    /// The retry delay has passed.
    DelayElapsed,
}

/// What to do.
#[derive(Debug, Clone, Copy, PartialEq, Eq, Structural)]
pub enum FeedAction {
    /// Nothing: the event does not belong to the current state.
    Nothing,
    /// Try to connect.
    Connect,
    /// Await the next message.
    Read,
    /// Decode the message, hand the block on, and await the next message.
    Deliver,
    /// Wait this many milliseconds.
    Sleep { millis: u64 },
}

/// The transition function.
pub open spec fn feed_next(state: FeedState, event: FeedEvent) -> (FeedState, FeedAction) {
    match (state, event) {
        (FeedState::Connecting, FeedEvent::Connected) => (FeedState::Reading, FeedAction::Read),
        (FeedState::Connecting, FeedEvent::ConnectFailed) => (
            FeedState::Waiting,
            FeedAction::Sleep { millis: RETRY_DELAY_MS },
        ),
        (FeedState::Reading, FeedEvent::Message) => (FeedState::Reading, FeedAction::Deliver),
        (FeedState::Reading, FeedEvent::StreamEnded) => (
            FeedState::Waiting,
            FeedAction::Sleep { millis: RETRY_DELAY_MS },
        ),
        (FeedState::Waiting, FeedEvent::DelayElapsed) => (
            FeedState::Connecting,
            FeedAction::Connect,
        ),
        _ => (state, FeedAction::Nothing),
    }
}

/// The event that reports a lost or refused connection in a given state.
pub open spec fn is_loss(state: FeedState, event: FeedEvent) -> bool {
    (state is Connecting && event is ConnectFailed) || (state is Reading && event is StreamEnded)
}

/// Every loss is answered by the same flat delay, and every elapsed delay
/// by a new attempt: the feed never gives up and never waits longer.
pub proof fn lemma_flat_retry(state: FeedState, event: FeedEvent)
    ensures
        is_loss(state, event) ==> feed_next(state, event) == (
            FeedState::Waiting,
            FeedAction::Sleep { millis: RETRY_DELAY_MS },
        ),
        feed_next(FeedState::Waiting, FeedEvent::DelayElapsed) == (
            FeedState::Connecting,
            FeedAction::Connect,
        ),
        feed_next(state, event).1 matches FeedAction::Sleep { millis } ==> millis
            == RETRY_DELAY_MS && is_loss(state, event),
{
}

/// The network feed's connection loop.
#[derive(Debug, Clone, Copy, PartialEq, Eq, Structural)]
pub struct NetworkFeed {
    /// The current state.
    pub state: FeedState,
}

impl NetworkFeed {
    /// A feed whose first connection attempt is about to be made.
    pub fn new() -> (feed: NetworkFeed)
        ensures
            feed.state is Connecting,
    {
        NetworkFeed { state: FeedState::Connecting }
    }

    /// Takes one event, moves to the next state and says what to do.
    pub fn step(&mut self, event: FeedEvent) -> (action: FeedAction)
        ensures
            (final(self).state, action) == feed_next(old(self).state, event),
    {
        match (self.state, event) {
            (FeedState::Connecting, FeedEvent::Connected) => {
                self.state = FeedState::Reading;
                FeedAction::Read
            },
            (FeedState::Connecting, FeedEvent::ConnectFailed) => {
                self.state = FeedState::Waiting;
                FeedAction::Sleep { millis: RETRY_DELAY_MS }
            },
            (FeedState::Reading, FeedEvent::Message) => FeedAction::Deliver,
            (FeedState::Reading, FeedEvent::StreamEnded) => {
                self.state = FeedState::Waiting;
                FeedAction::Sleep { millis: RETRY_DELAY_MS }
            },
            (FeedState::Waiting, FeedEvent::DelayElapsed) => {
                self.state = FeedState::Connecting;
                FeedAction::Connect
            },
            _ => FeedAction::Nothing,
        }
    }
}

} // verus!
