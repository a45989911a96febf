//! The producer side of the hand-off: coalesce the backlog, offer the
//! freshest block, never wait.

use crate::channel::{offer, DeliveryChannel};
use crate::slices::copy_range;
use vstd::prelude::*;

verus! {

/// The number of complete blocks of `block_len` samples in `len` samples.
pub open spec fn complete_blocks(len: nat, block_len: nat) -> nat
    recommends
        block_len > 0,
{
    len / block_len
}

/// The most recently completed block of `input`, if it holds one at all.
pub open spec fn latest_block(input: Seq<u32>, block_len: nat) -> Option<Seq<u32>>
    recommends
        block_len > 0,
{
    let n = complete_blocks(input.len(), block_len);
    if n > 0 {
        Some(input.subrange((n - 1) * block_len, (n * block_len) as int))
    } else {
        None
    }
}

/// The queue after the sink has worked through `input`: the most recent
/// complete block is offered, older ones are never offered.
pub open spec fn after_work(
    queue: Seq<Seq<u32>>,
    capacity: nat,
    input: Seq<u32>,
    block_len: nat,
) -> Seq<Seq<u32>>
    recommends
        block_len > 0,
{
    match latest_block(input, block_len) {
        Some(block) => offer(queue, capacity, block),
        None => queue,
    }
}

/// The queue after the sink has worked through each of `rounds` in turn,
/// with nothing taken out in between.
pub open spec fn after_rounds(
    queue: Seq<Seq<u32>>,
    capacity: nat,
    rounds: Seq<Seq<u32>>,
    block_len: nat,
) -> Seq<Seq<u32>>
    recommends
        block_len > 0,
    decreases rounds.len(),
{
    if rounds.len() == 0 {
        queue
    } else {
        after_work(
            after_rounds(queue, capacity, rounds.drop_last(), block_len),
            capacity,
            rounds.last(),
            block_len,
        )
    }
}

/// However many rounds the producer runs while the consumer takes nothing,
/// the queue never holds more than its capacity, and what was waiting
/// before stays where it was, in its order.
pub proof fn lemma_occupancy_bounded(
    queue: Seq<Seq<u32>>,
    capacity: nat,
    rounds: Seq<Seq<u32>>,
    block_len: nat,
)
    requires
        block_len > 0,
        queue.len() <= capacity,
    ensures
        after_rounds(queue, capacity, rounds, block_len).len() <= capacity,
        queue.len() <= after_rounds(queue, capacity, rounds, block_len).len(),
        after_rounds(queue, capacity, rounds, block_len).take(queue.len() as int) == queue,
    decreases rounds.len(),
{
    if rounds.len() > 0 {
        lemma_occupancy_bounded(queue, capacity, rounds.drop_last(), block_len);
        let before = after_rounds(queue, capacity, rounds.drop_last(), block_len);
        let after = after_rounds(queue, capacity, rounds, block_len);
        assert(after.take(queue.len() as int) =~= before.take(queue.len() as int));
    } else {
        assert(queue.take(queue.len() as int) =~= queue);
    }
}

/// A consumer that has caught up, so that the queue is empty, next sees the
/// block that was completed last in the following round: none of the older
/// blocks of that round is ever queued.
pub proof fn lemma_caught_up_sees_latest(capacity: nat, input: Seq<u32>, block_len: nat)
    requires
        block_len > 0,
        capacity > 0,
        input.len() >= block_len,
    ensures
        complete_blocks(input.len(), block_len) > 0,
        after_work(Seq::empty(), capacity, input, block_len) == seq![
            input.subrange(
                (complete_blocks(input.len(), block_len) - 1) * block_len,
                (complete_blocks(input.len(), block_len) * block_len) as int,
            ),
        ],
{
    let n = complete_blocks(input.len(), block_len);
    assert(n > 0) by (nonlinear_arith)
        requires
            n == input.len() / block_len,
            block_len > 0,
            input.len() >= block_len,
    ;
    let block = input.subrange((n - 1) * block_len, (n * block_len) as int);
    assert(after_work(Seq::empty(), capacity, input, block_len) =~= seq![block]);
}

/// What one round of work did.
#[derive(Debug, Clone, Copy, PartialEq, Eq)]
pub struct SinkStep {
    /// Samples taken off the input: every complete block, offered or not.
    pub consumed: usize,
    /// Whether a block was offered to the queue.
    pub offered: bool,
    /// Whether the queue took the offered block.
    pub accepted: bool,
    /// Whether the sink is done: its input has ended.
    pub finished: bool,
}

/// Sends the freshest complete block of its input into the delivery queue.
pub struct ChannelSink {
    block_len: usize,
}

impl ChannelSink {
    #[verifier::type_invariant]
    spec fn positive(&self) -> bool {
        self.block_len > 0
    }

    /// The fixed block length.
    pub closed spec fn block_len(&self) -> nat {
        self.block_len as nat
    }

    /// A sink that cuts its input into blocks of `block_len` samples.
    pub fn new(block_len: usize) -> (sink: ChannelSink)
        requires
            block_len > 0,
        ensures
            sink.block_len() == block_len,
    {
        ChannelSink { block_len }
    }

    /// One round of work on the samples that have accumulated in `input`.
    ///
    /// All complete blocks are consumed. Only the last of them is offered to
    /// `channel`; a full queue drops it. An incomplete tail stays in the
    /// input.
    pub fn work(&self, input: &[u32], input_finished: bool, channel: &mut DeliveryChannel) -> (step:
        SinkStep)
        ensures
            self.block_len() > 0,
            step.finished == input_finished,
            step.consumed == complete_blocks(input@.len(), self.block_len()) * self.block_len(),
            step.offered == latest_block(input@, self.block_len()) is Some,
            step.accepted == (step.offered && old(channel)@.len() < old(channel).capacity()),
            final(channel).capacity() == old(channel).capacity(),
            final(channel)@.len() <= final(channel).capacity(),
            final(channel)@ == after_work(
                old(channel)@,
                old(channel).capacity(),
                input@,
                self.block_len(),
            ),
    {
        proof {
            use_type_invariant(self);
        }
        let size: usize = self.block_len;
        let n: usize = input.len() / size;
        if n == 0 {
            proof {
                use_type_invariant(&*channel);
            }
            return SinkStep { consumed: 0, offered: false, accepted: false, finished: input_finished };
        }
        assert(n * size <= input@.len() && (n - 1) * size + size == n * size) by (nonlinear_arith)
            requires
                n == input@.len() / (size as nat),
                size > 0,
                n > 0,
        ;
        let start: usize = (n - 1) * size;
        let block = copy_range(input, start, size);
        let accepted = channel.try_send(block);
        SinkStep { consumed: n * size, offered: true, accepted, finished: input_finished }
    }
}

} // verus!
