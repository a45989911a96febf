//! The bounded, lossy hand-off queue between the producer and the renderer.
//!
//! The queue is `futures::channel::mpsc`. Both of its ends are held together
//! in one [`DeliveryChannel`], so that what is queued is a function of that
//! one value and every insertion and removal goes through it.

use futures::channel::mpsc::{Receiver, Sender};
use vstd::prelude::*;

verus! {

/// Buffer size the hand-off queue is opened with by default.
pub const DEFAULT_BUFFER: usize = 10;

/// `futures::channel::mpsc::Sender`, opaque to the verifier.
#[verifier::external_type_specification]
#[verifier::external_body]
#[verifier::reject_recursive_types(T)]
pub struct ExSender<T>(Sender<T>);

/// `futures::channel::mpsc::Receiver`, opaque to the verifier.
#[verifier::external_type_specification]
#[verifier::external_body]
#[verifier::reject_recursive_types(T)]
pub struct ExReceiver<T>(Receiver<T>);

/// The blocks waiting in the queue that `rx` reads from, oldest first.
pub uninterp spec fn queued(rx: Receiver<Vec<u32>>) -> Seq<Seq<u32>>;

/// The number of blocks the queue that `rx` reads from can hold: the buffer
/// size it was opened with, plus the one slot that its single sender owns.
pub uninterp spec fn slots(rx: Receiver<Vec<u32>>) -> nat;

/// The queue after `block` is offered to it: appended where there is room,
/// dropped where there is none.
pub open spec fn offer(queue: Seq<Seq<u32>>, capacity: nat, block: Seq<u32>) -> Seq<Seq<u32>> {
    if queue.len() < capacity {
        queue.push(block)
    } else {
        queue
    }
}

/// Both ends of one bounded queue of sample blocks.
pub struct DeliveryChannel {
    tx: Sender<Vec<u32>>,
    rx: Receiver<Vec<u32>>,
}

/// Calls `futures::channel::mpsc::channel`. The source asserts that the
/// buffer is below a quarter of the address range; it then returns the two
/// ends of an empty queue whose capacity is the buffer plus one slot for
/// each sender, of which there is one.
#[verifier::external_body]
fn open_queue(buffer: usize) -> (ends: (Sender<Vec<u32>>, Receiver<Vec<u32>>))
    requires
        buffer < usize::MAX / 4,
    ensures
        queued(ends.1) == Seq::<Seq<u32>>::empty(),
        slots(ends.1) == buffer + 1,
{
    futures::channel::mpsc::channel(buffer)
}

/// Calls `Sender::try_send` on the sending end. With both ends alive and a
/// single sender, the source accepts the message unless the sender is
/// parked, and it parks the sender exactly when the message it has just
/// queued brings the count above the buffer size; the receiver unparks it
/// with the next message it takes. So the message is appended when fewer
/// than buffer + 1 are waiting, and is otherwise dropped with the queue
/// untouched.
#[verifier::external_body]
fn queue_try_send(ch: &mut DeliveryChannel, block: Vec<u32>) -> (accepted: bool)
    ensures
        slots(final(ch).rx) == slots(old(ch).rx),
        accepted == (queued(old(ch).rx).len() < slots(old(ch).rx)),
        accepted ==> queued(final(ch).rx) == queued(old(ch).rx).push(block@),
        !accepted ==> queued(final(ch).rx) == queued(old(ch).rx),
{
    ch.tx.try_send(block).is_ok()
}

/// Calls `Receiver::try_recv` on the receiving end. The source pops the
/// oldest waiting message if there is one, and reports an error, which
/// becomes `None` here, when none is waiting.
#[verifier::external_body]
fn queue_try_recv(ch: &mut DeliveryChannel) -> (block: Option<Vec<u32>>)
    ensures
        slots(final(ch).rx) == slots(old(ch).rx),
        queued(old(ch).rx).len() == 0 ==> block is None && queued(final(ch).rx) == queued(
            old(ch).rx,
        ),
        queued(old(ch).rx).len() > 0 ==> block is Some && block->0@ == queued(old(ch).rx)[0]
            && queued(final(ch).rx) == queued(old(ch).rx).skip(1),
{
    ch.rx.try_recv().ok()
}

impl DeliveryChannel {
    /// The blocks waiting in the queue, oldest first.
    pub closed spec fn view(&self) -> Seq<Seq<u32>> {
        queued(self.rx)
    }

    /// The largest number of blocks that can wait in the queue.
    pub closed spec fn capacity(&self) -> nat {
        slots(self.rx)
    }

    /// The queue never holds more blocks than its capacity.
    #[verifier::type_invariant]
    pub open spec fn bounded(&self) -> bool {
        self@.len() <= self.capacity()
    }

    /// Opens an empty queue that holds up to `buffer + 1` blocks.
    pub fn new(buffer: usize) -> (ch: DeliveryChannel)
        requires
            buffer < usize::MAX / 4,
        ensures
            ch@ == Seq::<Seq<u32>>::empty(),
            ch.capacity() == buffer + 1,
    {
        let (tx, rx) = open_queue(buffer);
        DeliveryChannel { tx, rx }
    }

    /// Offers a block without waiting. A queue with room takes it at the
    /// back; a full queue drops it and stays as it was.
    pub fn try_send(&mut self, block: Vec<u32>) -> (accepted: bool)
        ensures
            final(self).capacity() == old(self).capacity(),
            old(self)@.len() <= old(self).capacity(),
            final(self)@.len() <= final(self).capacity(),
            accepted == (old(self)@.len() < old(self).capacity()),
            final(self)@ == offer(old(self)@, old(self).capacity(), block@),
    {
        proof {
            use_type_invariant(&*self);
        }
        queue_try_send(self, block)
    }

    /// Takes the oldest waiting block, if any.
    pub fn try_recv(&mut self) -> (block: Option<Vec<u32>>)
        ensures
            final(self).capacity() == old(self).capacity(),
            final(self)@.len() <= final(self).capacity(),
            old(self)@.len() == 0 ==> block is None && final(self)@ == old(self)@,
            old(self)@.len() > 0 ==> block is Some && block->0@ == old(self)@[0] && final(self)@
                == old(self)@.skip(1),
    {
        proof {
            use_type_invariant(&*self);
        }
        queue_try_recv(self)
    }
}

} // verus!
