//! Cyclic replay of a recorded dataset in fixed-size chunks.

use crate::slices::copy_range;
use vstd::prelude::*;

verus! {

/// Pause, in milliseconds, between two replayed chunks.
pub const REPLAY_DELAY_MS: u64 = 100;

/// The number of whole chunks in a dataset; a shorter tail is never replayed.
pub open spec fn chunk_count(len: nat, chunk_len: nat) -> nat
    recommends
        chunk_len > 0,
{
    len / chunk_len
}

/// The chunk delivered at step `step` of an endless replay that started at
/// the first chunk.
pub open spec fn replayed_chunk(data: Seq<u32>, chunk_len: nat, step: nat) -> Seq<u32>
    recommends
        chunk_len > 0,
        chunk_count(data.len(), chunk_len) > 0,
{
    let at = step % chunk_count(data.len(), chunk_len);
    data.subrange((at * chunk_len) as int, ((at + 1) * chunk_len) as int)
}

/// The position reached from `position` after `steps` more chunks, in a
/// cycle of `count` chunks.
pub open spec fn advanced(position: nat, steps: nat, count: nat) -> nat
    recommends
        count > 0,
{
    (position + steps) % count
}

/// After exactly as many chunks as the dataset holds, the replay stands
/// where it stood, and delivers again what it delivered then.
pub proof fn lemma_replay_is_cyclic(data: Seq<u32>, chunk_len: nat, step: nat)
    requires
        chunk_len > 0,
        chunk_count(data.len(), chunk_len) > 0,
    ensures
        replayed_chunk(data, chunk_len, step + chunk_count(data.len(), chunk_len))
            == replayed_chunk(data, chunk_len, step),
        step < chunk_count(data.len(), chunk_len) ==> advanced(
            step,
            chunk_count(data.len(), chunk_len),
            chunk_count(data.len(), chunk_len),
        ) == step,
{
    let k = chunk_count(data.len(), chunk_len);
    vstd::arithmetic::div_mod::lemma_mod_add_multiples_vanish(step as int, k as int);
    if step < k {
        vstd::arithmetic::div_mod::lemma_small_mod(step, k);
    }
}

/// An endless source that walks a dataset chunk by chunk and starts over at
/// its end.
pub struct ReplaySource {
    data: Vec<u32>,
    chunk_len: usize,
    next: usize,
}

impl ReplaySource {
    #[verifier::type_invariant]
    spec fn well_formed(&self) -> bool {
        &&& self.chunk_len > 0
        &&& self.next <= self.data@.len() / (self.chunk_len as nat)
        &&& (self.next == self.data@.len() / (self.chunk_len as nat) ==> self.next == 0)
    }

    /// The dataset.
    pub closed spec fn data(&self) -> Seq<u32> {
        self.data@
    }

    /// The chunk length.
    pub closed spec fn chunk_len(&self) -> nat {
        self.chunk_len as nat
    }

    /// The index, within one pass, of the chunk that comes next.
    pub closed spec fn position(&self) -> nat {
        self.next as nat
    }

    /// The number of chunks in one pass.
    pub open spec fn count(&self) -> nat {
        chunk_count(self.data().len(), self.chunk_len())
    }

    /// A source at the first chunk of `data`.
    pub fn new(data: Vec<u32>, chunk_len: usize) -> (source: ReplaySource)
        requires
            chunk_len > 0,
        ensures
            source.data() == data@,
            source.chunk_len() == chunk_len,
            source.position() == 0,
    {
        ReplaySource { data, chunk_len, next: 0 }
    }

    /// Delivers the next chunk and moves on, wrapping to the first chunk
    /// after the last. A dataset that holds no whole chunk delivers nothing.
    pub fn next_chunk(&mut self) -> (chunk: Option<Vec<u32>>)
        ensures
            final(self).data() == old(self).data(),
            final(self).chunk_len() == old(self).chunk_len(),
            old(self).chunk_len() > 0,
            old(self).count() == 0 ==> chunk is None && final(self).position() == old(
                self,
            ).position(),
            old(self).count() > 0 ==> {
                &&& old(self).position() < old(self).count()
                &&& chunk is Some
                &&& chunk->0@ == replayed_chunk(
                    old(self).data(),
                    old(self).chunk_len(),
                    old(self).position(),
                )
                &&& final(self).position() == advanced(old(self).position(), 1, old(self).count())
            },
    {
        proof {
            use_type_invariant(&*self);
        }
        let size: usize = self.chunk_len;
        let count: usize = self.data.len() / size;
        if count == 0 {
            return None;
        }
        let at: usize = self.next;
        assert(at * size + size <= self.data@.len() && (at + 1) * size == at * size + size) by (
            nonlinear_arith)
            requires
                at < count,
                count == self.data@.len() / (size as nat),
                size > 0,
        ;
        let start: usize = at * size;
        let chunk = copy_range(self.data.as_slice(), start, size);
        assert(at % count == at) by (nonlinear_arith)
            requires
                at < count,
        ;
        assert(chunk@ =~= replayed_chunk(self.data@, size as nat, at as nat));
        let following: usize = if at + 1 == count {
            0
        } else {
            at + 1
        };
        assert((at + 1) % (count as int) == following) by (nonlinear_arith)
            requires
                at < count,
                following == if at + 1 == count {
                    0
                } else {
                    at + 1
                },
        ;
        self.next = following;
        Some(chunk)
    }
}

} // verus!
