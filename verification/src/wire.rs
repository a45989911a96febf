//! Decoding of inbound network messages into sample blocks.

use vstd::prelude::*;

verus! {

/// Length of the block substituted for a message that carries no binary payload.
pub const FALLBACK_LEN: usize = 3;

/// Delay, in milliseconds, before a lost connection is tried again.
pub const RETRY_DELAY_MS: u64 = 100;

/// One inbound message of the network feed.
#[derive(Debug)]
pub enum WireMessage {
    /// A binary payload: concatenated little-endian 32-bit words.
    Binary(Vec<u8>),
    /// Anything else: text, control frames, transport errors.
    Other,
}

/// The 32-bit word whose little-endian bytes are `b0 b1 b2 b3`.
pub open spec fn le_word(b0: u8, b1: u8, b2: u8, b3: u8) -> u32 {
    (b0 as int + 256 * (b1 as int) + 65536 * (b2 as int) + 16777216 * (b3 as int)) as u32
}

/// The words held by the complete 4-byte groups of `data`; trailing bytes
/// that do not fill a group are left out.
pub open spec fn words_of(data: Seq<u8>) -> Seq<u32> {
    Seq::new(
        (data.len() / 4) as nat,
        |i: int| le_word(data[4 * i], data[4 * i + 1], data[4 * i + 2], data[4 * i + 3]),
    )
}

/// The block that stands in for an undecodable message: three zeros.
pub open spec fn fallback_block() -> Seq<u32> {
    seq![0u32, 0u32, 0u32]
}

/// The block that a message decodes to.
pub open spec fn decoded(msg: WireMessage) -> Seq<u32> {
    match msg {
        WireMessage::Binary(data) => words_of(data@),
        WireMessage::Other => fallback_block(),
    }
}

/// Reads every complete little-endian 32-bit word out of `data`.
pub fn decode_words(data: &[u8]) -> (block: Vec<u32>)
    ensures
        block@ == words_of(data@),
{
    let n: usize = data.len() / 4;
    let mut block: Vec<u32> = Vec::new();
    let mut i: usize = 0;
    while i < n
        invariant
            n == data@.len() / 4,
            data@.len() <= usize::MAX,
            i <= n,
            block@.len() == i,
            forall|j: int| 0 <= j < i ==> block@[j] == #[trigger] words_of(data@)[j],
        decreases n - i,
    {
        assert(4 * i + 3 < data@.len());
        let b0: u32 = data[4 * i] as u32;
        let b1: u32 = data[4 * i + 1] as u32;
        let b2: u32 = data[4 * i + 2] as u32;
        let b3: u32 = data[4 * i + 3] as u32;
        block.push(b0 + 256 * b1 + 65536 * b2 + 16777216 * b3);
        i = i + 1;
    }
    assert(block@ =~= words_of(data@));
    block
}

/// Decodes one inbound message: a binary payload yields its words, anything
/// else yields the three-zero fallback block.
pub fn decode(msg: &WireMessage) -> (block: Vec<u32>)
    ensures
        block@ == decoded(*msg),
{
    match msg {
        WireMessage::Binary(data) => decode_words(data.as_slice()),
        WireMessage::Other => {
            let mut block: Vec<u32> = Vec::new();
            block.push(0);
            block.push(0);
            block.push(0);
            assert(block@ =~= fallback_block());
            block
        },
    }
}

} // verus!
