//! The least and the greatest sample of a block, and the vertical range
//! that a plot of it shows.

use crate::float32::{is_nan, is_negative, magnitude};
use crate::integral::{ceil, floor, from_i32, is_ceil_of, is_floor_of, is_nearest_to};
use vstd::prelude::*;

verus! {

/// A number that orders bit patterns as their values are ordered. Zeros of
/// either sign share a key.
pub open spec fn order_key(bits: u32) -> int {
    if is_negative(bits) {
        -(magnitude(bits) as int)
    } else {
        magnitude(bits) as int
    }
}

/// The binary32 minimum of an accumulated value and a new one: a NaN gives
/// way to the other; of two numbers the smaller is taken, and the
/// accumulated one where they are equal.
pub open spec fn lesser(acc: u32, x: u32) -> u32 {
    if is_nan(acc) {
        x
    } else if is_nan(x) {
        acc
    } else if order_key(x) < order_key(acc) {
        x
    } else {
        acc
    }
}

/// The binary32 maximum of an accumulated value and a new one.
pub open spec fn greater(acc: u32, x: u32) -> u32 {
    if is_nan(acc) {
        x
    } else if is_nan(x) {
        acc
    } else if order_key(x) > order_key(acc) {
        x
    } else {
        acc
    }
}

/// The least sample of a block, the first sample being folded with each
/// later one in turn.
pub open spec fn lowest_of(data: Seq<u32>) -> u32
    recommends
        data.len() > 0,
    decreases data.len(),
{
    if data.len() <= 1 {
        data[0]
    } else {
        lesser(lowest_of(data.drop_last()), data.last())
    }
}

/// The greatest sample of a block.
pub open spec fn highest_of(data: Seq<u32>) -> u32
    recommends
        data.len() > 0,
    decreases data.len(),
{
    if data.len() <= 1 {
        data[0]
    } else {
        greater(highest_of(data.drop_last()), data.last())
    }
}

/// The least sample is one of the samples, it is a number as soon as one
/// of them is, and no sample that is a number lies below it.
pub proof fn lemma_lowest_is_least(data: Seq<u32>)
    requires
        data.len() > 0,
    ensures
        exists|i: int| 0 <= i < data.len() && data[i] == lowest_of(data),
        forall|j: int|
            0 <= j < data.len() && !is_nan(#[trigger] data[j]) ==> !is_nan(lowest_of(data))
                && order_key(lowest_of(data)) <= order_key(data[j]),
    decreases data.len(),
{
    if data.len() <= 1 {
        assert(data[0] == lowest_of(data));
    } else {
        let front = data.drop_last();
        lemma_lowest_is_least(front);
        let i = choose|i: int| 0 <= i < front.len() && front[i] == lowest_of(front);
        assert(data[i] == front[i]);
        assert(data[data.len() - 1] == data.last());
        assert forall|j: int| 0 <= j < data.len() && !is_nan(#[trigger] data[j]) implies !is_nan(
            lowest_of(data),
        ) && order_key(lowest_of(data)) <= order_key(data[j]) by {
            if j < front.len() {
                assert(front[j] == data[j]);
            }
        }
    }
}

/// The greatest sample is one of the samples, it is a number as soon as
/// one of them is, and no sample that is a number lies above it.
pub proof fn lemma_highest_is_greatest(data: Seq<u32>)
    requires
        data.len() > 0,
    ensures
        exists|i: int| 0 <= i < data.len() && data[i] == highest_of(data),
        forall|j: int|
            0 <= j < data.len() && !is_nan(#[trigger] data[j]) ==> !is_nan(highest_of(data))
                && order_key(highest_of(data)) >= order_key(data[j]),
    decreases data.len(),
{
    if data.len() <= 1 {
        assert(data[0] == highest_of(data));
    } else {
        let front = data.drop_last();
        lemma_highest_is_greatest(front);
        let i = choose|i: int| 0 <= i < front.len() && front[i] == highest_of(front);
        assert(data[i] == front[i]);
        assert(data[data.len() - 1] == data.last());
        assert forall|j: int| 0 <= j < data.len() && !is_nan(#[trigger] data[j]) implies !is_nan(
            highest_of(data),
        ) && order_key(highest_of(data)) >= order_key(data[j]) by {
            if j < front.len() {
                assert(front[j] == data[j]);
            }
        }
    }
}

/// Whether a pattern is a NaN.
fn nan(bits: u32) -> (yes: bool)
    ensures
        yes == is_nan(bits),
{
    bits % 0x8000_0000 > 0x7F80_0000
}

/// The ordering key of a pattern.
fn key(bits: u32) -> (k: i64)
    ensures
        k == order_key(bits),
{
    if bits >= 0x8000_0000 {
        -((bits - 0x8000_0000) as i64)
    } else {
        bits as i64
    }
}

/// The least and the greatest sample of a block that is not empty.
pub fn bounds(data: &[u32]) -> (ends: (u32, u32))
    requires
        data@.len() > 0,
    ensures
        ends.0 == lowest_of(data@),
        ends.1 == highest_of(data@),
{
    let mut low: u32 = data[0];
    let mut high: u32 = data[0];
    let mut i: usize = 1;
    assert(data@.take(1).len() == 1 && data@.take(1)[0] == data@[0]);
    while i < data.len()
        invariant
            1 <= i <= data@.len(),
            low == lowest_of(data@.take(i as int)),
            high == highest_of(data@.take(i as int)),
        decreases data@.len() - i,
    {
        let x: u32 = data[i];
        proof {
            let upto = data@.take(i + 1);
            assert(upto.drop_last() =~= data@.take(i as int));
            assert(upto.last() == x);
        }
        if nan(low) || (!nan(x) && key(x) < key(low)) {
            low = x;
        }
        if nan(high) || (!nan(x) && key(x) > key(high)) {
            high = x;
        }
        i = i + 1;
    }
    assert(data@.take(i as int) =~= data@);
    (low, high)
}

/// How the vertical axis is set.
#[derive(Debug, Clone, Copy, PartialEq, Eq, Structural)]
pub struct AxisSetting {
    /// Whether the axis follows the data.
    pub auto: bool,
    /// The lower end chosen by hand.
    pub manual_min: i32,
    /// The upper end chosen by hand.
    pub manual_max: i32,
}

/// `extent` holds the ends of an axis that follows the data: the least
/// sample lifted to a whole number, and the greatest cut to one.
pub open spec fn is_extent_of(extent: (u32, u32), data: Seq<u32>) -> bool {
    is_ceil_of(extent.0, lowest_of(data)) && is_floor_of(extent.1, highest_of(data))
}

/// `range` is what the vertical axis shows: the extent of the data where
/// the axis follows the data, the ends chosen by hand where it does not.
pub open spec fn is_range_of(range: (u32, u32), extent: (u32, u32), axis: AxisSetting) -> bool {
    if axis.auto {
        range == extent
    } else {
        is_nearest_to(range.0, axis.manual_min as int) && is_nearest_to(
            range.1,
            axis.manual_max as int,
        )
    }
}

/// The ends of an axis that follows the data of a block that is not empty.
pub fn extent(data: &[u32]) -> (extent: (u32, u32))
    requires
        data@.len() > 0,
    ensures
        is_extent_of(extent, data@),
{
    let (low, high) = bounds(data);
    (ceil(low), floor(high))
}

/// The range that the vertical axis shows.
pub fn y_range(extent: (u32, u32), axis: AxisSetting) -> (range: (u32, u32))
    ensures
        is_range_of(range, extent, axis),
{
    if axis.auto {
        extent
    } else {
        (from_i32(axis.manual_min), from_i32(axis.manual_max))
    }
}

} // verus!
