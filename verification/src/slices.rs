//! Copying out of slices.

use vstd::prelude::*;

verus! {

/// A fresh vector that holds `len` items of `data`, from index `start` on.
pub(crate) fn copy_range(data: &[u32], start: usize, len: usize) -> (copy: Vec<u32>)
    requires
        start + len <= data@.len(),
    ensures
        copy@ == data@.subrange(start as int, start + len),
{
    let total: usize = data.len();
    let mut copy: Vec<u32> = Vec::new();
    let mut j: usize = 0;
    while j < len
        invariant
            j <= len,
            start + len <= data@.len(),
            total == data@.len(),
            copy@.len() == j,
            forall|k: int| 0 <= k < j ==> copy@[k] == data@[start + k],
        decreases len - j,
    {
        copy.push(data[start + j]);
        j = j + 1;
    }
    assert(copy@ =~= data@.subrange(start as int, start + len));
    copy
}

} // verus!
