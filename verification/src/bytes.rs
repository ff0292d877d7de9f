//! Copying into a part of a byte buffer.

use vstd::prelude::*;

verus! {

/// `region` with `bytes` in place of what was there from `offset` on.
pub open spec fn overwritten(region: Seq<u8>, offset: int, bytes: Seq<u8>) -> Seq<u8> {
    region.take(offset) + bytes + region.skip(offset + bytes.len())
}

/// Copies `bytes` over the bytes of `region` from `offset` on.
pub(crate) fn overwrite(region: &mut [u8], offset: usize, bytes: &[u8])
    requires
        offset + bytes@.len() <= old(region)@.len(),
    ensures
        final(region)@ == overwritten(old(region)@, offset as int, bytes@),
{
    let ghost before = region@;
    let end: usize = region.len();
    let count: usize = bytes.len();
    let mut done: usize = 0;
    while done < count
        invariant
            done <= count == bytes@.len(),
            offset + count <= end == region@.len() == before.len(),
            region@ == overwritten(before, offset as int, bytes@.take(done as int)),
        decreases count - done,
    {
        region[offset + done] = bytes[done];
        done += 1;
    }
}

} // verus!
