//! Byte-range copying shared by the extractor and the tracing decisions.

use vstd::prelude::*;

verus! {

/// The bytes of `src` in the half-open range `[start, end)`.
pub fn copy_range(src: &Vec<u8>, start: usize, end: usize) -> (out: Vec<u8>)
    requires
        start <= end,
        end <= src@.len(),
    ensures
        out@ == src@.subrange(start as int, end as int),
{
    let mut out: Vec<u8> = Vec::new();
    let mut i: usize = start;
    while i < end
        invariant
            start <= i <= end,
            end <= src@.len(),
            out@ == src@.subrange(start as int, i as int),
        decreases end - i,
    {
        out.push(src[i]);
        proof {
            assert(out@ =~= src@.subrange(start as int, i + 1 as int));
        }
        i += 1;
    }
    out
}

} // verus!
