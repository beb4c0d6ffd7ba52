//! Block aligner: pads a byte buffer with zero bytes up to the next multiple
//! of the primitive's eight-byte block, always adding at least one byte.

use vstd::prelude::*;

verus! {

/// Number of zero bytes the aligner appends to a buffer of length `len`:
/// always between 1 and 8, bringing the total length to a multiple of 8.
/// A buffer that is already aligned still grows by a full block.
pub open spec fn pad_len(len: nat) -> nat {
    (8 - (len % 8)) as nat
}

/// The aligned form of a byte sequence: the input followed by `pad_len`
/// zero-valued bytes.
pub open spec fn aligned(s: Seq<u8>) -> Seq<u8> {
    s + Seq::new(pad_len(s.len()), |i: int| 0u8)
}

/// Pads a buffer with zero bytes to a multiple of eight bytes, always adding
/// at least one and at most eight bytes, so the result is strictly longer
/// than the input even when the input is already aligned.
pub fn align(x: &Vec<u8>) -> (r: Vec<u8>)
    requires
        x@.len() + 8 <= usize::MAX,
    ensures
        r@ == aligned(x@),
        r@.len() == x@.len() + pad_len(x@.len() as nat),
        r@.len() % 8 == 0,
        r@.len() > x@.len(),
        r@.take(x@.len() as int) == x@,
{
    let mut r = x.clone();
    proof {
        assert(r@ =~= x@);
    }
    let pad: usize = 8 - (x.len() % 8);
    let mut i: usize = 0;
    while i < pad
        invariant
            i <= pad,
            pad == pad_len(x@.len() as nat),
            r@ == x@ + Seq::new(i as nat, |j: int| 0u8),
        decreases pad - i,
    {
        r.push(0);
        proof {
            assert(r@ =~= x@ + Seq::new((i + 1) as nat, |j: int| 0u8));
        }
        i += 1;
    }
    proof {
        assert(r@ =~= aligned(x@));
        assert(r@.take(x@.len() as int) =~= x@);
    }
    r
}

} // verus!
