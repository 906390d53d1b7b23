//! The frame finalizer: retroactively frames an already-built buffer with
//! its own total length, so a consumer can learn the full frame size
//! before parsing begins.

use crate::le::{le_bytes, lemma_pow256_values};
use crate::scalar::push_le;
use vstd::prelude::*;

verus! {

/// Prepends the eight-byte little-endian encoding of the buffer's current
/// length to the buffer, shifting all existing bytes back.
pub fn finalize_serialization(buffer: &mut Vec<u8>)
    ensures
        final(buffer)@ == le_bytes(old(buffer)@.len(), 8) + old(buffer)@,
{
    proof {
        lemma_pow256_values();
    }
    let mut framed: Vec<u8> = Vec::new();
    push_le(&mut framed, buffer.len() as u128, 8);
    framed.append(buffer);
    *buffer = framed;
    proof {
        assert(Seq::<u8>::empty() + le_bytes(old(buffer)@.len(), 8) =~= le_bytes(
            old(buffer)@.len(),
            8,
        ));
    }
}

} // verus!
