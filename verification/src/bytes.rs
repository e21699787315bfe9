//! Views of optional byte buffers.

use vstd::prelude::*;

verus! {

/// The bytes of an optional buffer, if there is one.
pub open spec fn opt_bytes(buffer: Option<Vec<u8>>) -> Option<Seq<u8>> {
    match buffer {
        Some(bytes) => Some(bytes@),
        None => None,
    }
}

} // verus!
