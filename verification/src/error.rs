//! Why an allocation request can fail.

use vstd::prelude::*;

verus! {

/// The failures an arena hands to its caller.
#[derive(Debug, Clone, Copy, PartialEq, Eq, Structural)]
pub enum ArenaError {
    /// The memory source refused a chunk-sized block.
    OutOfMemory,
    /// The request is larger than a whole chunk.
    TooLarge,
    /// The request asks for no bytes.
    ZeroSized,
    /// Size and alignment do not form a layout the platform accepts.
    InvalidLayout,
}

} // verus!
