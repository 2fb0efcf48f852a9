//! Plain values that cross the boundary to the C library.

use vstd::prelude::*;
use vstd::string::StringSliceAdditionalSpecFns;

verus! {

/// A run of `len` bytes that starts at the address `ptr`.
#[derive(Debug, Clone, Copy, PartialEq, Eq, Structural)]
pub struct Slice {
    pub ptr: usize,
    pub len: usize,
}

impl Slice {
    /// The run of `len` bytes at `ptr`.
    pub fn new(ptr: usize, len: usize) -> (slice: Slice)
        ensures
            slice == (Slice { ptr, len }),
    {
        Slice { ptr, len }
    }

    /// The address of the first byte.
    pub fn ptr(&self) -> (ptr: usize)
        ensures
            ptr == self.ptr,
    {
        self.ptr
    }

    /// The number of bytes.
    pub fn len(&self) -> (len: usize)
        ensures
            len == self.len,
    {
        self.len
    }
}

/// The bytes of `s` followed by one zero byte, as C reads a string.
pub fn cstr(s: &str) -> (bytes: Vec<u8>)
    ensures
        bytes@ == s.spec_bytes().push(0u8),
{
    let mut cstr = Vec::with_capacity(s.len().saturating_add(1));
    cstr.extend_from_slice(s.as_bytes());
    cstr.push(0);
    assert(cstr@ =~= s.spec_bytes().push(0u8));
    cstr
}

} // verus!
