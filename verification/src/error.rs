use vstd::prelude::*;

verus! {

/// Why an operation on an image failed.
#[derive(Clone, Copy, Debug, PartialEq, Eq, Structural)]
pub enum Error {
    /// A zero pointer or RVA was dereferenced.
    Null,
    /// An address, offset or read lies outside the mapped image.
    Bounds,
    /// A typed read would not be aligned for its type.
    Misalign,
    /// A header signature is wrong.
    BadMagic,
    /// The address is valid in virtual space but has no bytes in a file view.
    Unmapped,
    /// The read reaches past the bytes a section has on disk into its zero-filled tail.
    ZeroFill,
    /// The contents of a directory are structurally malformed.
    Invalid,
    /// An address computation overflowed.
    Overflow,
}

} // verus!
