//! Error taxonomy of the container editor. Every fallible operation of the
//! crate reports which structural rule an input broke; the contracts of the
//! operations state, input by input, which variant is returned.

use vstd::prelude::*;

verus! {

/// The layout rule that a document broke, carried by
/// [`GGUFError::CorruptLayout`].
#[derive(Clone, Copy, PartialEq, Eq, Structural, Debug)]
pub enum LayoutFault {
    /// The header's metadata entry count differs from the table's size.
    MetadataCount,
    /// The header's tensor count differs from the descriptor table's size.
    TensorCount,
    /// Two metadata entries share a key.
    DuplicateKey,
    /// Tensor data offsets are not non-decreasing in file order.
    OffsetOrder,
    /// A tensor data offset is not a multiple of the alignment constant.
    OffsetAlignment,
    /// The computed extent of the last tensor overflows or runs past the end
    /// of the tensor-data segment.
    Extent,
    /// Shifting tensor offsets by the metadata size delta would move an
    /// offset below zero or above the 64-bit range.
    OffsetRange,
}

/// Everything that can go wrong while decoding, validating, updating or
/// re-encoding a container file.
#[derive(PartialEq, Eq, Debug)]
pub enum GGUFError {
    /// The first four bytes of the file are not the magic literal.
    InvalidMagic,
    /// The header's version field holds the given unsupported value.
    UnsupportedVersion(u32),
    /// A malformed or truncated encoding; the payload is the byte offset at
    /// which decoding failed (diagnostic only, not pinned by contracts).
    CorruptValue(u64),
    /// A structural layout invariant is violated.
    CorruptLayout(LayoutFault),
    /// An update supplied a value whose variant disagrees with the existing
    /// entry; `expected` is the entry's tag, `actual` the supplied one.
    TypeMismatch { key: Vec<u8>, expected: u8, actual: u8 },
    /// An underlying read, write or rename failed. Reserved for the I/O
    /// shell around the library; the crate's own logic never produces it.
    Io,
}

} // verus!
