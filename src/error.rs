//! The ways in which decoding a file can fail.
use vstd::prelude::*;

verus! {

/// Why a file could not be decoded.
#[derive(Clone, Copy, Debug, PartialEq, Eq, Structural)]
pub enum DecodeError {
    /// The 16-byte signature is none of the known ones.
    BadMagic,
    /// A record runs past the end of its buffer.
    ShortInput,
    /// A sector is compressed with the codec of this id; only uncompressed sectors are read.
    UnsupportedCodec(u32),
    /// Two fixup entries of one sector share this source offset.
    DuplicateFixup(u32),
    /// A reference or a fixup names this sector, which the file does not have.
    SectorOutOfRange(u32),
    /// An offset lies past the end of the sector it points into.
    OffsetOutOfRange,
    /// A type record carries this id, which has no decoding.
    UnknownTypeId(u32),
    /// A member needs a fixup at this offset of its data sector, and there is none.
    MissingFixup(u32),
    /// A string is not valid UTF-8.
    InvalidUtf8,
    /// Structures are nested deeper than the decoder allows.
    RecursionLimit,
}

} // verus!
