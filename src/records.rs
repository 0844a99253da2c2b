//! The fixed-layout records of a file: header, file descriptor, sector directory entries,
//! references and fixup entries.
use vstd::prelude::*;
use crate::bytes::{read_u32, read_i32, u32_at, i32_at, Endianness};
use crate::error::DecodeError;
use vstd::slice::slice_subrange;

verus! {

/// What the 16-byte signature and the two words after it say about a file.
#[derive(Clone, Copy, Debug, PartialEq, Eq, Structural)]
pub struct Header {
    pub big_endian: bool,
    pub extra_16: bool,
    pub bits_64: bool,
    pub size: u32,
    pub format: u32,
}

/// A (sector, byte offset) coordinate.
#[derive(Clone, Copy, Debug, PartialEq, Eq, Structural)]
pub struct Reference {
    pub sector: u32,
    pub position: u32,
}

/// A relocation: the pointer slot at `src_offset` of a sector stands for
/// `dst_offset` inside sector `dst_sector`.
#[derive(Clone, Copy, Debug, PartialEq, Eq, Structural)]
pub struct Pointer {
    pub src_offset: u32,
    pub dst_sector: u32,
    pub dst_offset: u32,
}

/// The file descriptor that follows the header.
#[derive(Clone, Copy, Debug, PartialEq, Eq, Structural)]
pub struct FileInfo {
    pub format_version: i32,
    pub total_size: u32,
    pub crc32: u32,
    pub file_info_size: u32,
    pub sector_count: u32,
    pub type_ref: Reference,
    pub root_ref: Reference,
    pub tag: u32,
}

/// One entry of the sector directory.
#[derive(Clone, Copy, Debug, PartialEq, Eq, Structural)]
pub struct SectorInfo {
    pub compression_type: u32,
    pub data_offset: u32,
    pub compressed_length: u32,
    pub decompressed_length: u32,
    pub alignment: u32,
    pub oodle_stop_0: u32,
    pub oodle_stop_1: u32,
    pub fixup_offset: u32,
    pub fixup_size: u32,
    pub marshall_offset: u32,
    pub marshall_size: u32,
}

/// Length of the header, signature included.
pub const HEADER_LEN: usize = 32;
/// Length of the fixed part of the file descriptor.
pub const FILE_INFO_LEN: usize = 40;
/// Length of a sector directory entry.
pub const SECTOR_INFO_LEN: usize = 44;
/// Length of a fixup entry.
pub const POINTER_LEN: usize = 12;
/// Length of a reference.
pub const REFERENCE_LEN: usize = 8;

pub open spec fn magic_le32() -> Seq<u8> {
    seq![0xB8u8, 0x67, 0xB0, 0xCA, 0xF8, 0x6D, 0xB1, 0x0F, 0x84, 0x72, 0x8C, 0x7E, 0x5E, 0x19, 0x00, 0x1E]
}

pub open spec fn magic_be32() -> Seq<u8> {
    seq![0xCAu8, 0xB0, 0x67, 0xB6, 0x0F, 0xB1, 0xDB, 0xF8, 0x7E, 0x8C, 0x72, 0x84, 0x1E, 0x00, 0x19, 0x5E]
}

pub open spec fn magic_le32_v7() -> Seq<u8> {
    seq![0x29u8, 0xDE, 0x6C, 0xC0, 0xBA, 0xA4, 0x53, 0x2B, 0x25, 0xF5, 0xB7, 0xA5, 0xF6, 0x66, 0xE2, 0xEE]
}

pub open spec fn magic_le64_v7() -> Seq<u8> {
    seq![0xE5u8, 0x9B, 0x49, 0x5E, 0x6F, 0x63, 0x1F, 0x14, 0x1E, 0x13, 0xEB, 0xA9, 0x90, 0xBE, 0xED, 0xC4]
}

/// The signature is one of the four known ones.
pub open spec fn known_magic(m: Seq<u8>) -> bool {
    m == magic_le32() || m == magic_be32() || m == magic_le32_v7() || m == magic_le64_v7()
}

pub open spec fn endianness_of(big_endian: bool) -> Endianness {
    if big_endian { Endianness::Big } else { Endianness::Little }
}

/// What the header of `b` decodes to.
pub open spec fn header_spec(b: Seq<u8>) -> Result<Header, DecodeError> {
    if b.len() < 16 {
        Err(DecodeError::ShortInput)
    } else if !known_magic(b.subrange(0, 16)) {
        Err(DecodeError::BadMagic)
    } else if b.len() < 32 {
        Err(DecodeError::ShortInput)
    } else {
        let e = endianness_of(b[0] == 0xCA);
        Ok(Header {
            big_endian: b[0] == 0xCA,
            extra_16: b[0] == 0x29 || b[0] == 0xE5,
            bits_64: b[0] == 0xE5,
            size: u32_at(b, 16, e),
            format: u32_at(b, 20, e),
        })
    }
}

fn starts_with(b: &[u8], m: &[u8; 16]) -> (r: bool)
    requires
        b@.len() >= 16,
    ensures
        r == (b@.subrange(0, 16) == m@),
{
    let mut i: usize = 0;
    while i < 16
        invariant
            i <= 16,
            b@.len() >= 16,
            m@.len() == 16,
            forall|j: int| 0 <= j < i ==> b@[j] == m@[j],
        decreases 16 - i,
    {
        if b[i] != m[i] {
            assert(b@.subrange(0, 16)[i as int] != m@[i as int]);
            return false;
        }
        i = i + 1;
    }
    assert(b@.subrange(0, 16) =~= m@);
    true
}

/// Reads the 32-byte header: the signature picks byte order, pointer width and variant;
/// two words (size, format) and eight reserved bytes follow. Returns the rest of the input.
pub fn parse_header(input: &[u8]) -> (r: Result<(&[u8], Header), DecodeError>)
    ensures
        match r {
            Ok((rest, h)) => header_spec(input@) == Ok::<Header, DecodeError>(h)
                && rest@ == input@.subrange(32, input@.len() as int),
            Err(e) => header_spec(input@) == Err::<Header, DecodeError>(e),
        },
{
    if input.len() < 16 {
        return Err(DecodeError::ShortInput);
    }
    let le32: [u8; 16] = [0xB8, 0x67, 0xB0, 0xCA, 0xF8, 0x6D, 0xB1, 0x0F, 0x84, 0x72, 0x8C, 0x7E, 0x5E, 0x19, 0x00, 0x1E];
    let be32: [u8; 16] = [0xCA, 0xB0, 0x67, 0xB6, 0x0F, 0xB1, 0xDB, 0xF8, 0x7E, 0x8C, 0x72, 0x84, 0x1E, 0x00, 0x19, 0x5E];
    let le32_v7: [u8; 16] = [0x29, 0xDE, 0x6C, 0xC0, 0xBA, 0xA4, 0x53, 0x2B, 0x25, 0xF5, 0xB7, 0xA5, 0xF6, 0x66, 0xE2, 0xEE];
    let le64_v7: [u8; 16] = [0xE5, 0x9B, 0x49, 0x5E, 0x6F, 0x63, 0x1F, 0x14, 0x1E, 0x13, 0xEB, 0xA9, 0x90, 0xBE, 0xED, 0xC4];
    assert(le32@ =~= magic_le32());
    assert(be32@ =~= magic_be32());
    assert(le32_v7@ =~= magic_le32_v7());
    assert(le64_v7@ =~= magic_le64_v7());
    let known = starts_with(input, &le32) || starts_with(input, &be32) || starts_with(input, &le32_v7)
        || starts_with(input, &le64_v7);
    if !known {
        return Err(DecodeError::BadMagic);
    }
    if input.len() < HEADER_LEN {
        return Err(DecodeError::ShortInput);
    }
    let big_endian = input[0] == 0xCA;
    let extra_16 = input[0] == 0x29 || input[0] == 0xE5;
    let bits_64 = input[0] == 0xE5;
    let e = if big_endian { Endianness::Big } else { Endianness::Little };
    let size = read_u32(input, 16, e).unwrap();
    let format = read_u32(input, 20, e).unwrap();
    let rest = slice_subrange(input, HEADER_LEN, input.len());
    Ok((rest, Header { big_endian, extra_16, bits_64, size, format }))
}

/// The reference stored at `p`.
pub open spec fn reference_at(b: Seq<u8>, p: int, e: Endianness) -> Reference {
    Reference { sector: u32_at(b, p, e), position: u32_at(b, p + 4, e) }
}

/// Reads an 8-byte reference at the start of `input`; returns the rest.
pub fn parse_reference(e: Endianness, input: &[u8]) -> (r: Result<(&[u8], Reference), DecodeError>)
    ensures
        r is Ok <==> input@.len() >= 8,
        r is Err ==> r == Err::<(&[u8], Reference), DecodeError>(DecodeError::ShortInput),
        r matches Ok((rest, v)) ==> v == reference_at(input@, 0, e)
            && rest@ == input@.subrange(8, input@.len() as int),
{
    if input.len() < REFERENCE_LEN {
        return Err(DecodeError::ShortInput);
    }
    let sector = read_u32(input, 0, e).unwrap();
    let position = read_u32(input, 4, e).unwrap();
    Ok((slice_subrange(input, REFERENCE_LEN, input.len()), Reference { sector, position }))
}

/// The fixup entry stored at `p`.
pub open spec fn pointer_at(b: Seq<u8>, p: int, e: Endianness) -> Pointer {
    Pointer {
        src_offset: u32_at(b, p, e),
        dst_sector: u32_at(b, p + 4, e),
        dst_offset: u32_at(b, p + 8, e),
    }
}

/// Reads a 12-byte fixup entry at the start of `input`; returns the rest.
pub fn parse_pointer(e: Endianness, input: &[u8]) -> (r: Result<(&[u8], Pointer), DecodeError>)
    ensures
        r is Ok <==> input@.len() >= 12,
        r is Err ==> r == Err::<(&[u8], Pointer), DecodeError>(DecodeError::ShortInput),
        r matches Ok((rest, v)) ==> v == pointer_at(input@, 0, e)
            && rest@ == input@.subrange(12, input@.len() as int),
{
    if input.len() < POINTER_LEN {
        return Err(DecodeError::ShortInput);
    }
    let src_offset = read_u32(input, 0, e).unwrap();
    let dst_sector = read_u32(input, 4, e).unwrap();
    let dst_offset = read_u32(input, 8, e).unwrap();
    Ok((slice_subrange(input, POINTER_LEN, input.len()), Pointer { src_offset, dst_sector, dst_offset }))
}

/// The file descriptor stored at `p`.
pub open spec fn file_info_at(b: Seq<u8>, p: int, e: Endianness) -> FileInfo {
    FileInfo {
        format_version: i32_at(b, p, e),
        total_size: u32_at(b, p + 4, e),
        crc32: u32_at(b, p + 8, e),
        file_info_size: u32_at(b, p + 12, e),
        sector_count: u32_at(b, p + 16, e),
        type_ref: reference_at(b, p + 20, e),
        root_ref: reference_at(b, p + 28, e),
        tag: u32_at(b, p + 36, e),
    }
}

/// Reads the file descriptor at the start of `input` and skips its trailing
/// `file_info_size - 40` bytes; returns the rest.
pub fn parse_file_info(e: Endianness, input: &[u8]) -> (r: Result<(&[u8], FileInfo), DecodeError>)
    ensures
        r is Ok <==> input@.len() >= 40 && file_info_at(input@, 0, e).file_info_size >= 40
            && input@.len() >= file_info_at(input@, 0, e).file_info_size,
        r is Err ==> r == Err::<(&[u8], FileInfo), DecodeError>(DecodeError::ShortInput),
        r matches Ok((rest, v)) ==> v == file_info_at(input@, 0, e)
            && rest@ == input@.subrange(v.file_info_size as int, input@.len() as int),
{
    if input.len() < FILE_INFO_LEN {
        return Err(DecodeError::ShortInput);
    }
    let format_version = read_i32(input, 0, e).unwrap();
    let total_size = read_u32(input, 4, e).unwrap();
    let crc32 = read_u32(input, 8, e).unwrap();
    let file_info_size = read_u32(input, 12, e).unwrap();
    let sector_count = read_u32(input, 16, e).unwrap();
    let (_, type_ref) = parse_reference(e, slice_subrange(input, 20, input.len())).unwrap();
    let (_, root_ref) = parse_reference(e, slice_subrange(input, 28, input.len())).unwrap();
    let tag = read_u32(input, 36, e).unwrap();
    proof {
        assert(reference_at(input@.subrange(20, input@.len() as int), 0, e) == reference_at(input@, 20, e));
        assert(reference_at(input@.subrange(28, input@.len() as int), 0, e) == reference_at(input@, 28, e));
    }
    if file_info_size < 40 || file_info_size as usize > input.len() {
        return Err(DecodeError::ShortInput);
    }
    let info = FileInfo {
        format_version,
        total_size,
        crc32,
        file_info_size,
        sector_count,
        type_ref,
        root_ref,
        tag,
    };
    Ok((slice_subrange(input, file_info_size as usize, input.len()), info))
}

/// The sector directory entry stored at `p`.
pub open spec fn sector_info_at(b: Seq<u8>, p: int, e: Endianness) -> SectorInfo {
    SectorInfo {
        compression_type: u32_at(b, p, e),
        data_offset: u32_at(b, p + 4, e),
        compressed_length: u32_at(b, p + 8, e),
        decompressed_length: u32_at(b, p + 12, e),
        alignment: u32_at(b, p + 16, e),
        oodle_stop_0: u32_at(b, p + 20, e),
        oodle_stop_1: u32_at(b, p + 24, e),
        fixup_offset: u32_at(b, p + 28, e),
        fixup_size: u32_at(b, p + 32, e),
        marshall_offset: u32_at(b, p + 36, e),
        marshall_size: u32_at(b, p + 40, e),
    }
}

/// Reading a field of a suffix is reading the whole at a shifted offset.
pub proof fn lemma_u32_shift(b: Seq<u8>, p: int, q: int, e: Endianness)
    requires
        0 <= p,
        0 <= q,
        p + q + 4 <= b.len(),
    ensures
        u32_at(b.subrange(p, b.len() as int), q, e) == u32_at(b, p + q, e),
{
    let s = b.subrange(p, b.len() as int);
    assert(s[q] == b[p + q] && s[q + 1] == b[p + q + 1] && s[q + 2] == b[p + q + 2] && s[q + 3] == b[p + q + 3]);
}

/// Cutting the bytes after a field leaves the field as it was.
pub proof fn lemma_u32_cut(b: Seq<u8>, c: int, p: int, e: Endianness)
    requires
        0 <= p,
        p + 4 <= c <= b.len(),
    ensures
        u32_at(b.take(c), p, e) == u32_at(b, p, e),
{
    let s = b.take(c);
    assert(s[p] == b[p] && s[p + 1] == b[p + 1] && s[p + 2] == b[p + 2] && s[p + 3] == b[p + 3]);
}

/// Cutting the bytes after a fixup entry leaves the entry as it was.
pub proof fn lemma_pointer_cut(b: Seq<u8>, c: int, p: int, e: Endianness)
    requires
        0 <= p,
        p + 12 <= c <= b.len(),
    ensures
        pointer_at(b.take(c), p, e) == pointer_at(b, p, e),
{
    lemma_u32_cut(b, c, p, e);
    lemma_u32_cut(b, c, p + 4, e);
    lemma_u32_cut(b, c, p + 8, e);
}

/// Cutting the bytes after a directory entry leaves the entry as it was.
pub proof fn lemma_sector_info_cut(b: Seq<u8>, c: int, p: int, e: Endianness)
    requires
        0 <= p,
        p + 44 <= c <= b.len(),
    ensures
        sector_info_at(b.take(c), p, e) == sector_info_at(b, p, e),
{
    lemma_u32_cut(b, c, p, e);
    lemma_u32_cut(b, c, p + 4, e);
    lemma_u32_cut(b, c, p + 8, e);
    lemma_u32_cut(b, c, p + 12, e);
    lemma_u32_cut(b, c, p + 16, e);
    lemma_u32_cut(b, c, p + 20, e);
    lemma_u32_cut(b, c, p + 24, e);
    lemma_u32_cut(b, c, p + 28, e);
    lemma_u32_cut(b, c, p + 32, e);
    lemma_u32_cut(b, c, p + 36, e);
    lemma_u32_cut(b, c, p + 40, e);
}

/// Cutting the bytes after the header and file descriptor leaves both as they were.
pub proof fn lemma_front_cut(b: Seq<u8>, c: int, e: Endianness)
    requires
        72 <= c <= b.len(),
    ensures
        header_spec(b.take(c)) == header_spec(b),
        file_info_at(b.take(c), 32, e) == file_info_at(b, 32, e),
{
    let s = b.take(c);
    assert(s.subrange(0, 16) =~= b.subrange(0, 16));
    assert(s[0] == b[0]);
    lemma_u32_cut(b, c, 16, e);
    lemma_u32_cut(b, c, 20, e);
    lemma_u32_cut(b, c, 16, Endianness::Little);
    lemma_u32_cut(b, c, 20, Endianness::Little);
    lemma_u32_cut(b, c, 16, Endianness::Big);
    lemma_u32_cut(b, c, 20, Endianness::Big);
    lemma_u32_cut(b, c, 32, e);
    lemma_u32_cut(b, c, 36, e);
    lemma_u32_cut(b, c, 40, e);
    lemma_u32_cut(b, c, 44, e);
    lemma_u32_cut(b, c, 48, e);
    lemma_u32_cut(b, c, 52, e);
    lemma_u32_cut(b, c, 56, e);
    lemma_u32_cut(b, c, 60, e);
    lemma_u32_cut(b, c, 64, e);
    lemma_u32_cut(b, c, 68, e);
}

/// Reading the file descriptor from a suffix is reading it from the whole at a shifted offset.
pub proof fn lemma_file_info_shift(b: Seq<u8>, p: int, e: Endianness)
    requires
        0 <= p,
        p + 40 <= b.len(),
    ensures
        file_info_at(b.subrange(p, b.len() as int), 0, e) == file_info_at(b, p, e),
{
    lemma_u32_shift(b, p, 0, e);
    lemma_u32_shift(b, p, 4, e);
    lemma_u32_shift(b, p, 8, e);
    lemma_u32_shift(b, p, 12, e);
    lemma_u32_shift(b, p, 16, e);
    lemma_u32_shift(b, p, 20, e);
    lemma_u32_shift(b, p, 24, e);
    lemma_u32_shift(b, p, 28, e);
    lemma_u32_shift(b, p, 32, e);
    lemma_u32_shift(b, p, 36, e);
}

/// Reading a directory entry from a suffix is reading it from the whole at a shifted offset.
pub proof fn lemma_sector_info_shift(b: Seq<u8>, p: int, e: Endianness)
    requires
        0 <= p,
        p + 44 <= b.len(),
    ensures
        sector_info_at(b.subrange(p, b.len() as int), 0, e) == sector_info_at(b, p, e),
{
    lemma_u32_shift(b, p, 0, e);
    lemma_u32_shift(b, p, 4, e);
    lemma_u32_shift(b, p, 8, e);
    lemma_u32_shift(b, p, 12, e);
    lemma_u32_shift(b, p, 16, e);
    lemma_u32_shift(b, p, 20, e);
    lemma_u32_shift(b, p, 24, e);
    lemma_u32_shift(b, p, 28, e);
    lemma_u32_shift(b, p, 32, e);
    lemma_u32_shift(b, p, 36, e);
    lemma_u32_shift(b, p, 40, e);
}

/// Reads a 44-byte sector directory entry at the start of `input`; returns the rest.
pub fn parse_sector_info(e: Endianness, input: &[u8]) -> (r: Result<(&[u8], SectorInfo), DecodeError>)
    ensures
        r is Ok <==> input@.len() >= 44,
        r is Err ==> r == Err::<(&[u8], SectorInfo), DecodeError>(DecodeError::ShortInput),
        r matches Ok((rest, v)) ==> v == sector_info_at(input@, 0, e)
            && rest@ == input@.subrange(44, input@.len() as int),
{
    if input.len() < SECTOR_INFO_LEN {
        return Err(DecodeError::ShortInput);
    }
    let info = SectorInfo {
        compression_type: read_u32(input, 0, e).unwrap(),
        data_offset: read_u32(input, 4, e).unwrap(),
        compressed_length: read_u32(input, 8, e).unwrap(),
        decompressed_length: read_u32(input, 12, e).unwrap(),
        alignment: read_u32(input, 16, e).unwrap(),
        oodle_stop_0: read_u32(input, 20, e).unwrap(),
        oodle_stop_1: read_u32(input, 24, e).unwrap(),
        fixup_offset: read_u32(input, 28, e).unwrap(),
        fixup_size: read_u32(input, 32, e).unwrap(),
        marshall_offset: read_u32(input, 36, e).unwrap(),
        marshall_size: read_u32(input, 40, e).unwrap(),
    };
    Ok((slice_subrange(input, SECTOR_INFO_LEN, input.len()), info))
}

} // verus!
