//! Loading a sector: its bytes and its table of fixups.
use vstd::prelude::*;
use std::collections::HashMap;
use crate::bytes::{read_u32, Endianness};
use crate::error::DecodeError;
use crate::records::{pointer_at, Pointer, SectorInfo};

verus! {

broadcast use vstd::std_specs::hash::group_hash_axioms;

/// Codec id of an uncompressed sector.
pub const COMPRESSION_NONE: u32 = 0;

/// A loaded sector: its uncompressed bytes and its fixups keyed by source offset.
#[derive(Debug)]
pub struct Sector {
    pub info: SectorInfo,
    pub data: Vec<u8>,
    pub pointer_table: HashMap<u32, Pointer>,
}

/// Model of a loaded sector: its bytes and its fixups keyed by source offset.
pub struct SectorView {
    pub data: Seq<u8>,
    pub fixups: Map<u32, Pointer>,
}

impl SectorView {
    /// The fixup recorded for `offset`, if any.
    pub open spec fn fixup(&self, offset: int) -> Option<Pointer> {
        if 0 <= offset <= u32::MAX && self.fixups.contains_key(offset as u32) {
            Some(self.fixups[offset as u32])
        } else {
            None
        }
    }
}

impl View for Sector {
    type V = SectorView;

    open spec fn view(&self) -> SectorView {
        SectorView { data: self.data@, fixups: self.pointer_table@ }
    }
}

/// Models of a list of loaded sectors.
pub open spec fn sectors_view(v: Seq<Sector>) -> Seq<SectorView> {
    v.map_values(|s: Sector| s@)
}

impl Sector {
    /// Each fixup is filed under its own source offset, which lies inside the sector's bytes.
    pub open spec fn wf(&self) -> bool {
        forall|k: u32| #[trigger] self.pointer_table@.contains_key(k)
            ==> self.pointer_table@[k].src_offset == k && (k as int) < self.data@.len()
    }

    /// Returns the fixup whose source offset is `offset`, or `None`.
    pub fn resolve_pointer(&self, offset: usize) -> (r: Option<Pointer>)
        ensures
            r == self@.fixup(offset as int),
    {
        if offset > u32::MAX as usize {
            return None;
        }
        let key: u32 = offset as u32;
        match self.pointer_table.get(&key) {
            Some(p) => Some(*p),
            None => None,
        }
    }
}

/// The uncompressed bytes of the sector that `info` describes, taken from the whole file `b`.
pub open spec fn sector_bytes_spec(b: Seq<u8>, info: SectorInfo) -> Result<Seq<u8>, DecodeError> {
    if info.compression_type != COMPRESSION_NONE {
        Err(DecodeError::UnsupportedCodec(info.compression_type))
    } else if info.data_offset as int + info.compressed_length as int > b.len() {
        Err(DecodeError::ShortInput)
    } else {
        Ok(b.subrange(info.data_offset as int, info.data_offset as int + info.compressed_length as int))
    }
}

/// Yields the sector's bytes: only uncompressed sectors are supported, and they are copied as
/// they stand in the file.
pub fn decompress_sector(input: &[u8], info: &SectorInfo) -> (r: Result<Vec<u8>, DecodeError>)
    ensures
        match r {
            Ok(v) => sector_bytes_spec(input@, *info) == Ok::<Seq<u8>, DecodeError>(v@),
            Err(e) => sector_bytes_spec(input@, *info) == Err::<Seq<u8>, DecodeError>(e),
        },
{
    if info.compression_type != COMPRESSION_NONE {
        return Err(DecodeError::UnsupportedCodec(info.compression_type));
    }
    let start = info.data_offset as u64;
    let end = start + info.compressed_length as u64;
    if end > input.len() as u64 {
        return Err(DecodeError::ShortInput);
    }
    let mut out: Vec<u8> = Vec::new();
    let mut i: usize = start as usize;
    while i < end as usize
        invariant
            start <= i <= end <= input@.len(),
            out@ == input@.subrange(start as int, i as int),
        decreases end - i,
    {
        out.push(input[i]);
        i = i + 1;
        assert(out@ =~= input@.subrange(start as int, i as int));
    }
    Ok(out)
}

/// The fixup table after its first `n` entries, for a sector of `len` bytes.
pub open spec fn fixups_spec(b: Seq<u8>, e: Endianness, info: SectorInfo, len: int, n: nat)
    -> Result<Map<u32, Pointer>, DecodeError>
    decreases n,
{
    if n == 0 {
        Ok(Map::empty())
    } else {
        match fixups_spec(b, e, info, len, (n - 1) as nat) {
            Err(err) => Err(err),
            Ok(m) => {
                let pos = info.fixup_offset as int + 12 * (n - 1);
                if pos + 12 > b.len() {
                    Err(DecodeError::ShortInput)
                } else {
                    let p = pointer_at(b, pos, e);
                    if m.contains_key(p.src_offset) {
                        Err(DecodeError::DuplicateFixup(p.src_offset))
                    } else if p.src_offset as int >= len {
                        Err(DecodeError::OffsetOutOfRange)
                    } else {
                        Ok(m.insert(p.src_offset, p))
                    }
                }
            },
        }
    }
}

/// What loading the sector that `info` describes from the whole file `b` gives:
/// its bytes and its fixup map.
pub open spec fn sector_spec(b: Seq<u8>, e: Endianness, info: SectorInfo)
    -> Result<(Seq<u8>, Map<u32, Pointer>), DecodeError>
{
    match sector_bytes_spec(b, info) {
        Err(err) => Err(err),
        Ok(data) => match fixups_spec(b, e, info, data.len() as int, info.fixup_size as nat) {
            Err(err) => Err(err),
            Ok(m) => Ok((data, m)),
        },
    }
}

proof fn lemma_fixups_wf(b: Seq<u8>, e: Endianness, info: SectorInfo, len: int, n: nat)
    ensures
        fixups_spec(b, e, info, len, n) matches Ok(m) ==> forall|k: u32| #[trigger] m.contains_key(k)
            ==> m[k].src_offset == k && (k as int) < len,
    decreases n,
{
    if n > 0 {
        lemma_fixups_wf(b, e, info, len, (n - 1) as nat);
    }
}

/// Every fixup in the table comes from one of its first `n` entries in the file.
pub proof fn lemma_fixups_from_entries(b: Seq<u8>, e: Endianness, info: SectorInfo, len: int, n: nat)
    ensures
        fixups_spec(b, e, info, len, n) matches Ok(m) ==> forall|k: u32| #[trigger] m.contains_key(k)
            ==> exists|j: int| 0 <= j < n && m[k] == #[trigger] pointer_at(b, info.fixup_offset + 12 * j, e),
    decreases n,
{
    if n > 0 {
        lemma_fixups_from_entries(b, e, info, len, (n - 1) as nat);
        if let Ok(m) = fixups_spec(b, e, info, len, n) {
            if let Ok(m0) = fixups_spec(b, e, info, len, (n - 1) as nat) {
                let p = pointer_at(b, info.fixup_offset + 12 * (n - 1), e);
                assert forall|k: u32| #[trigger] m.contains_key(k) implies exists|j: int| 0 <= j < n
                    && m[k] == #[trigger] pointer_at(b, info.fixup_offset + 12 * j, e) by {
                    if k == p.src_offset {
                        assert(m[k] == pointer_at(b, info.fixup_offset + 12 * (n - 1), e));
                    } else {
                        assert(m0.contains_key(k));
                        let j = choose|j: int| 0 <= j < n - 1 && m0[k] == #[trigger] pointer_at(b, info.fixup_offset + 12 * j, e);
                        assert(m[k] == pointer_at(b, info.fixup_offset + 12 * j, e));
                    }
                }
            }
        }
    }
}

pub proof fn lemma_fixups_err_stays(b: Seq<u8>, e: Endianness, info: SectorInfo, len: int, k: nat, n: nat)
    requires
        k <= n,
        fixups_spec(b, e, info, len, k) is Err,
    ensures
        fixups_spec(b, e, info, len, n) == fixups_spec(b, e, info, len, k),
    decreases n,
{
    if k < n {
        lemma_fixups_err_stays(b, e, info, len, k, (n - 1) as nat);
    }
}

/// The fixup table read from the file cut at `c`: unchanged while its first `m` entries lie
/// before the cut, and too short otherwise.
pub proof fn lemma_fixups_cut(b: Seq<u8>, c: int, e: Endianness, info: SectorInfo, len: int, m: nat, n: nat)
    requires
        0 <= c <= b.len(),
        m <= n,
        fixups_spec(b, e, info, len, n) is Ok,
    ensures
        fixups_spec(b.take(c), e, info, len, m) == if m == 0 || info.fixup_offset + 12 * m <= c {
            fixups_spec(b, e, info, len, m)
        } else {
            Err(DecodeError::ShortInput)
        },
    decreases m,
{
    if m > 0 {
        let k = (m - 1) as nat;
        lemma_fixups_cut(b, c, e, info, len, k, n);
        if fixups_spec(b, e, info, len, k) is Err {
            lemma_fixups_err_stays(b, e, info, len, k, n);
        }
        let pos = info.fixup_offset + 12 * k;
        if pos + 12 <= c {
            crate::records::lemma_pointer_cut(b, c, pos, e);
        }
    }
}

/// Loads a sector: its bytes (see `decompress_sector`), then `fixup_size` entries of 12 bytes read
/// from absolute offset `fixup_offset` of the file into a map keyed by source offset.
pub fn load_sector(input: &[u8], e: Endianness, info: SectorInfo) -> (r: Result<Sector, DecodeError>)
    ensures
        match r {
            Ok(s) => s.wf() && s.info == info
                && (info.fixup_size > 0 ==> info.fixup_offset + 12 * info.fixup_size <= input@.len())
                && sector_spec(input@, e, info) == Ok::<(Seq<u8>, Map<u32, Pointer>), DecodeError>(
                    (s.data@, s.pointer_table@)),
            Err(err) => sector_spec(input@, e, info) == Err::<(Seq<u8>, Map<u32, Pointer>), DecodeError>(err),
        },
{
    let data = match decompress_sector(input, &info) {
        Ok(d) => d,
        Err(err) => return Err(err),
    };
    let mut pointer_table: HashMap<u32, Pointer> = HashMap::new();
    let mut i: u32 = 0;
    while i < info.fixup_size
        invariant
            i <= info.fixup_size,
            i > 0 ==> info.fixup_offset + 12 * i <= input@.len(),
            sector_bytes_spec(input@, info) == Ok::<Seq<u8>, DecodeError>(data@),
            fixups_spec(input@, e, info, data@.len() as int, i as nat)
                == Ok::<Map<u32, Pointer>, DecodeError>(pointer_table@),
        decreases info.fixup_size - i,
    {
        let pos: u64 = info.fixup_offset as u64 + 12 * (i as u64);
        if pos + 12 > input.len() as u64 {
            proof {
                assert(fixups_spec(input@, e, info, data@.len() as int, (i + 1) as nat)
                    == Err::<Map<u32, Pointer>, DecodeError>(DecodeError::ShortInput));
                lemma_fixups_err_stays(input@, e, info, data@.len() as int, (i + 1) as nat, info.fixup_size as nat);
            }
            return Err(DecodeError::ShortInput);
        }
        let p = pos as usize;
        let pointer = Pointer {
            src_offset: read_u32(input, p, e).unwrap(),
            dst_sector: read_u32(input, p + 4, e).unwrap(),
            dst_offset: read_u32(input, p + 8, e).unwrap(),
        };
        assert(pointer == pointer_at(input@, pos as int, e));
        if pointer_table.contains_key(&pointer.src_offset) {
            proof {
                lemma_fixups_err_stays(input@, e, info, data@.len() as int, (i + 1) as nat, info.fixup_size as nat);
            }
            return Err(DecodeError::DuplicateFixup(pointer.src_offset));
        }
        if pointer.src_offset as usize >= data.len() {
            proof {
                lemma_fixups_err_stays(input@, e, info, data@.len() as int, (i + 1) as nat, info.fixup_size as nat);
            }
            return Err(DecodeError::OffsetOutOfRange);
        }
        pointer_table.insert(pointer.src_offset, pointer);
        i = i + 1;
    }
    proof {
        lemma_fixups_wf(input@, e, info, data@.len() as int, info.fixup_size as nat);
    }
    Ok(Sector { info, data, pointer_table })
}

} // verus!
