//! Decoding a whole file: header, file descriptor, sectors, and the root member list.
use vstd::prelude::*;
use crate::bytes::{read_u32, Endianness};
use crate::element::parse_element;
use crate::error::DecodeError;
use crate::model::{nodes_view, Element, ElementType, Node};
use crate::path::{resolve_in, resolve_spec};
use crate::records::{
    endianness_of, file_info_at, header_spec, parse_file_info, parse_header, parse_sector_info,
    pointer_at, sector_info_at, lemma_file_info_shift, lemma_front_cut, lemma_sector_info_cut,
    lemma_sector_info_shift, Pointer, SectorInfo,
};
use crate::sector::{lemma_fixups_cut, load_sector, sector_bytes_spec, sector_spec, sectors_view, Sector, SectorView};
use crate::stream::{list_spec, MAX_DEPTH};

verus! {

/// The first `n` sectors of a file whose directory starts at `dir`.
pub open spec fn sectors_spec(b: Seq<u8>, e: Endianness, dir: int, n: nat) -> Result<Seq<SectorView>, DecodeError>
    decreases n,
{
    if n == 0 {
        Ok(Seq::empty())
    } else {
        match sectors_spec(b, e, dir, (n - 1) as nat) {
            Err(x) => Err(x),
            Ok(ss) => {
                let p = dir + 44 * (n - 1);
                if p + 44 > b.len() {
                    Err(DecodeError::ShortInput)
                } else {
                    match sector_spec(b, e, sector_info_at(b, p, e)) {
                        Err(x) => Err(x),
                        Ok((data, fixups)) => Ok(ss.push(SectorView { data, fixups })),
                    }
                }
            },
        }
    }
}

/// What is wrong, if anything, with the target of a fixup among sectors `ss`.
pub open spec fn target_error(ss: Seq<SectorView>, p: Pointer) -> Option<DecodeError> {
    if p.dst_sector as int >= ss.len() {
        Some(DecodeError::SectorOutOfRange(p.dst_sector))
    } else if p.dst_offset as int >= ss[p.dst_sector as int].data.len() {
        Some(DecodeError::OffsetOutOfRange)
    } else {
        None
    }
}

/// The first fixup, in file order from entry `j` of sector `i` on, whose target is not inside
/// the file's sectors.
pub open spec fn targets_spec(b: Seq<u8>, e: Endianness, dir: int, ss: Seq<SectorView>, i: nat, j: nat)
    -> Option<DecodeError>
    decreases ss.len() - i, sector_info_at(b, dir + 44 * i, e).fixup_size - j,
{
    if i >= ss.len() {
        None
    } else {
        let info = sector_info_at(b, dir + 44 * i, e);
        if j >= info.fixup_size {
            targets_spec(b, e, dir, ss, i + 1, 0)
        } else {
            match target_error(ss, pointer_at(b, info.fixup_offset + 12 * j, e)) {
                Some(x) => Some(x),
                None => targets_spec(b, e, dir, ss, i, j + 1),
            }
        }
    }
}

/// The sectors that the file `b` loads, before the fixup targets are validated.
pub open spec fn file_sectors(b: Seq<u8>) -> Result<Seq<SectorView>, DecodeError> {
    match header_spec(b) {
        Err(x) => Err(x),
        Ok(h) => {
            let e = endianness_of(h.big_endian);
            let fi = file_info_at(b, 32, e);
            if b.len() < 32 + 40 || fi.file_info_size < 40 || 32 + fi.file_info_size > b.len() {
                Err(DecodeError::ShortInput)
            } else {
                sectors_spec(b, e, 32 + fi.file_info_size, fi.sector_count as nat)
            }
        },
    }
}

/// Each of the sectors `ss` is what loading the `i`-th directory entry at `dir` gives.
proof fn lemma_sectors_from_entries(b: Seq<u8>, e: Endianness, dir: int, n: nat)
    ensures
        sectors_spec(b, e, dir, n) matches Ok(ss) ==> ss.len() == n && forall|i: int| 0 <= i < n
            ==> #[trigger] sector_spec(b, e, sector_info_at(b, dir + 44 * i, e))
                == Ok::<(Seq<u8>, Map<u32, Pointer>), DecodeError>((ss[i].data, ss[i].fixups)),
    decreases n,
{
    if n > 0 {
        lemma_sectors_from_entries(b, e, dir, (n - 1) as nat);
    }
}

/// Where the search for a bad fixup target finds none, every entry from `(i, j)` on is good.
proof fn lemma_targets_good(b: Seq<u8>, e: Endianness, dir: int, ss: Seq<SectorView>, i: nat, j: nat)
    requires
        targets_spec(b, e, dir, ss, i, j) is None,
    ensures
        forall|i2: int, j2: int| i <= i2 < ss.len() && (i2 > i || j2 >= j)
            && 0 <= j2 < sector_info_at(b, dir + 44 * i2, e).fixup_size
            ==> #[trigger] target_error(ss, pointer_at(b, sector_info_at(b, dir + 44 * i2, e).fixup_offset + 12 * j2, e)) is None,
    decreases ss.len() - i, sector_info_at(b, dir + 44 * i, e).fixup_size - j,
{
    if i < ss.len() {
        let info = sector_info_at(b, dir + 44 * i, e);
        if j >= info.fixup_size {
            lemma_targets_good(b, e, dir, ss, i + 1, 0);
        } else {
            lemma_targets_good(b, e, dir, ss, i, j + 1);
        }
    }
}

/// In a file that decodes, every fixup of every sector points into an existing sector, before
/// the end of its bytes.
pub proof fn lemma_fixup_targets_in_range(b: Seq<u8>)
    requires
        decode_spec(b) is Ok,
    ensures
        file_sectors(b) matches Ok(ss) && forall|i: int, k: u32| 0 <= i < ss.len() && #[trigger] ss[i].fixups.contains_key(k)
            ==> (ss[i].fixups[k].dst_sector as int) < ss.len()
                && (ss[i].fixups[k].dst_offset as int) < ss[ss[i].fixups[k].dst_sector as int].data.len(),
{
    let h = header_spec(b)->Ok_0;
    let e = endianness_of(h.big_endian);
    let fi = file_info_at(b, 32, e);
    let dir = 32 + fi.file_info_size;
    let n = fi.sector_count as nat;
    let ss = sectors_spec(b, e, dir, n)->Ok_0;
    lemma_sectors_from_entries(b, e, dir, n);
    lemma_targets_good(b, e, dir, ss, 0, 0);
    assert forall|i: int, k: u32| 0 <= i < ss.len() && #[trigger] ss[i].fixups.contains_key(k)
        implies (ss[i].fixups[k].dst_sector as int) < ss.len()
            && (ss[i].fixups[k].dst_offset as int) < ss[ss[i].fixups[k].dst_sector as int].data.len() by {
        let info = sector_info_at(b, dir + 44 * i, e);
        assert(sector_spec(b, e, info) == Ok::<(Seq<u8>, Map<u32, Pointer>), DecodeError>((ss[i].data, ss[i].fixups)));
        crate::sector::lemma_fixups_from_entries(b, e, info, ss[i].data.len() as int, info.fixup_size as nat);
        let j = choose|j: int| 0 <= j < info.fixup_size && ss[i].fixups[k] == #[trigger] pointer_at(b, info.fixup_offset + 12 * j, e);
        assert(target_error(ss, pointer_at(b, info.fixup_offset + 12 * j, e)) is None);
    }
}

/// Decoding is deterministic: two files decoded from the same bytes hold equal trees.
pub proof fn lemma_decode_deterministic(b: Seq<u8>, f1: GrannyFile, f2: GrannyFile)
    requires
        decode_spec(b) == Ok::<Seq<Node>, DecodeError>(f1@),
        decode_spec(b) == Ok::<Seq<Node>, DecodeError>(f2@),
    ensures
        f1@ == f2@,
{
}

/// The bytes and the fixup table of the sector `info` lie before offset `c`.
pub open spec fn sector_before(info: SectorInfo, c: int) -> bool {
    &&& info.data_offset + info.compressed_length <= c
    &&& info.fixup_size == 0 || info.fixup_offset + 12 * info.fixup_size <= c
}

/// The first `k` sectors of the directory at `dir` lie before offset `c`.
pub open spec fn sectors_before(b: Seq<u8>, e: Endianness, dir: int, k: nat, c: int) -> bool
    decreases k,
{
    k == 0 || (sectors_before(b, e, dir, (k - 1) as nat, c)
        && sector_before(sector_info_at(b, dir + 44 * (k - 1), e), c))
}

proof fn lemma_sectors_before_each(b: Seq<u8>, e: Endianness, dir: int, k: nat, c: int, j: int)
    requires
        sectors_before(b, e, dir, k, c),
        0 <= j < k,
    ensures
        sector_before(sector_info_at(b, dir + 44 * j, e), c),
    decreases k,
{
    if j < k - 1 {
        lemma_sectors_before_each(b, e, dir, (k - 1) as nat, c, j);
    }
}

proof fn lemma_sector_cut(b: Seq<u8>, c: int, e: Endianness, info: SectorInfo)
    requires
        0 <= c <= b.len(),
        sector_spec(b, e, info) is Ok,
    ensures
        sector_spec(b.take(c), e, info) == if sector_before(info, c) {
            sector_spec(b, e, info)
        } else {
            Err(DecodeError::ShortInput)
        },
{
    let lo = info.data_offset as int;
    let hi = info.data_offset + info.compressed_length;
    if hi <= c {
        assert(b.take(c).subrange(lo, hi) =~= b.subrange(lo, hi));
        assert(sector_bytes_spec(b.take(c), info) == sector_bytes_spec(b, info));
        let len = (hi - lo) as int;
        lemma_fixups_cut(b, c, e, info, len, info.fixup_size as nat, info.fixup_size as nat);
    }
}

proof fn lemma_sectors_cut(b: Seq<u8>, c: int, e: Endianness, dir: int, k: nat, n: nat)
    requires
        0 <= dir,
        dir + 44 * n <= c <= b.len(),
        k <= n,
        sectors_spec(b, e, dir, n) is Ok,
    ensures
        sectors_spec(b.take(c), e, dir, k) == if sectors_before(b, e, dir, k, c) {
            sectors_spec(b, e, dir, k)
        } else {
            Err(DecodeError::ShortInput)
        },
    decreases k,
{
    if k > 0 {
        let j = (k - 1) as nat;
        lemma_sectors_cut(b, c, e, dir, j, n);
        if sectors_spec(b, e, dir, k) is Err {
            lemma_sectors_err_stays(b, e, dir, k, n);
        }
        if sectors_spec(b, e, dir, j) is Err {
            lemma_sectors_err_stays(b, e, dir, j, n);
        }
        let p = dir + 44 * j;
        assert(p + 44 <= dir + 44 * n);
        lemma_sector_info_cut(b, c, p, e);
        lemma_sector_cut(b, c, e, sector_info_at(b, p, e));
    }
}

/// The directory entry `i` of the file `b`.
pub open spec fn entry_info(b: Seq<u8>, i: int) -> SectorInfo {
    let e = endianness_of(b[0] == 0xCA);
    sector_info_at(b, 32 + file_info_at(b, 32, e).file_info_size + 44 * i, e)
}

/// Where the sector directory of the file `b` ends.
pub open spec fn directory_end(b: Seq<u8>) -> int {
    let fi = file_info_at(b, 32, endianness_of(b[0] == 0xCA));
    32 + fi.file_info_size + 44 * fi.sector_count
}

/// Cutting a decodable file where the bytes of one of its sectors begin, past the directory,
/// leaves a file that is too short, if that sector holds any bytes.
pub proof fn lemma_cut_at_sector_is_short(b: Seq<u8>, i: int)
    requires
        decode_spec(b) is Ok,
        0 <= i < file_info_at(b, 32, endianness_of(b[0] == 0xCA)).sector_count,
        entry_info(b, i).compressed_length > 0,
        directory_end(b) <= entry_info(b, i).data_offset,
    ensures
        decode_spec(b.take(entry_info(b, i).data_offset as int))
            == Err::<Seq<Node>, DecodeError>(DecodeError::ShortInput),
{
    let e = endianness_of(b[0] == 0xCA);
    let fi = file_info_at(b, 32, e);
    let dir = 32 + fi.file_info_size;
    let n = fi.sector_count as nat;
    let info = entry_info(b, i);
    let c = info.data_offset as int;
    lemma_sectors_from_entries(b, e, dir, n);
    assert(sector_spec(b, e, info) is Ok);
    assert(c <= b.len());
    lemma_front_cut(b, c, e);
    lemma_sectors_cut(b, c, e, dir, n, n);
    if sectors_before(b, e, dir, n, c) {
        lemma_sectors_before_each(b, e, dir, n, c, i);
    }
}

/// What the file `b` decodes to: its root member list.
pub open spec fn decode_spec(b: Seq<u8>) -> Result<Seq<Node>, DecodeError> {
    match header_spec(b) {
        Err(x) => Err(x),
        Ok(h) => {
            let e = endianness_of(h.big_endian);
            let fi = file_info_at(b, 32, e);
            if b.len() < 32 + 40 || fi.file_info_size < 40 || 32 + fi.file_info_size > b.len() {
                Err(DecodeError::ShortInput)
            } else {
                let dir = 32 + fi.file_info_size;
                match sectors_spec(b, e, dir, fi.sector_count as nat) {
                    Err(x) => Err(x),
                    Ok(ss) => match targets_spec(b, e, dir, ss, 0, 0) {
                        Some(x) => Err(x),
                        None => match list_spec(ss, h.bits_64, e, fi.root_ref.sector as int,
                            fi.type_ref.sector as int, fi.root_ref.position as int, fi.type_ref.position as int,
                            MAX_DEPTH as nat) {
                            Err(x) => Err(x),
                            Ok((l, _)) => Ok(l),
                        },
                    },
                }
            }
        },
    }
}

/// Looks, in file order, for a fixup whose target is not inside `sectors`.
fn find_bad_target(bytes: &[u8], e: Endianness, sectors: &Vec<Sector>, dir: Ghost<int>) -> (r: Option<DecodeError>)
    requires
        loaded_from(bytes@, e, dir@, sectors@),
    ensures
        r == targets_spec(bytes@, e, dir@, sectors_view(sectors@), 0, 0),
{
    let ghost ss = sectors_view(sectors@);
    let ghost b = bytes@;
    let mut i: usize = 0;
    while i < sectors.len()
        invariant
            ss == sectors_view(sectors@),
            b == bytes@,
            i <= sectors@.len(),
            loaded_from(b, e, dir@, sectors@),
            targets_spec(b, e, dir@, ss, 0, 0) == targets_spec(b, e, dir@, ss, i as nat, 0),
        decreases sectors@.len() - i,
    {
        let info = sectors[i].info;
        assert(sector_loaded_from(b, e, dir@ + 44 * i, sectors@[i as int]));
        let mut j: u32 = 0;
        while j < info.fixup_size
            invariant
                ss == sectors_view(sectors@),
                b == bytes@,
                i < sectors@.len(),
                info == sector_info_at(b, dir@ + 44 * i, e),
                j <= info.fixup_size,
                info.fixup_size > 0 ==> info.fixup_offset + 12 * info.fixup_size <= b.len(),
                targets_spec(b, e, dir@, ss, 0, 0) == targets_spec(b, e, dir@, ss, i as nat, j as nat),
            decreases info.fixup_size - j,
        {
            // Its length is a usize: the offset arithmetic below cannot overflow.
            let _ = bytes.len();
            let pos: usize = (info.fixup_offset as u64 + 12 * (j as u64)) as usize;
            let p = Pointer {
                src_offset: read_u32(bytes, pos, e).unwrap(),
                dst_sector: read_u32(bytes, pos + 4, e).unwrap(),
                dst_offset: read_u32(bytes, pos + 8, e).unwrap(),
            };
            assert(p == pointer_at(b, info.fixup_offset + 12 * j, e));
            if p.dst_sector as usize >= sectors.len() {
                return Some(DecodeError::SectorOutOfRange(p.dst_sector));
            }
            if p.dst_offset as usize >= sectors[p.dst_sector as usize].data.len() {
                return Some(DecodeError::OffsetOutOfRange);
            }
            j = j + 1;
        }
        i = i + 1;
    }
    None
}

/// Each of the sectors `v` is well formed, was loaded from the `k`-th directory entry at `dir`,
/// and has its fixup table inside the file.
pub open spec fn loaded_from(b: Seq<u8>, e: Endianness, dir: int, v: Seq<Sector>) -> bool {
    forall|k: int| 0 <= k < v.len() ==> #[trigger] sector_loaded_from(b, e, dir + 44 * k, v[k])
}

/// `s` is well formed, was loaded from the directory entry at `p`, and has its fixup table
/// inside the file.
pub open spec fn sector_loaded_from(b: Seq<u8>, e: Endianness, p: int, s: Sector) -> bool {
    &&& s.wf()
    &&& s.info == sector_info_at(b, p, e)
    &&& s.info.fixup_size > 0 ==> s.info.fixup_offset + 12 * s.info.fixup_size <= b.len()
}

proof fn lemma_sectors_err_stays(b: Seq<u8>, e: Endianness, dir: int, k: nat, n: nat)
    requires
        k <= n,
        sectors_spec(b, e, dir, k) is Err,
    ensures
        sectors_spec(b, e, dir, n) == sectors_spec(b, e, dir, k),
    decreases n,
{
    if k < n {
        lemma_sectors_err_stays(b, e, dir, k, (n - 1) as nat);
    }
}

/// Reads the directory entry at the start of `cur` (offset `p` of the file) and loads its
/// sector; returns the rest of the directory too.
fn load_entry<'a>(bytes: &[u8], e: Endianness, cur: &'a [u8], p: Ghost<int>) -> (r: Result<(&'a [u8], Sector), DecodeError>)
    requires
        0 <= p@ <= bytes@.len(),
        cur@ == bytes@.subrange(p@, bytes@.len() as int),
    ensures
        match r {
            Ok((next, s)) => p@ + 44 <= bytes@.len() && next@ == bytes@.subrange(p@ + 44, bytes@.len() as int)
                && sector_spec(bytes@, e, sector_info_at(bytes@, p@, e))
                    == Ok::<(Seq<u8>, Map<u32, Pointer>), DecodeError>((s.data@, s.pointer_table@))
                && sector_loaded_from(bytes@, e, p@, s),
            Err(x) => if p@ + 44 > bytes@.len() {
                x == DecodeError::ShortInput
            } else {
                sector_spec(bytes@, e, sector_info_at(bytes@, p@, e))
                    == Err::<(Seq<u8>, Map<u32, Pointer>), DecodeError>(x)
            },
        },
{
    let (next, sinfo) = match parse_sector_info(e, cur) {
        Ok(x) => x,
        Err(x) => return Err(x),
    };
    proof {
        lemma_sector_info_shift(bytes@, p@, e);
        assert(next@ =~= bytes@.subrange(p@ + 44, bytes@.len() as int));
    }
    match load_sector(bytes, e, sinfo) {
        Ok(s) => Ok((next, s)),
        Err(x) => Err(x),
    }
}

/// Reads `count` sector directory entries from the start of `dir_bytes` (which starts at
/// offset `dir` of the file), loading each sector as soon as its entry is read.
#[verifier::rlimit(100)]
fn load_sectors(bytes: &[u8], e: Endianness, dir_bytes: &[u8], count: u32, dir: Ghost<int>)
    -> (r: Result<Vec<Sector>, DecodeError>)
    requires
        0 <= dir@ <= bytes@.len(),
        dir_bytes@ == bytes@.subrange(dir@, bytes@.len() as int),
    ensures
        match r {
            Ok(v) => sectors_spec(bytes@, e, dir@, count as nat) == Ok::<Seq<SectorView>, DecodeError>(sectors_view(v@))
                && loaded_from(bytes@, e, dir@, v@),
            Err(x) => sectors_spec(bytes@, e, dir@, count as nat) == Err::<Seq<SectorView>, DecodeError>(x),
        },
{
    let ghost b = bytes@;
    let mut cur = dir_bytes;
    let mut sectors: Vec<Sector> = Vec::new();
    let mut i: u32 = 0;
    assert(sectors_view(sectors@) =~= Seq::<SectorView>::empty());
    while i < count
        invariant
            b == bytes@,
            0 <= dir@ <= b.len(),
            i <= count,
            dir@ + 44 * i <= b.len(),
            cur@ == b.subrange(dir@ + 44 * i, b.len() as int),
            sectors@.len() == i,
            sectors_spec(b, e, dir@, i as nat) == Ok::<Seq<SectorView>, DecodeError>(sectors_view(sectors@)),
            loaded_from(b, e, dir@, sectors@),
        decreases count - i,
    {
        let (next, s) = match load_entry(bytes, e, cur, Ghost(dir@ + 44 * i)) {
            Ok(x) => x,
            Err(x) => {
                proof {
                    assert(sectors_spec(b, e, dir@, (i + 1) as nat) == Err::<Seq<SectorView>, DecodeError>(x));
                    lemma_sectors_err_stays(b, e, dir@, (i + 1) as nat, count as nat);
                }
                return Err(x);
            },
        };
        let ghost before = sectors@;
        assert(sector_loaded_from(b, e, dir@ + 44 * i, s));
        sectors.push(s);
        assert(sectors_view(sectors@) =~= sectors_view(before).push(s@));
        assert forall|k: int| 0 <= k < sectors@.len() implies #[trigger] sector_loaded_from(b, e, dir@ + 44 * k, sectors@[k]) by {
            if k < i {
                assert(sectors@[k] == before[k]);
            }
        }
        cur = next;
        i = i + 1;
    }
    Ok(sectors)
}

/// A decoded file: its root member list.
pub struct GrannyFile {
    pub root_elements: Vec<Element>,
}

impl View for GrannyFile {
    type V = Seq<Node>;

    open spec fn view(&self) -> Seq<Node> {
        nodes_view(self.root_elements@, MAX_DEPTH as nat)
    }
}

impl GrannyFile {
    /// Decodes a whole file held in `bytes`.
    #[verifier::rlimit(50)]
    pub fn decode(bytes: &[u8]) -> (r: Result<GrannyFile, DecodeError>)
        ensures
            match r {
                Ok(f) => decode_spec(bytes@) == Ok::<Seq<Node>, DecodeError>(f@),
                Err(x) => decode_spec(bytes@) == Err::<Seq<Node>, DecodeError>(x),
            },
    {
        let ghost b = bytes@;
        let (rest, header) = match parse_header(bytes) {
            Ok(x) => x,
            Err(x) => return Err(x),
        };
        let e = if header.big_endian { Endianness::Big } else { Endianness::Little };
        let (mut cur, info) = match parse_file_info(e, rest) {
            Ok(x) => x,
            Err(x) => return Err(x),
        };
        proof {
            lemma_file_info_shift(b, 32, e);
        }
        let ghost dir = 32 + info.file_info_size as int;
        assert(cur@ =~= b.subrange(dir, b.len() as int));
        let sectors = match load_sectors(bytes, e, cur, info.sector_count, Ghost(dir)) {
            Ok(s) => s,
            Err(x) => return Err(x),
        };
        let ghost ss = sectors_view(sectors@);
        match find_bad_target(bytes, e, &sectors, Ghost(dir)) {
            Some(x) => return Err(x),
            None => {},
        }
        match parse_element(e, header.bits_64, &sectors, info.root_ref.sector, info.type_ref.sector,
            info.root_ref.position, info.type_ref.position) {
            Ok((_, root_elements)) => Ok(GrannyFile { root_elements }),
            Err(x) => Err(x),
        }
    }

    /// Decodes a whole file held in `bytes`; `None` where it cannot be decoded.
    pub fn load_from_bytes(bytes: &[u8]) -> (r: Option<GrannyFile>)
        ensures
            match r {
                Some(f) => decode_spec(bytes@) == Ok::<Seq<Node>, DecodeError>(f@),
                None => decode_spec(bytes@) is Err,
            },
    {
        match GrannyFile::decode(bytes) {
            Ok(f) => Some(f),
            Err(_) => None,
        }
    }

    /// The value that the dotted `path` names, from the root member list on.
    pub fn find_element(&self, path: &str) -> (r: Option<&ElementType>)
        ensures
            match r {
                Some(v) => resolve_spec(self.root_elements@, path@) == Some(*v),
                None => resolve_spec(self.root_elements@, path@) is None,
            },
    {
        resolve_in(&self.root_elements, path)
    }

    /// The root member list.
    pub fn elements(&self) -> (r: &Vec<Element>)
        ensures
            r@ == self.root_elements@,
            nodes_view(r@, MAX_DEPTH as nat) == self@,
    {
        &self.root_elements
    }
}

} // verus!
