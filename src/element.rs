//! Decoding member lists: the type stream drives how many bytes each member takes from the
//! data stream, and references lead into other sectors.
use vstd::prelude::*;
use vstd::slice::slice_subrange;
use crate::bytes::{ptr_width, read_i32, read_u32, u32_at, Endianness};
use crate::error::DecodeError;
use crate::model::{
    item_view, items_view, lists_view, node_view, nodes_view, transform_words, value_view, Element, ElementType, Node, Transform, TypeInfo,
    Value,
};
use crate::records::Pointer;
use crate::sector::{sectors_view, Sector};
use crate::stream::{
    cstring_bytes, indirect_spec, list_spec, lists_spec, member_value_spec, members_spec,
    name_spec, prepend_lists, prepend_nodes, prepend_values, run_spec, string_spec, text_from_utf8,
    type_info_spec, type_record_len, value_len, value_spec, values_spec, zero_from, MAX_DEPTH,
};

verus! {

/// Model of the outcome of decoding a member list.
pub open spec fn list_result(r: Result<(usize, Vec<Element>), DecodeError>, d: nat)
    -> Result<(Seq<Node>, int), DecodeError>
{
    match r {
        Ok((o, v)) => Ok((nodes_view(v@, d), o as int)),
        Err(x) => Err(x),
    }
}

/// Model of the outcome of decoding a value.
pub open spec fn value_result(r: Result<(ElementType, usize), DecodeError>, d: nat)
    -> Result<(Value, int), DecodeError>
{
    match r {
        Ok((v, o)) => Ok((value_view(v, d), o as int)),
        Err(x) => Err(x),
    }
}


proof fn lemma_nodes_append(a: Seq<Element>, b: Seq<Element>, d: nat)
    ensures
        nodes_view(a + b, d) == nodes_view(a, d) + nodes_view(b, d),
{
    assert(nodes_view(a + b, d) =~= nodes_view(a, d) + nodes_view(b, d));
}

proof fn lemma_nodes_push(a: Seq<Element>, x: Element, d: nat)
    ensures
        nodes_view(a.push(x), d) == nodes_view(a, d) + seq![node_view(x, d)],
{
    assert(nodes_view(a.push(x), d) =~= nodes_view(a, d) + seq![node_view(x, d)]);
}

proof fn lemma_lists_push(a: Seq<Vec<Element>>, x: Vec<Element>, d: nat)
    ensures
        lists_view(a.push(x), d) == lists_view(a, d) + seq![nodes_view(x@, d)],
{
    assert(lists_view(a.push(x), d) =~= lists_view(a, d) + seq![nodes_view(x@, d)]);
}

proof fn lemma_items_push(a: Seq<ElementType>, x: ElementType, d: nat)
    ensures
        items_view(a.push(x), d) == items_view(a, d) + seq![item_view(x, d)],
{
    assert(items_view(a.push(x), d) =~= items_view(a, d) + seq![item_view(x, d)]);
}

proof fn lemma_prepend_nodes(p: Seq<Node>, q: Seq<Node>, r: Result<(Seq<Node>, int), DecodeError>)
    ensures
        prepend_nodes(p, prepend_nodes(q, r)) == prepend_nodes(p + q, r),
{
    if let Ok((s, o)) = r {
        assert(p + (q + s) =~= (p + q) + s);
    }
}

proof fn lemma_prepend_lists(p: Seq<Seq<Node>>, q: Seq<Seq<Node>>, r: Result<(Seq<Seq<Node>>, int), DecodeError>)
    ensures
        prepend_lists(p, prepend_lists(q, r)) == prepend_lists(p + q, r),
{
    if let Ok((s, o)) = r {
        assert(p + (q + s) =~= (p + q) + s);
    }
}

proof fn lemma_prepend_values(p: Seq<Value>, q: Seq<Value>, r: Result<(Seq<Value>, int), DecodeError>)
    ensures
        prepend_values(p, prepend_values(q, r)) == prepend_values(p + q, r),
{
    if let Ok((s, o)) = r {
        assert(p + (q + s) =~= (p + q) + s);
    }
}

/// The fixup of `s` at `off`, for offsets of any size.
fn fixup_at(s: &Sector, off: u64) -> (r: Option<Pointer>)
    ensures
        r == s@.fixup(off as int),
{
    if off > u32::MAX as u64 {
        None
    } else {
        s.resolve_pointer(off as usize)
    }
}

/// Reads the type record at `offset` of the type sector. The two pointer slots' own values are
/// not used: their targets come from the sector's fixups at `offset + 4` and `offset + 8`
/// (or `offset + 12` in 64-bit files).
pub fn parse_type_info(e: Endianness, type_sector: &Sector, wide: bool, offset: usize) -> (r: Result<TypeInfo, DecodeError>)
    ensures
        r == type_info_spec(type_sector@, offset as int, wide, e),
{
    let b = type_sector.data.as_slice();
    let len: usize = if wide { 44 } else { 32 };
    let w: u64 = if wide { 8 } else { 4 };
    if offset > b.len() || len > b.len() - offset {
        return Err(DecodeError::ShortInput);
    }
    let type_id = read_u32(b, offset, e).unwrap();
    let array_size = read_i32(b, offset + 4 + 2 * (w as usize), e).unwrap();
    let name_offset = fixup_at(type_sector, offset as u64 + 4);
    let children_offset = fixup_at(type_sector, offset as u64 + 4 + w);
    Ok(TypeInfo { type_id, name_offset, children_offset, array_size })
}

/// Reads the zero-terminated UTF-8 string that `p` points at.
pub fn parse_string(sectors: &Vec<Sector>, p: Pointer) -> (r: Result<String, DecodeError>)
    ensures
        match r {
            Ok(s) => string_spec(sectors_view(sectors@), p) == Ok::<Seq<char>, DecodeError>(s@),
            Err(x) => string_spec(sectors_view(sectors@), p) == Err::<Seq<char>, DecodeError>(x),
        },
{
    if p.dst_sector as usize >= sectors.len() {
        return Err(DecodeError::SectorOutOfRange(p.dst_sector));
    }
    let b = sectors[p.dst_sector as usize].data.as_slice();
    let start = p.dst_offset as usize;
    if start > b.len() {
        return Err(DecodeError::OffsetOutOfRange);
    }
    let mut end: usize = start;
    while end < b.len() && b[end] != 0
        invariant
            start <= end <= b@.len(),
            zero_from(b@, start as int) == zero_from(b@, end as int),
        decreases b@.len() - end,
    {
        end = end + 1;
    }
    assert(cstring_bytes(b@, start as int) == b@.subrange(start as int, end as int));
    match text_from_utf8(slice_subrange(b, start, end)) {
        Some(s) => Ok(s),
        None => Err(DecodeError::InvalidUtf8),
    }
}

fn parse_name(sectors: &Vec<Sector>, p: Option<Pointer>) -> (r: Result<String, DecodeError>)
    ensures
        match r {
            Ok(s) => name_spec(sectors_view(sectors@), p) == Ok::<Seq<char>, DecodeError>(s@),
            Err(x) => name_spec(sectors_view(sectors@), p) == Err::<Seq<char>, DecodeError>(x),
        },
{
    match p {
        Some(p) => parse_string(sectors, p),
        None => Ok(String::new()),
    }
}

/// Decodes the member list whose data starts at `data_offset` of sector `data_sector_id` and
/// whose type records start at `type_offset` of sector `type_sector_id`, following nested
/// structures down `depth` levels. Returns the offset where the list's data ends, and the list.
pub fn parse_element_at(
    e: Endianness,
    wide: bool,
    sectors: &Vec<Sector>,
    data_sector_id: u32,
    type_sector_id: u32,
    data_offset: usize,
    type_offset: u32,
    depth: u32,
) -> (r: Result<(usize, Vec<Element>), DecodeError>)
    ensures
        list_result(r, depth as nat) == list_spec(sectors_view(sectors@), wide, e, data_sector_id as int,
            type_sector_id as int, data_offset as int, type_offset as int, depth as nat),
    decreases depth, 4nat,
{
    let ghost ss = sectors_view(sectors@);
    let ghost d = depth as nat;
    let ghost ds = data_sector_id as int;
    let ghost ts = type_sector_id as int;
    if data_sector_id as usize >= sectors.len() {
        return Err(DecodeError::SectorOutOfRange(data_sector_id));
    }
    if type_sector_id as usize >= sectors.len() {
        return Err(DecodeError::SectorOutOfRange(type_sector_id));
    }
    let type_sector = &sectors[type_sector_id as usize];
    if data_offset > sectors[data_sector_id as usize].data.len()
        || type_offset as usize > type_sector.data.len() {
        return Err(DecodeError::OffsetOutOfRange);
    }
    let record: usize = if wide { 44 } else { 32 };
    // Its length is a usize: the offset arithmetic below cannot overflow.
    let _ = type_sector.data.len();
    let mut data: usize = data_offset;
    let mut t: usize = type_offset as usize;
    let mut elements: Vec<Element> = Vec::new();
    assert(nodes_view(elements@, d) =~= Seq::<Node>::empty());
    assert(prepend_nodes(Seq::empty(), members_spec(ss, wide, e, ds, ts, data as int, t as int, d))
        =~= members_spec(ss, wide, e, ds, ts, data as int, t as int, d));
    loop
        invariant
            ss == sectors_view(sectors@),
            d == depth as nat,
            ds == data_sector_id as int,
            ts == type_sector_id as int,
            0 <= ds < ss.len(),
            0 <= ts < ss.len(),
            type_sector@ == ss[ts],
            record == type_record_len(wide),
            t <= ss[ts].data.len() <= usize::MAX,
            list_spec(ss, wide, e, ds, ts, data_offset as int, type_offset as int, d)
                == prepend_nodes(nodes_view(elements@, d), members_spec(ss, wide, e, ds, ts, data as int, t as int, d)),
        decreases ss[ts].data.len() - t,
    {
        let ghost before = elements@;
        let ti = match parse_type_info(e, type_sector, wide, t) {
            Ok(ti) => ti,
            Err(x) => return Err(x),
        };
        assert(t + record <= ss[ts].data.len());
        if ti.type_id == 0 || ti.type_id > 22 {
            assert(nodes_view(before, d) + Seq::<Node>::empty() =~= nodes_view(before, d));
            return Ok((data, elements));
        }
        let name = match parse_name(sectors, ti.name_offset) {
            Ok(n) => n,
            Err(x) => return Err(x),
        };
        let (value, next) = match parse_member_value(e, wide, sectors, data_sector_id, &ti, data, depth) {
            Ok(v) => v,
            Err(x) => return Err(x),
        };
        let ghost node = Node { name: name@, value: value_view(value, d) };
        let element = Element { name, element: value };
        assert(node_view(element, d) == node);
        elements.push(element);
        proof {
            lemma_nodes_push(before, element, d);
            lemma_prepend_nodes(nodes_view(before, d), seq![node],
                members_spec(ss, wide, e, ds, ts, next as int, t + record, d));
        }
        data = next;
        t = t + record;
    }
}

/// Decodes the member list at the given data and type coordinates, nested structures followed
/// down to the decoder's depth limit. Returns the offset where the list's data ends, and the list.
pub fn parse_element(
    e: Endianness,
    wide: bool,
    sectors: &Vec<Sector>,
    data_sector_id: u32,
    type_sector_id: u32,
    data_offset: u32,
    type_offset: u32,
) -> (r: Result<(usize, Vec<Element>), DecodeError>)
    ensures
        list_result(r, MAX_DEPTH as nat) == list_spec(sectors_view(sectors@), wide, e, data_sector_id as int,
            type_sector_id as int, data_offset as int, type_offset as int, MAX_DEPTH as nat),
{
    parse_element_at(e, wide, sectors, data_sector_id, type_sector_id, data_offset as usize, type_offset, MAX_DEPTH)
}

/// A member's value: `array_size` values of its type in an `Array`, or a single one.
fn parse_member_value(
    e: Endianness,
    wide: bool,
    sectors: &Vec<Sector>,
    data_sector_id: u32,
    ti: &TypeInfo,
    data_offset: usize,
    depth: u32,
) -> (r: Result<(ElementType, usize), DecodeError>)
    ensures
        value_result(r, depth as nat) == member_value_spec(sectors_view(sectors@), wide, e, data_sector_id as int,
            *ti, data_offset as int, depth as nat),
    decreases depth, 3nat,
{
    if ti.array_size <= 0 {
        let r = parse_element_data(e, wide, sectors, data_sector_id, ti, data_offset, depth);
        return r;
    }
    let ghost ss = sectors_view(sectors@);
    let ghost d = depth as nat;
    let ghost ds = data_sector_id as int;
    let ghost n = ti.array_size as nat;
    let count: u32 = ti.array_size as u32;
    let mut items: Vec<ElementType> = Vec::new();
    let mut data: usize = data_offset;
    let mut k: u32 = 0;
    assert(prepend_values(items_view(items@, d), values_spec(ss, wide, e, ds, *ti, data as int, d, n))
        =~= values_spec(ss, wide, e, ds, *ti, data as int, d, n));
    while k < count
        invariant
            ss == sectors_view(sectors@),
            d == depth as nat,
            ds == data_sector_id as int,
            n == ti.array_size as nat,
            ti.array_size > 0,
            count as nat == n,
            k <= count,
            values_spec(ss, wide, e, ds, *ti, data_offset as int, d, n)
                == prepend_values(items_view(items@, d), values_spec(ss, wide, e, ds, *ti, data as int, d, (n - k) as nat)),
        decreases count - k,
    {
        let ghost before = items@;
        let ghost rest = (n - k) as nat;
        let (v, next) = match parse_element_data(e, wide, sectors, data_sector_id, ti, data, depth) {
            Ok(x) => x,
            Err(x) => {
                assert(values_spec(ss, wide, e, ds, *ti, data as int, d, rest)
                    == Err::<(Seq<Value>, int), DecodeError>(x));
                return Err(x);
            },
        };
        assert(values_spec(ss, wide, e, ds, *ti, data as int, d, rest) == prepend_values(
            seq![value_view(v, d)], values_spec(ss, wide, e, ds, *ti, next as int, d, (rest - 1) as nat)));
        assert(value_view(v, d) == item_view(v, d));
        items.push(v);
        proof {
            lemma_items_push(before, v, d);
            lemma_prepend_values(items_view(before, d), seq![item_view(v, d)],
                values_spec(ss, wide, e, ds, *ti, next as int, d, (n - k - 1) as nat));
        }
        data = next;
        k = k + 1;
    }
    assert(values_spec(ss, wide, e, ds, *ti, data as int, d, (n - k) as nat)
        == Ok::<(Seq<Value>, int), DecodeError>((Seq::empty(), data as int)));
    assert(items_view(items@, d) + Seq::<Value>::empty() =~= items_view(items@, d));
    Ok((ElementType::Array(items), data))
}

/// Reads the 68-byte transform record at `pos`.
fn read_transform(b: &[u8], pos: usize, e: Endianness) -> (t: Transform)
    requires
        pos + 68 <= b@.len(),
    ensures
        transform_words(t) == Seq::new(17, |i: int| u32_at(b@, pos + 4 * i, e)),
{
    // Its length is a usize: the offset arithmetic below cannot overflow.
    let _ = b.len();
    let t = Transform {
        flags: read_u32(b, pos, e).unwrap(),
        translation: [
            read_u32(b, pos + 4, e).unwrap(),
            read_u32(b, pos + 8, e).unwrap(),
            read_u32(b, pos + 12, e).unwrap(),
        ],
        rotation: [
            read_u32(b, pos + 16, e).unwrap(),
            read_u32(b, pos + 20, e).unwrap(),
            read_u32(b, pos + 24, e).unwrap(),
            read_u32(b, pos + 28, e).unwrap(),
        ],
        scale_shear: [
            [read_u32(b, pos + 32, e).unwrap(), read_u32(b, pos + 36, e).unwrap(), read_u32(b, pos + 40, e).unwrap()],
            [read_u32(b, pos + 44, e).unwrap(), read_u32(b, pos + 48, e).unwrap(), read_u32(b, pos + 52, e).unwrap()],
            [read_u32(b, pos + 56, e).unwrap(), read_u32(b, pos + 60, e).unwrap(), read_u32(b, pos + 64, e).unwrap()],
        ],
    };
    assert(transform_words(t) =~= Seq::new(17, |i: int| u32_at(b@, pos + 4 * i, e)));
    t
}

/// One value of the type `ti` at `data_offset` of sector `data_sector_id`.
#[verifier::rlimit(100)]
#[verifier::spinoff_prover]
fn parse_element_data(
    e: Endianness,
    wide: bool,
    sectors: &Vec<Sector>,
    data_sector_id: u32,
    ti: &TypeInfo,
    data_offset: usize,
    depth: u32,
) -> (r: Result<(ElementType, usize), DecodeError>)
    ensures
        value_result(r, depth as nat) == value_spec(sectors_view(sectors@), wide, e, data_sector_id as int, *ti,
            data_offset as int, depth as nat),
        r matches Ok((v, _)) ==> !(v is Array),
    decreases depth, 2nat,
{
    let ghost ss = sectors_view(sectors@);
    let ghost d = depth as nat;
    let id = ti.type_id;
    let w: usize = if wide { 8 } else { 4 };
    let size: usize = if id == 2 || id == 8 {
        w
    } else if id == 3 || id == 4 {
        4 + w
    } else if id == 5 {
        2 * w
    } else if id == 7 {
        2 * w + 4
    } else if id == 9 {
        68
    } else if id == 10 || id == 19 {
        4
    } else if id == 12 || id == 14 {
        1
    } else {
        0
    };
    if !(id == 1 || id == 2 || id == 3 || id == 4 || id == 5 || id == 7 || id == 8 || id == 9
        || id == 10 || id == 12 || id == 14 || id == 19) {
        return Err(DecodeError::UnknownTypeId(id));
    }
    if data_sector_id as usize >= sectors.len() {
        return Err(DecodeError::SectorOutOfRange(data_sector_id));
    }
    let sector = &sectors[data_sector_id as usize];
    let b = sector.data.as_slice();
    if data_offset > b.len() || size > b.len() - data_offset {
        return Err(DecodeError::ShortInput);
    }
    let pos = data_offset;
    let next = data_offset + size;
    if id == 1 || id == 5 {
        Ok((ElementType::VariantReference, next))
    } else if id == 2 {
        parse_reference_value(e, wide, sectors, data_sector_id, ti, data_offset, depth)
    } else if id == 3 {
        parse_inline_run(e, wide, sectors, data_sector_id, ti, data_offset, depth)
    } else if id == 4 {
        parse_indirect_value(e, wide, sectors, data_sector_id, ti, data_offset, depth)
    } else if id == 7 {
        parse_explicit_lists(e, wide, sectors, data_sector_id, ti, data_offset, depth)
    } else if id == 8 {
        match fixup_at(sector, pos as u64) {
            None => Err(DecodeError::MissingFixup(pos as u32)),
            Some(p) => match parse_string(sectors, p) {
                Err(x) => Err(x),
                Ok(s) => Ok((ElementType::String(s), next)),
            },
        }
    } else if id == 9 {
        let t = read_transform(b, pos, e);
        Ok((ElementType::Transform(t), next))
    } else if id == 10 {
        Ok((ElementType::F32(read_u32(b, pos, e).unwrap()), next))
    } else if id == 12 || id == 14 {
        Ok((ElementType::U8(b[pos]), next))
    } else {
        Ok((ElementType::I32(read_i32(b, pos, e).unwrap()), next))
    }
}

/// A structure reference (type id 2): one pointer slot whose fixup leads to the structure's data.
#[verifier::rlimit(50)]
fn parse_reference_value(
    e: Endianness,
    wide: bool,
    sectors: &Vec<Sector>,
    data_sector_id: u32,
    ti: &TypeInfo,
    data_offset: usize,
    depth: u32,
) -> (r: Result<(ElementType, usize), DecodeError>)
    requires
        ti.type_id == 2,
        (data_sector_id as int) < sectors@.len(),
        data_offset + value_len(2, wide) <= sectors@[data_sector_id as int].data@.len(),
    ensures
        value_result(r, depth as nat) == value_spec(sectors_view(sectors@), wide, e, data_sector_id as int, *ti,
            data_offset as int, depth as nat),
        r matches Ok((v, _)) ==> !(v is Array),
    decreases depth, 1nat,
{
    let ghost d = depth as nat;
    let w: usize = if wide { 8 } else { 4 };
    let sector = &sectors[data_sector_id as usize];
    let b = sector.data.as_slice();
    // Its length is a usize: the offset arithmetic below cannot overflow.
    let _ = b.len();
    let pos = data_offset;
    let next = data_offset + w;
    match fixup_at(sector, pos as u64) {
        None => {
            let l: Vec<Element> = Vec::new();
            assert(nodes_view(l@, (d - 1) as nat) =~= Seq::<Node>::empty());
            Ok((ElementType::Reference(l), next))
        },
        Some(p) => match ti.children_offset {
            None => Err(DecodeError::MissingFixup(pos as u32)),
            Some(c) => {
                if depth == 0 {
                    return Err(DecodeError::RecursionLimit);
                }
                match parse_element_at(e, wide, sectors, p.dst_sector, c.dst_sector, p.dst_offset as usize,
                    c.dst_offset, depth - 1) {
                    Err(x) => Err(x),
                    Ok((_, l)) => Ok((ElementType::Reference(l), next)),
                }
            },
        },
    }
}

/// A counted reference (type id 3): a count and a pointer slot; that many member lists laid one
/// after the other at the target, joined into one list.
#[verifier::rlimit(50)]
fn parse_inline_run(
    e: Endianness,
    wide: bool,
    sectors: &Vec<Sector>,
    data_sector_id: u32,
    ti: &TypeInfo,
    data_offset: usize,
    depth: u32,
) -> (r: Result<(ElementType, usize), DecodeError>)
    requires
        ti.type_id == 3,
        (data_sector_id as int) < sectors@.len(),
        data_offset + value_len(3, wide) <= sectors@[data_sector_id as int].data@.len(),
    ensures
        value_result(r, depth as nat) == value_spec(sectors_view(sectors@), wide, e, data_sector_id as int, *ti,
            data_offset as int, depth as nat),
        r matches Ok((v, _)) ==> !(v is Array),
    decreases depth, 1nat,
{
    let ghost d = depth as nat;
    let w: usize = if wide { 8 } else { 4 };
    let sector = &sectors[data_sector_id as usize];
    let b = sector.data.as_slice();
    // Its length is a usize: the offset arithmetic below cannot overflow.
    let _ = b.len();
    let pos = data_offset;
    let next = data_offset + 4 + w;
    let count = read_u32(b, pos, e).unwrap();
    match fixup_at(sector, pos as u64 + 4) {
        Some(p) => {
            if count == 0 {
                let l: Vec<Element> = Vec::new();
                assert(nodes_view(l@, (d - 1) as nat) =~= Seq::<Node>::empty());
                return Ok((ElementType::Reference(l), next));
            }
            match ti.children_offset {
                None => Err(DecodeError::MissingFixup(pos as u32)),
                Some(c) => match parse_run(e, wide, sectors, p.dst_sector, c, p.dst_offset as usize, depth, count) {
                    Err(x) => Err(x),
                    Ok(l) => Ok((ElementType::Reference(l), next)),
                },
            }
        },
        None => {
            let l: Vec<Element> = Vec::new();
            assert(nodes_view(l@, (d - 1) as nat) =~= Seq::<Node>::empty());
            Ok((ElementType::Reference(l), next))
        },
    }
}

/// An indirect array (type id 4): a count and a pointer slot to a table of pointer slots, one
/// per member list.
#[verifier::rlimit(50)]
fn parse_indirect_value(
    e: Endianness,
    wide: bool,
    sectors: &Vec<Sector>,
    data_sector_id: u32,
    ti: &TypeInfo,
    data_offset: usize,
    depth: u32,
) -> (r: Result<(ElementType, usize), DecodeError>)
    requires
        ti.type_id == 4,
        (data_sector_id as int) < sectors@.len(),
        data_offset + value_len(4, wide) <= sectors@[data_sector_id as int].data@.len(),
    ensures
        value_result(r, depth as nat) == value_spec(sectors_view(sectors@), wide, e, data_sector_id as int, *ti,
            data_offset as int, depth as nat),
        r matches Ok((v, _)) ==> !(v is Array),
    decreases depth, 1nat,
{
    let ghost d = depth as nat;
    let w: usize = if wide { 8 } else { 4 };
    let sector = &sectors[data_sector_id as usize];
    let b = sector.data.as_slice();
    // Its length is a usize: the offset arithmetic below cannot overflow.
    let _ = b.len();
    let pos = data_offset;
    let next = data_offset + 4 + w;
    let count = read_u32(b, pos, e).unwrap();
    match fixup_at(sector, pos as u64 + 4) {
        None => {
            if count > 0 {
                return Err(DecodeError::MissingFixup((pos + 4) as u32));
            }
            let l: Vec<Vec<Element>> = Vec::new();
            assert(lists_view(l@, (d - 1) as nat) =~= Seq::<Seq<Node>>::empty());
            Ok((ElementType::ArrayOfReferences(l), next))
        },
        Some(p) => match ti.children_offset {
            None => Err(DecodeError::MissingFixup(pos as u32)),
            Some(c) => {
                if p.dst_sector as usize >= sectors.len() {
                    return Err(DecodeError::SectorOutOfRange(p.dst_sector));
                }
                if p.dst_offset as usize > sectors[p.dst_sector as usize].data.len() {
                    return Err(DecodeError::OffsetOutOfRange);
                }
                match parse_indirect(e, wide, sectors, p, c, depth, count) {
                    Err(x) => Err(x),
                    Ok(l) => Ok((ElementType::ArrayOfReferences(l), next)),
                }
            },
        },
    }
}

/// An explicit array (type id 7): a member-type pointer, a count and a data pointer; that many
/// member lists laid one after the other at the data pointer.
#[verifier::rlimit(50)]
fn parse_explicit_lists(
    e: Endianness,
    wide: bool,
    sectors: &Vec<Sector>,
    data_sector_id: u32,
    ti: &TypeInfo,
    data_offset: usize,
    depth: u32,
) -> (r: Result<(ElementType, usize), DecodeError>)
    requires
        ti.type_id == 7,
        (data_sector_id as int) < sectors@.len(),
        data_offset + value_len(7, wide) <= sectors@[data_sector_id as int].data@.len(),
    ensures
        value_result(r, depth as nat) == value_spec(sectors_view(sectors@), wide, e, data_sector_id as int, *ti,
            data_offset as int, depth as nat),
        r matches Ok((v, _)) ==> !(v is Array),
    decreases depth, 1nat,
{
    let ghost d = depth as nat;
    let w: usize = if wide { 8 } else { 4 };
    let sector = &sectors[data_sector_id as usize];
    let b = sector.data.as_slice();
    // Its length is a usize: the offset arithmetic below cannot overflow.
    let _ = b.len();
    let pos = data_offset;
    let next = data_offset + 2 * w + 4;
    match fixup_at(sector, pos as u64) {
        None => Err(DecodeError::MissingFixup(pos as u32)),
        Some(tp) => match fixup_at(sector, (pos + w + 4) as u64) {
            None => Err(DecodeError::MissingFixup((pos + w + 4) as u32)),
            Some(dp) => {
                let count = read_u32(b, pos + w, e).unwrap();
                match parse_lists(e, wide, sectors, dp.dst_sector, tp, dp.dst_offset as usize, depth, count) {
                    Err(x) => Err(x),
                    Ok(l) => Ok((ElementType::ArrayOfReferences(l), next)),
                }
            },
        },
    }
}

/// `count` member lists typed at `c`, one after the other from `offset` of sector
/// `data_sector_id`, joined into one list.
fn parse_run(
    e: Endianness,
    wide: bool,
    sectors: &Vec<Sector>,
    data_sector_id: u32,
    c: Pointer,
    offset: usize,
    depth: u32,
    count: u32,
) -> (r: Result<Vec<Element>, DecodeError>)
    requires
        depth > 0 || count > 0,
    ensures
        match r {
            Ok(l) => depth > 0 && (run_spec(sectors_view(sectors@), wide, e, data_sector_id as int, c, offset as int,
                depth as nat, count as nat) matches Ok((m, _)) && m == nodes_view(l@, (depth - 1) as nat)),
            Err(x) => run_spec(sectors_view(sectors@), wide, e, data_sector_id as int, c, offset as int, depth as nat,
                count as nat) == Err::<(Seq<Node>, int), DecodeError>(x),
        },
    decreases depth, 0nat,
{
    let ghost ss = sectors_view(sectors@);
    let ghost ds = data_sector_id as int;
    let ghost n = count as nat;
    if depth == 0 {
        return Err(DecodeError::RecursionLimit);
    }
    let ghost d1 = (depth - 1) as nat;
    let mut elements: Vec<Element> = Vec::new();
    let mut data: usize = offset;
    let mut k: u32 = 0;
    assert(prepend_nodes(nodes_view(elements@, d1), run_spec(ss, wide, e, ds, c, data as int, depth as nat, n))
        =~= run_spec(ss, wide, e, ds, c, data as int, depth as nat, n));
    while k < count
        invariant
            ss == sectors_view(sectors@),
            ds == data_sector_id as int,
            depth > 0,
            d1 == depth - 1,
            k <= count,
            count as nat == n,
            run_spec(ss, wide, e, ds, c, offset as int, depth as nat, n)
                == prepend_nodes(nodes_view(elements@, d1), run_spec(ss, wide, e, ds, c, data as int, depth as nat, (n - k) as nat)),
        decreases count - k,
    {
        let ghost before = elements@;
        let ghost rest = (n - k) as nat;
        assert(rest > 0);
        let (end, mut l) = match parse_element_at(e, wide, sectors, data_sector_id, c.dst_sector, data,
            c.dst_offset, depth - 1) {
            Ok(x) => x,
            Err(x) => {
                assert(list_spec(ss, wide, e, ds, c.dst_sector as int, data as int, c.dst_offset as int, d1)
                    == Err::<(Seq<Node>, int), DecodeError>(x));
                assert(run_spec(ss, wide, e, ds, c, data as int, depth as nat, rest)
                    == Err::<(Seq<Node>, int), DecodeError>(x));
                return Err(x);
            },
        };
        let ghost part = l@;
        assert(run_spec(ss, wide, e, ds, c, data as int, depth as nat, rest) == prepend_nodes(
            nodes_view(part, d1), run_spec(ss, wide, e, ds, c, end as int, depth as nat, (rest - 1) as nat)));
        elements.append(&mut l);
        proof {
            lemma_nodes_append(before, part, d1);
            lemma_prepend_nodes(nodes_view(before, d1), nodes_view(part, d1),
                run_spec(ss, wide, e, ds, c, end as int, depth as nat, (n - k - 1) as nat));
        }
        data = end;
        k = k + 1;
    }
    assert(run_spec(ss, wide, e, ds, c, data as int, depth as nat, (n - k) as nat)
        == Ok::<(Seq<Node>, int), DecodeError>((Seq::empty(), data as int)));
    assert(nodes_view(elements@, d1) + Seq::<Node>::empty() =~= nodes_view(elements@, d1));
    Ok(elements)
}

/// `count` member lists typed at `c`, one after the other from `offset` of sector
/// `data_sector_id`.
fn parse_lists(
    e: Endianness,
    wide: bool,
    sectors: &Vec<Sector>,
    data_sector_id: u32,
    c: Pointer,
    offset: usize,
    depth: u32,
    count: u32,
) -> (r: Result<Vec<Vec<Element>>, DecodeError>)
    ensures
        match r {
            Ok(l) => (lists_spec(sectors_view(sectors@), wide, e, data_sector_id as int, c, offset as int,
                depth as nat, count as nat) matches Ok((m, _)) && m == item_lists(l@, depth as nat) && (depth == 0 ==> l@.len() == 0)),
            Err(x) => lists_spec(sectors_view(sectors@), wide, e, data_sector_id as int, c, offset as int, depth as nat,
                count as nat) == Err::<(Seq<Seq<Node>>, int), DecodeError>(x),
        },
    decreases depth, 0nat,
{
    let ghost ss = sectors_view(sectors@);
    let ghost ds = data_sector_id as int;
    let ghost n = count as nat;
    let ghost d = depth as nat;
    let mut lists: Vec<Vec<Element>> = Vec::new();
    let mut data: usize = offset;
    let mut k: u32 = 0;
    assert(item_lists(lists@, d) =~= Seq::<Seq<Node>>::empty());
    assert(prepend_lists(item_lists(lists@, d), lists_spec(ss, wide, e, ds, c, data as int, d, n))
        =~= lists_spec(ss, wide, e, ds, c, data as int, d, n));
    while k < count
        invariant
            ss == sectors_view(sectors@),
            d == depth as nat,
            ds == data_sector_id as int,
            depth == 0 ==> lists@.len() == 0,
            k <= count,
            count as nat == n,
            lists_spec(ss, wide, e, ds, c, offset as int, d, n)
                == prepend_lists(item_lists(lists@, d), lists_spec(ss, wide, e, ds, c, data as int, d, (n - k) as nat)),
        decreases count - k,
    {
        if depth == 0 {
            return Err(DecodeError::RecursionLimit);
        }
        let ghost before = lists@;
        let (end, l) = match parse_element_at(e, wide, sectors, data_sector_id, c.dst_sector, data,
            c.dst_offset, depth - 1) {
            Ok(x) => x,
            Err(x) => return Err(x),
        };
        let ghost part = nodes_view(l@, (d - 1) as nat);
        lists.push(l);
        proof {
            lemma_lists_push(before, l, (d - 1) as nat);
            lemma_prepend_lists(item_lists(before, d), seq![part],
                lists_spec(ss, wide, e, ds, c, end as int, d, (n - k - 1) as nat));
        }
        data = end;
        k = k + 1;
    }
    assert(lists_spec(ss, wide, e, ds, c, data as int, d, (n - k) as nat)
        == Ok::<(Seq<Seq<Node>>, int), DecodeError>((Seq::empty(), data as int)));
    assert(item_lists(lists@, d) + Seq::<Seq<Node>>::empty() =~= item_lists(lists@, d));
    Ok(lists)
}

/// Model of the lists of an `ArrayOfReferences` decoded at depth `d`.
pub open spec fn item_lists(v: Seq<Vec<Element>>, d: nat) -> Seq<Seq<Node>> {
    if d == 0 { Seq::empty() } else { lists_view(v, (d - 1) as nat) }
}

/// The `count` member lists of an indirect array: list `i` is typed at `c` and starts where
/// the fixup at slot `i` of the pointer table at `p` points.
fn parse_indirect(
    e: Endianness,
    wide: bool,
    sectors: &Vec<Sector>,
    p: Pointer,
    c: Pointer,
    depth: u32,
    count: u32,
) -> (r: Result<Vec<Vec<Element>>, DecodeError>)
    requires
        (p.dst_sector as int) < sectors@.len(),
    ensures
        match r {
            Ok(l) => (indirect_spec(sectors_view(sectors@), wide, e, p, c, depth as nat, 0, count as nat) matches Ok((m, _))
                && m == item_lists(l@, depth as nat) && (depth == 0 ==> l@.len() == 0)),
            Err(x) => indirect_spec(sectors_view(sectors@), wide, e, p, c, depth as nat, 0, count as nat)
                == Err::<(Seq<Seq<Node>>, int), DecodeError>(x),
        },
    decreases depth, 0nat,
{
    let ghost ss = sectors_view(sectors@);
    let ghost n = count as nat;
    let ghost d = depth as nat;
    let w: u64 = if wide { 8 } else { 4 };
    let table = &sectors[p.dst_sector as usize];
    let mut lists: Vec<Vec<Element>> = Vec::new();
    let mut i: u32 = 0;
    assert(item_lists(lists@, d) =~= Seq::<Seq<Node>>::empty());
    assert(prepend_lists(item_lists(lists@, d), indirect_spec(ss, wide, e, p, c, d, 0, n))
        =~= indirect_spec(ss, wide, e, p, c, d, 0, n));
    while i < count
        invariant
            ss == sectors_view(sectors@),
            d == depth as nat,
            (p.dst_sector as int) < ss.len(),
            table@ == ss[p.dst_sector as int],
            w == ptr_width(wide),
            depth == 0 ==> lists@.len() == 0,
            i <= count,
            count as nat == n,
            indirect_spec(ss, wide, e, p, c, d, 0, n)
                == prepend_lists(item_lists(lists@, d), indirect_spec(ss, wide, e, p, c, d, i as nat, n)),
        decreases count - i,
    {
        let slot: u64 = p.dst_offset as u64 + (i as u64) * w;
        let q = match fixup_at(table, slot) {
            Some(q) => q,
            None => return Err(DecodeError::MissingFixup(slot as u32)),
        };
        if depth == 0 {
            return Err(DecodeError::RecursionLimit);
        }
        let ghost before = lists@;
        let (_, l) = match parse_element_at(e, wide, sectors, q.dst_sector, c.dst_sector, q.dst_offset as usize,
            c.dst_offset, depth - 1) {
            Ok(x) => x,
            Err(x) => return Err(x),
        };
        let ghost part = nodes_view(l@, (d - 1) as nat);
        lists.push(l);
        proof {
            lemma_lists_push(before, l, (d - 1) as nat);
            lemma_prepend_lists(item_lists(before, d), seq![part],
                indirect_spec(ss, wide, e, p, c, d, (i + 1) as nat, n));
        }
        i = i + 1;
    }
    assert(item_lists(lists@, d) + Seq::<Seq<Node>>::empty() =~= item_lists(lists@, d));
    Ok(lists)
}

} // verus!
