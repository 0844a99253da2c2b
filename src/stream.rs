//! What walking the type stream and the data stream in lockstep yields: the member lists,
//! values and errors that a file's bytes determine.
use vstd::prelude::*;
use crate::bytes::{ptr_width, u32_at, i32_at, Endianness};
use crate::error::DecodeError;
use crate::model::{Node, TypeInfo, Value};
use crate::records::Pointer;
use crate::sector::SectorView;

verus! {

/// A name for what `std::str::from_utf8` makes of a byte string: the characters it encodes,
/// or `None` where the bytes are not valid UTF-8.
pub uninterp spec fn utf8_text(b: Seq<u8>) -> Option<Seq<char>>;

/// Relies on `std::str::from_utf8`: it accepts exactly the valid UTF-8 byte strings, and what it
/// returns depends on the bytes alone.
#[verifier::external_body]
pub(crate) fn text_from_utf8(b: &[u8]) -> (r: Option<String>)
    ensures
        r is Some <==> utf8_text(b@) is Some,
        r matches Some(s) ==> utf8_text(b@) == Some(s@),
{
    match std::str::from_utf8(b) {
        Ok(s) => Some(s.to_string()),
        Err(_) => None,
    }
}

/// Deepest nesting of structures that the decoder follows.
pub const MAX_DEPTH: u32 = 256;

/// Length of a type record: id, name slot, member-types slot, array size, and 16 (20 in
/// 64-bit files) reserved bytes.
pub open spec fn type_record_len(wide: bool) -> int {
    if wide { 44 } else { 32 }
}

/// The type record at `off` of the type sector `ts`.
pub open spec fn type_info_spec(ts: SectorView, off: int, wide: bool, e: Endianness) -> Result<TypeInfo, DecodeError> {
    if off + type_record_len(wide) > ts.data.len() {
        Err(DecodeError::ShortInput)
    } else {
        Ok(TypeInfo {
            type_id: u32_at(ts.data, off, e),
            name_offset: ts.fixup(off + 4),
            children_offset: ts.fixup(off + 4 + ptr_width(wide)),
            array_size: i32_at(ts.data, off + 4 + 2 * ptr_width(wide), e),
        })
    }
}

/// A type id that ends a member list.
pub open spec fn ends_list(type_id: u32) -> bool {
    type_id == 0 || type_id > 22
}

/// The first zero byte at or after `i`, or the end of `b`.
pub open spec fn zero_from(b: Seq<u8>, i: int) -> int
    decreases b.len() - i,
{
    if i >= b.len() {
        b.len() as int
    } else if b[i] == 0 {
        i
    } else {
        zero_from(b, i + 1)
    }
}

/// The bytes of the zero-terminated string at `off` (without the zero).
pub open spec fn cstring_bytes(b: Seq<u8>, off: int) -> Seq<u8> {
    b.subrange(off, zero_from(b, off))
}

/// The string that the fixup `p` points at.
pub open spec fn string_spec(ss: Seq<SectorView>, p: Pointer) -> Result<Seq<char>, DecodeError> {
    if p.dst_sector as int >= ss.len() {
        Err(DecodeError::SectorOutOfRange(p.dst_sector))
    } else if p.dst_offset as int > ss[p.dst_sector as int].data.len() {
        Err(DecodeError::OffsetOutOfRange)
    } else {
        match utf8_text(cstring_bytes(ss[p.dst_sector as int].data, p.dst_offset as int)) {
            Some(s) => Ok(s),
            None => Err(DecodeError::InvalidUtf8),
        }
    }
}

/// A member's name: the string its name fixup points at, or empty.
pub open spec fn name_spec(ss: Seq<SectorView>, p: Option<Pointer>) -> Result<Seq<char>, DecodeError> {
    match p {
        Some(p) => string_spec(ss, p),
        None => Ok(Seq::empty()),
    }
}

/// `prefix` put before the member list of `r`.
pub open spec fn prepend_nodes(prefix: Seq<Node>, r: Result<(Seq<Node>, int), DecodeError>)
    -> Result<(Seq<Node>, int), DecodeError>
{
    match r {
        Ok((s, o)) => Ok((prefix + s, o)),
        Err(x) => Err(x),
    }
}

/// `prefix` put before the lists of `r`.
pub open spec fn prepend_lists(prefix: Seq<Seq<Node>>, r: Result<(Seq<Seq<Node>>, int), DecodeError>)
    -> Result<(Seq<Seq<Node>>, int), DecodeError>
{
    match r {
        Ok((s, o)) => Ok((prefix + s, o)),
        Err(x) => Err(x),
    }
}

/// `prefix` put before the values of `r`.
pub open spec fn prepend_values(prefix: Seq<Value>, r: Result<(Seq<Value>, int), DecodeError>)
    -> Result<(Seq<Value>, int), DecodeError>
{
    match r {
        Ok((s, o)) => Ok((prefix + s, o)),
        Err(x) => Err(x),
    }
}

/// The member list whose data starts at `doff` of sector `ds` and whose type records start at
/// `toff` of sector `ts`, nested structures followed down `d` levels; with the data offset
/// where the list's data ends.
pub open spec fn list_spec(ss: Seq<SectorView>, wide: bool, e: Endianness, ds: int, ts: int, doff: int, toff: int, d: nat)
    -> Result<(Seq<Node>, int), DecodeError>
    decreases d, 5nat, 0int,
{
    if ds < 0 || ds >= ss.len() {
        Err(DecodeError::SectorOutOfRange(ds as u32))
    } else if ts < 0 || ts >= ss.len() {
        Err(DecodeError::SectorOutOfRange(ts as u32))
    } else if doff < 0 || doff > ss[ds].data.len() || toff < 0 || toff > ss[ts].data.len() {
        Err(DecodeError::OffsetOutOfRange)
    } else {
        members_spec(ss, wide, e, ds, ts, doff, toff, d)
    }
}

/// The members from the type record at `toff` on (see `list_spec`).
pub open spec fn members_spec(ss: Seq<SectorView>, wide: bool, e: Endianness, ds: int, ts: int, doff: int, toff: int, d: nat)
    -> Result<(Seq<Node>, int), DecodeError>
    decreases d, 4nat, ss[ts].data.len() - toff,
    when 0 <= ts < ss.len() && 0 <= toff
{
    match type_info_spec(ss[ts], toff, wide, e) {
        Err(x) => Err(x),
        Ok(ti) => if ends_list(ti.type_id) {
            Ok((Seq::empty(), doff))
        } else {
            match name_spec(ss, ti.name_offset) {
                Err(x) => Err(x),
                Ok(name) => match member_value_spec(ss, wide, e, ds, ti, doff, d) {
                    Err(x) => Err(x),
                    Ok((v, next)) => prepend_nodes(
                        seq![Node { name, value: v }],
                        members_spec(ss, wide, e, ds, ts, next, toff + type_record_len(wide), d),
                    ),
                },
            }
        },
    }
}

/// A member's value: `array_size` values of its type wrapped in an array, or a single one.
pub open spec fn member_value_spec(ss: Seq<SectorView>, wide: bool, e: Endianness, ds: int, ti: TypeInfo, doff: int, d: nat)
    -> Result<(Value, int), DecodeError>
    decreases d, 3nat, 0int,
{
    if ti.array_size > 0 {
        match values_spec(ss, wide, e, ds, ti, doff, d, ti.array_size as nat) {
            Err(x) => Err(x),
            Ok((vs, next)) => Ok((Value::Array(vs), next)),
        }
    } else {
        value_spec(ss, wide, e, ds, ti, doff, d)
    }
}

/// `n` values of the type `ti`, one after the other from `doff`.
pub open spec fn values_spec(ss: Seq<SectorView>, wide: bool, e: Endianness, ds: int, ti: TypeInfo, doff: int, d: nat, n: nat)
    -> Result<(Seq<Value>, int), DecodeError>
    decreases d, 2nat, n,
{
    if n == 0 {
        Ok((Seq::empty(), doff))
    } else {
        match value_spec(ss, wide, e, ds, ti, doff, d) {
            Err(x) => Err(x),
            Ok((v, next)) => prepend_values(seq![v], values_spec(ss, wide, e, ds, ti, next, d, (n - 1) as nat)),
        }
    }
}

/// Bytes of the data stream taken by one value of the type `type_id`.
pub open spec fn value_len(type_id: u32, wide: bool) -> int {
    let w = ptr_width(wide);
    if type_id == 2 || type_id == 8 {
        w
    } else if type_id == 3 || type_id == 4 {
        4 + w
    } else if type_id == 5 {
        2 * w
    } else if type_id == 7 {
        2 * w + 4
    } else if type_id == 9 {
        68
    } else if type_id == 10 || type_id == 19 {
        4
    } else if type_id == 12 || type_id == 14 {
        1
    } else {
        0
    }
}

/// A type id that the value decoder knows.
pub open spec fn known_type_id(type_id: u32) -> bool {
    type_id == 1 || type_id == 2 || type_id == 3 || type_id == 4 || type_id == 5 || type_id == 7
        || type_id == 8 || type_id == 9 || type_id == 10 || type_id == 12 || type_id == 14
        || type_id == 19
}

/// One value of the type `ti` whose data starts at `doff` of sector `ds`, with the offset
/// after it. A structure reference whose type record has no member-type fixup is reported as a
/// missing fixup at `doff`.
pub open spec fn value_spec(ss: Seq<SectorView>, wide: bool, e: Endianness, ds: int, ti: TypeInfo, doff: int, d: nat)
    -> Result<(Value, int), DecodeError>
    decreases d, 1nat, 0int,
{
    let w = ptr_width(wide);
    let id = ti.type_id;
    let next = doff + value_len(id, wide);
    if !known_type_id(id) {
        Err(DecodeError::UnknownTypeId(id))
    } else if !(0 <= ds < ss.len()) {
        Err(DecodeError::SectorOutOfRange(ds as u32))
    } else if next > ss[ds].data.len() {
        Err(DecodeError::ShortInput)
    } else {
        let sec = ss[ds];
        let b = sec.data;
        if id == 1 || id == 5 {
            Ok((Value::VariantReference, next))
        } else if id == 2 {
            match sec.fixup(doff) {
                None => Ok((Value::Reference(Seq::empty()), next)),
                Some(p) => match ti.children_offset {
                    None => Err(DecodeError::MissingFixup(doff as u32)),
                    Some(c) => if d == 0 {
                        Err(DecodeError::RecursionLimit)
                    } else {
                        match list_spec(ss, wide, e, p.dst_sector as int, c.dst_sector as int,
                            p.dst_offset as int, c.dst_offset as int, (d - 1) as nat) {
                            Err(x) => Err(x),
                            Ok((l, _)) => Ok((Value::Reference(l), next)),
                        }
                    },
                },
            }
        } else if id == 3 {
            let size = u32_at(b, doff, e);
            match sec.fixup(doff + 4) {
                Some(p) => if size > 0 {
                    match ti.children_offset {
                        None => Err(DecodeError::MissingFixup(doff as u32)),
                        Some(c) => match run_spec(ss, wide, e, p.dst_sector as int, c, p.dst_offset as int, d, size as nat) {
                            Err(x) => Err(x),
                            Ok((l, _)) => Ok((Value::Reference(l), next)),
                        },
                    }
                } else {
                    Ok((Value::Reference(Seq::empty()), next))
                },
                None => Ok((Value::Reference(Seq::empty()), next)),
            }
        } else if id == 4 {
            let size = u32_at(b, doff, e);
            match sec.fixup(doff + 4) {
                None => if size > 0 {
                    Err(DecodeError::MissingFixup((doff + 4) as u32))
                } else {
                    Ok((Value::ArrayOfReferences(Seq::empty()), next))
                },
                Some(p) => match ti.children_offset {
                    None => Err(DecodeError::MissingFixup(doff as u32)),
                    Some(c) => if p.dst_sector as int >= ss.len() {
                        Err(DecodeError::SectorOutOfRange(p.dst_sector))
                    } else if p.dst_offset as int > ss[p.dst_sector as int].data.len() {
                        Err(DecodeError::OffsetOutOfRange)
                    } else {
                        match indirect_spec(ss, wide, e, p, c, d, 0, size as nat) {
                            Err(x) => Err(x),
                            Ok((ls, _)) => Ok((Value::ArrayOfReferences(ls), next)),
                        }
                    },
                },
            }
        } else if id == 7 {
            match sec.fixup(doff) {
                None => Err(DecodeError::MissingFixup(doff as u32)),
                Some(tp) => match sec.fixup(doff + w + 4) {
                    None => Err(DecodeError::MissingFixup((doff + w + 4) as u32)),
                    Some(dp) => match lists_spec(ss, wide, e, dp.dst_sector as int, tp, dp.dst_offset as int, d,
                        u32_at(b, doff + w, e) as nat) {
                        Err(x) => Err(x),
                        Ok((ls, _)) => Ok((Value::ArrayOfReferences(ls), next)),
                    },
                },
            }
        } else if id == 8 {
            match sec.fixup(doff) {
                None => Err(DecodeError::MissingFixup(doff as u32)),
                Some(p) => match string_spec(ss, p) {
                    Err(x) => Err(x),
                    Ok(s) => Ok((Value::Str(s), next)),
                },
            }
        } else if id == 9 {
            Ok((Value::Transform(Seq::new(17, |i: int| u32_at(b, doff + 4 * i, e))), next))
        } else if id == 10 {
            Ok((Value::F32(u32_at(b, doff, e)), next))
        } else if id == 12 || id == 14 {
            Ok((Value::U8(b[doff]), next))
        } else {
            Ok((Value::I32(i32_at(b, doff, e)), next))
        }
    }
}

/// `n` member lists typed at `c`, laid one after the other from `off` of sector `ds`,
/// their members joined into one list.
pub open spec fn run_spec(ss: Seq<SectorView>, wide: bool, e: Endianness, ds: int, c: Pointer, off: int, d: nat, n: nat)
    -> Result<(Seq<Node>, int), DecodeError>
    decreases d, 0nat, n,
{
    if n == 0 {
        Ok((Seq::empty(), off))
    } else if d == 0 {
        Err(DecodeError::RecursionLimit)
    } else {
        match list_spec(ss, wide, e, ds, c.dst_sector as int, off, c.dst_offset as int, (d - 1) as nat) {
            Err(x) => Err(x),
            Ok((l, next)) => prepend_nodes(l, run_spec(ss, wide, e, ds, c, next, d, (n - 1) as nat)),
        }
    }
}

/// `n` member lists typed at `c`, laid one after the other from `off` of sector `ds`.
pub open spec fn lists_spec(ss: Seq<SectorView>, wide: bool, e: Endianness, ds: int, c: Pointer, off: int, d: nat, n: nat)
    -> Result<(Seq<Seq<Node>>, int), DecodeError>
    decreases d, 0nat, n,
{
    if n == 0 {
        Ok((Seq::empty(), off))
    } else if d == 0 {
        Err(DecodeError::RecursionLimit)
    } else {
        match list_spec(ss, wide, e, ds, c.dst_sector as int, off, c.dst_offset as int, (d - 1) as nat) {
            Err(x) => Err(x),
            Ok((l, next)) => prepend_lists(seq![l], lists_spec(ss, wide, e, ds, c, next, d, (n - 1) as nat)),
        }
    }
}

/// The member lists `i..n` of an indirect array: list `k` is typed at `c` and starts where the
/// fixup at slot `k` of the pointer table at `p` points.
pub open spec fn indirect_spec(ss: Seq<SectorView>, wide: bool, e: Endianness, p: Pointer, c: Pointer, d: nat, i: nat, n: nat)
    -> Result<(Seq<Seq<Node>>, int), DecodeError>
    decreases d, 0nat, n - i,
    when 0 <= p.dst_sector < ss.len()
{
    if i >= n {
        Ok((Seq::empty(), 0))
    } else {
        let slot = p.dst_offset as int + i * ptr_width(wide);
        match ss[p.dst_sector as int].fixup(slot) {
            None => Err(DecodeError::MissingFixup(slot as u32)),
            Some(q) => if d == 0 {
                Err(DecodeError::RecursionLimit)
            } else {
                match list_spec(ss, wide, e, q.dst_sector as int, c.dst_sector as int, q.dst_offset as int,
                    c.dst_offset as int, (d - 1) as nat) {
                    Err(x) => Err(x),
                    Ok((l, _)) => prepend_lists(seq![l], indirect_spec(ss, wide, e, p, c, d, i + 1, n)),
                }
            },
        }
    }
}

} // verus!
