//! Properties of decoding that hold for every input.
use vstd::prelude::*;
use crate::bytes::{ptr_width, u32_at, Endianness};
use crate::error::DecodeError;
use crate::model::{Element, ElementType, Node, TypeInfo, Value};
use crate::path::{dot_from, first_named, resolve_spec};
use crate::records::{header_spec, known_magic, Header, Pointer, SectorInfo};
use crate::sector::{sector_spec, SectorView, COMPRESSION_NONE};
use crate::stream::{cstring_bytes, list_spec, type_record_len, value_spec, zero_from};

verus! {

/// A member list whose first type record has type id 0 is empty, and takes no data.
pub proof fn lemma_empty_type_list(ss: Seq<SectorView>, wide: bool, e: Endianness, ds: int, ts: int, doff: int, toff: int, d: nat)
    requires
        0 <= ds < ss.len(),
        0 <= ts < ss.len(),
        0 <= doff <= ss[ds].data.len(),
        0 <= toff,
        toff + type_record_len(wide) <= ss[ts].data.len(),
        u32_at(ss[ts].data, toff, e) == 0,
    ensures
        list_spec(ss, wide, e, ds, ts, doff, toff, d) == Ok::<(Seq<Node>, int), DecodeError>((Seq::empty(), doff)),
{
}

/// A reference member (type id 2) whose pointer slot has no fixup decodes to an empty
/// `Reference`, and takes one pointer slot of data.
pub proof fn lemma_reference_without_fixup(ss: Seq<SectorView>, wide: bool, e: Endianness, ds: int, ti: TypeInfo, doff: int, d: nat)
    requires
        ti.type_id == 2,
        0 <= ds < ss.len(),
        0 <= doff,
        doff + ptr_width(wide) <= ss[ds].data.len(),
        ss[ds].fixup(doff) is None,
    ensures
        value_spec(ss, wide, e, ds, ti, doff, d)
            == Ok::<(Value, int), DecodeError>((Value::Reference(Seq::empty()), doff + ptr_width(wide))),
{
}

/// A sector stored with any codec but "none" is refused as unsupported.
pub proof fn lemma_compressed_sector_refused(b: Seq<u8>, e: Endianness, info: SectorInfo)
    requires
        info.compression_type != COMPRESSION_NONE,
    ensures
        sector_spec(b, e, info) == Err::<(Seq<u8>, Map<u32, Pointer>), DecodeError>(
            DecodeError::UnsupportedCodec(info.compression_type)),
{
}

/// A known signature with one byte altered is refused as a bad magic.
pub proof fn lemma_altered_magic_refused(b: Seq<u8>, m: Seq<u8>, j: int)
    requires
        known_magic(m),
        b.len() >= 16,
        0 <= j < 16,
        b[j] != m[j],
        forall|i: int| 0 <= i < 16 && i != j ==> b[i] == m[i],
    ensures
        header_spec(b) == Err::<Header, DecodeError>(DecodeError::BadMagic),
{
    let s = b.subrange(0, 16);
    assert(s[j] == b[j]);
    assert(s[0] == b[0] && s[1] == b[1]);
    if j != 0 {
        assert(b[0] == m[0]);
    } else {
        assert(b[1] == m[1]);
    }
    assert(s != m);
    assert(!known_magic(s));
}

proof fn lemma_zero_from_bounds(b: Seq<u8>, i: int)
    requires
        0 <= i <= b.len(),
    ensures
        i <= zero_from(b, i) <= b.len(),
        forall|k: int| i <= k < zero_from(b, i) ==> b[k] != 0,
    decreases b.len() - i,
{
    if i < b.len() && b[i] != 0 {
        lemma_zero_from_bounds(b, i + 1);
    }
}

/// The bytes a string member is decoded from hold no zero byte.
pub proof fn lemma_string_bytes_have_no_zero(b: Seq<u8>, off: int)
    requires
        0 <= off <= b.len(),
    ensures
        forall|k: int| 0 <= k < cstring_bytes(b, off).len() ==> #[trigger] cstring_bytes(b, off)[k] != 0,
{
    lemma_zero_from_bounds(b, off);
    assert forall|k: int| 0 <= k < cstring_bytes(b, off).len() implies #[trigger] cstring_bytes(b, off)[k] != 0 by {
        assert(cstring_bytes(b, off)[k] == b[off + k]);
    }
}

proof fn lemma_dot_after(s: Seq<char>, p: Seq<char>, i: int)
    requires
        0 <= i <= s.len(),
        p.len() > s.len(),
        p[s.len() as int] == '.',
        forall|k: int| 0 <= k < s.len() ==> p[k] == s[k] && s[k] != '.',
    ensures
        dot_from(p, i) == s.len(),
    decreases s.len() - i,
{
    if i < s.len() {
        lemma_dot_after(s, p, i + 1);
    }
}

/// Looking up `name.rest` is looking up `name` and then `rest` in the structure found there.
pub proof fn lemma_resolve_step(elems: Seq<Element>, name: Seq<char>, rest: Seq<char>)
    requires
        forall|k: int| 0 <= k < name.len() ==> name[k] != '.',
    ensures
        resolve_spec(elems, name + seq!['.'] + rest) == ({
            let i = first_named(elems, name, 0);
            if i >= elems.len() {
                None
            } else {
                match elems[i].element {
                    ElementType::Reference(children) => resolve_spec(children@, rest),
                    _ => None,
                }
            }
        }),
{
    let p = name + seq!['.'] + rest;
    lemma_dot_after(name, p, 0);
    assert(p.take(name.len() as int) =~= name);
    assert(p.skip(name.len() as int + 1) =~= rest);
}

/// Looking up a path without dots gives the value of the first member of that name.
pub proof fn lemma_resolve_last(elems: Seq<Element>, name: Seq<char>)
    requires
        forall|k: int| 0 <= k < name.len() ==> name[k] != '.',
    ensures
        resolve_spec(elems, name) == ({
            let i = first_named(elems, name, 0);
            if i >= elems.len() { None } else { Some(elems[i].element) }
        }),
{
    assert(dot_from(name, 0) == name.len()) by {
        lemma_no_dot(name, 0);
    }
    assert(name.take(name.len() as int) =~= name);
}

proof fn lemma_no_dot(p: Seq<char>, i: int)
    requires
        0 <= i <= p.len(),
        forall|k: int| 0 <= k < p.len() ==> p[k] != '.',
    ensures
        dot_from(p, i) == p.len(),
    decreases p.len() - i,
{
    if i < p.len() {
        lemma_no_dot(p, i + 1);
    }
}

} // verus!
