//! The decoded tree, both as executable values and as its mathematical model.
use vstd::prelude::*;
use crate::records::Pointer;

verus! {

/// A 68-byte transform record. Floating-point fields are kept as their IEEE-754 bit patterns,
/// exactly as stored in the file.
#[derive(Clone, Copy, Debug, PartialEq)]
pub struct Transform {
    pub flags: u32,
    pub translation: [u32; 3],
    pub rotation: [u32; 4],
    pub scale_shear: [[u32; 3]; 3],
}

/// The value of a member.
#[derive(Debug, PartialEq)]
pub enum ElementType {
    /// A single nested structure: its member list.
    Reference(Vec<Element>),
    /// A list of nested structures.
    ArrayOfReferences(Vec<Vec<Element>>),
    /// A pointer whose target is not decoded.
    VariantReference,
    String(String),
    /// A 32-bit float, as its IEEE-754 bit pattern.
    F32(u32),
    U8(u8),
    I32(i32),
    Transform(Transform),
    /// A member with `array_size > 0`: that many inline values of its type.
    Array(Vec<ElementType>),
}

/// A named member of a structure.
#[derive(Debug, PartialEq)]
pub struct Element {
    pub name: String,
    pub element: ElementType,
}

/// A type record: what the member is and where its name and member types are.
#[derive(Clone, Copy, Debug, PartialEq, Eq, Structural)]
pub struct TypeInfo {
    pub type_id: u32,
    pub name_offset: Option<Pointer>,
    pub children_offset: Option<Pointer>,
    pub array_size: i32,
}

/// Model of a member's value.
pub enum Value {
    Reference(Seq<Node>),
    ArrayOfReferences(Seq<Seq<Node>>),
    VariantReference,
    Str(Seq<char>),
    F32(u32),
    U8(u8),
    I32(i32),
    /// The seventeen words of a transform: flags, translation, rotation, scale/shear by rows.
    Transform(Seq<u32>),
    Array(Seq<Value>),
    /// Nested structures past the depth a view follows. Decoding never yields it: a decoder
    /// that stops at a depth leaves no structure below it.
    Truncated,
}

/// Model of a member.
pub struct Node {
    pub name: Seq<char>,
    pub value: Value,
}

/// The seventeen words of a transform, in file order.
pub open spec fn transform_words(t: Transform) -> Seq<u32> {
    seq![t.flags, t.translation[0], t.translation[1], t.translation[2], t.rotation[0],
        t.rotation[1], t.rotation[2], t.rotation[3], t.scale_shear[0][0], t.scale_shear[0][1],
        t.scale_shear[0][2], t.scale_shear[1][0], t.scale_shear[1][1], t.scale_shear[1][2],
        t.scale_shear[2][0], t.scale_shear[2][1], t.scale_shear[2][2]]
}

/// Model of a list of member lists, nested structures followed down `d` levels.
pub open spec fn lists_view(v: Seq<Vec<Element>>, d: nat) -> Seq<Seq<Node>>
    decreases d, 5nat,
{
    v.map_values(|l: Vec<Element>| nodes_view(l@, d))
}

/// Model of a member list, nested structures followed down `d` levels.
pub open spec fn nodes_view(s: Seq<Element>, d: nat) -> Seq<Node>
    decreases d, 4nat,
{
    s.map_values(|x: Element| node_view(x, d))
}

/// Model of a member, nested structures followed down `d` levels.
pub open spec fn node_view(x: Element, d: nat) -> Node
    decreases d, 3nat,
{
    Node { name: x.name@, value: value_view(x.element, d) }
}

/// Model of a member's value, nested structures followed down `d` levels.
pub open spec fn value_view(t: ElementType, d: nat) -> Value
    decreases d, 2nat,
{
    match t {
        ElementType::Array(items) => Value::Array(items_view(items@, d)),
        _ => item_view(t, d),
    }
}

/// Model of the values of an inline array.
pub open spec fn items_view(s: Seq<ElementType>, d: nat) -> Seq<Value>
    decreases d, 1nat,
{
    s.map_values(|x: ElementType| item_view(x, d))
}

/// Model of a value that is not an inline array (an array nested in one has no model).
pub open spec fn item_view(t: ElementType, d: nat) -> Value
    decreases d, 0nat,
{
    match t {
        ElementType::Reference(v) => if d == 0 {
            if v@.len() == 0 { Value::Reference(seq![]) } else { Value::Truncated }
        } else {
            Value::Reference(nodes_view(v@, (d - 1) as nat))
        },
        ElementType::ArrayOfReferences(v) => if d == 0 {
            if v@.len() == 0 { Value::ArrayOfReferences(seq![]) } else { Value::Truncated }
        } else {
            Value::ArrayOfReferences(lists_view(v@, (d - 1) as nat))
        },
        ElementType::VariantReference => Value::VariantReference,
        ElementType::String(s) => Value::Str(s@),
        ElementType::F32(b) => Value::F32(b),
        ElementType::U8(b) => Value::U8(b),
        ElementType::I32(i) => Value::I32(i),
        ElementType::Transform(t) => Value::Transform(transform_words(t)),
        ElementType::Array(_) => Value::Array(seq![]),
    }
}

} // verus!
