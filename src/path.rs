//! Finding a member by a dotted path of names.
use vstd::prelude::*;
use vstd::string::StrSliceExecFns;
use crate::model::{Element, ElementType};

verus! {

/// The first `'.'` of `p` at or after `i`, or the length of `p`.
pub open spec fn dot_from(p: Seq<char>, i: int) -> int
    decreases p.len() - i,
{
    if i >= p.len() {
        p.len() as int
    } else if p[i] == '.' {
        i
    } else {
        dot_from(p, i + 1)
    }
}

/// The first of `elems` at or after `i` whose name is `name`, or the length of `elems`.
pub open spec fn first_named(elems: Seq<Element>, name: Seq<char>, i: int) -> int
    decreases elems.len() - i,
{
    if i >= elems.len() {
        elems.len() as int
    } else if elems[i].name@ == name {
        i
    } else {
        first_named(elems, name, i + 1)
    }
}

proof fn lemma_dot_from_range(p: Seq<char>, i: int)
    requires
        0 <= i,
    ensures
        i <= dot_from(p, i) || i > p.len(),
        dot_from(p, i) <= p.len(),
    decreases p.len() - i,
{
    if i < p.len() && p[i] != '.' {
        lemma_dot_from_range(p, i + 1);
    }
}

/// What the dotted `path` names, starting at the member list `elems`: the value of the first
/// member named by the first segment; for a longer path, the same search in that member's
/// structure (which must be a `Reference`) with the rest of the path.
pub open spec fn resolve_spec(elems: Seq<Element>, path: Seq<char>) -> Option<ElementType>
    decreases path.len(),
    via resolve_spec_decreases
{
    let k = dot_from(path, 0);
    let i = first_named(elems, path.take(k), 0);
    if i >= elems.len() {
        None
    } else if k >= path.len() {
        Some(elems[i].element)
    } else {
        match elems[i].element {
            ElementType::Reference(children) => resolve_spec(children@, path.skip(k + 1)),
            _ => None,
        }
    }
}

#[via_fn]
proof fn resolve_spec_decreases(elems: Seq<Element>, path: Seq<char>) {
    lemma_dot_from_range(path, 0);
}

fn same_text(a: &str, b: &str) -> (r: bool)
    ensures
        r == (a@ == b@),
{
    let n = a.unicode_len();
    if n != b.unicode_len() {
        return false;
    }
    let mut i: usize = 0;
    while i < n
        invariant
            n == a@.len(),
            n == b@.len(),
            i <= n,
            forall|j: int| 0 <= j < i ==> a@[j] == b@[j],
        decreases n - i,
    {
        if a.get_char(i) != b.get_char(i) {
            return false;
        }
        i = i + 1;
    }
    assert(a@ =~= b@);
    true
}

/// Finds the value that the dotted `path` names in the member list `elems`.
pub fn resolve_in<'a>(elems: &'a Vec<Element>, path: &str) -> (r: Option<&'a ElementType>)
    ensures
        match r {
            Some(v) => resolve_spec(elems@, path@) == Some(*v),
            None => resolve_spec(elems@, path@) is None,
        },
    decreases path@.len(),
{
    let n = path.unicode_len();
    let mut k: usize = 0;
    while k < n && path.get_char(k) != '.'
        invariant
            n == path@.len(),
            k <= n,
            dot_from(path@, 0) == dot_from(path@, k as int),
        decreases n - k,
    {
        k = k + 1;
    }
    assert(dot_from(path@, k as int) == k);
    let name = path.substring_char(0, k);
    assert(name@ =~= path@.take(k as int));
    let mut i: usize = 0;
    while i < elems.len() && !same_text(elems[i].name.as_str(), name)
        invariant
            i <= elems@.len(),
            first_named(elems@, name@, 0) == first_named(elems@, name@, i as int),
        decreases elems@.len() - i,
    {
        i = i + 1;
    }
    assert(first_named(elems@, name@, i as int) == i);
    if i >= elems.len() {
        return None;
    }
    if k >= n {
        return Some(&elems[i].element);
    }
    match &elems[i].element {
        ElementType::Reference(children) => {
            let rest = path.substring_char(k + 1, n);
            assert(rest@ =~= path@.skip(k + 1));
            resolve_in(children, rest)
        },
        _ => None,
    }
}

/// Looking members up by dotted path.
pub trait GrannyResolve {
    /// What `path` names here.
    spec fn resolved(&self, path: Seq<char>) -> Option<ElementType>;

    /// Finds the value that the dotted `path` names.
    fn resolve(&self, path: &str) -> (r: Option<&ElementType>)
        ensures
            match r {
                Some(v) => self.resolved(path@) == Some(*v),
                None => self.resolved(path@) is None,
            },
    ;
}

impl GrannyResolve for Vec<Element> {
    open spec fn resolved(&self, path: Seq<char>) -> Option<ElementType> {
        resolve_spec(self@, path)
    }

    fn resolve(&self, path: &str) -> (r: Option<&ElementType>) {
        resolve_in(self, path)
    }
}

/// The variant of a value, without its contents.
#[derive(Clone, Copy, Debug, PartialEq, Eq, Structural)]
pub enum ElementKind {
    Reference,
    ArrayOfReferences,
    VariantReference,
    String,
    F32,
    U8,
    I32,
    Transform,
    Array,
}

/// The variant of `t`.
pub open spec fn kind_spec(t: ElementType) -> ElementKind {
    match t {
        ElementType::Reference(_) => ElementKind::Reference,
        ElementType::ArrayOfReferences(_) => ElementKind::ArrayOfReferences,
        ElementType::VariantReference => ElementKind::VariantReference,
        ElementType::String(_) => ElementKind::String,
        ElementType::F32(_) => ElementKind::F32,
        ElementType::U8(_) => ElementKind::U8,
        ElementType::I32(_) => ElementKind::I32,
        ElementType::Transform(_) => ElementKind::Transform,
        ElementType::Array(_) => ElementKind::Array,
    }
}

impl ElementType {
    /// The variant of this value.
    pub fn kind(&self) -> (k: ElementKind)
        ensures
            k == kind_spec(*self),
    {
        match self {
            ElementType::Reference(_) => ElementKind::Reference,
            ElementType::ArrayOfReferences(_) => ElementKind::ArrayOfReferences,
            ElementType::VariantReference => ElementKind::VariantReference,
            ElementType::String(_) => ElementKind::String,
            ElementType::F32(_) => ElementKind::F32,
            ElementType::U8(_) => ElementKind::U8,
            ElementType::I32(_) => ElementKind::I32,
            ElementType::Transform(_) => ElementKind::Transform,
            ElementType::Array(_) => ElementKind::Array,
        }
    }
}

/// Why a path lookup with an expected variant failed.
#[derive(Clone, Copy, Debug, PartialEq, Eq, Structural)]
pub enum GrannyPathError {
    /// The names of the path do not lead to a member.
    UnresolvedPath,
    /// The member exists, but its value is of this other variant.
    UnknownVariant(ElementKind),
}

/// Finds the value that `path` names in `elems` and requires it to be of the variant `expected`.
pub fn granny_path<'a>(elems: &'a Vec<Element>, path: &str, expected: ElementKind)
    -> (r: Result<&'a ElementType, GrannyPathError>)
    ensures
        match resolve_spec(elems@, path@) {
            None => r == Err::<&ElementType, GrannyPathError>(GrannyPathError::UnresolvedPath),
            Some(v) => if kind_spec(v) == expected {
                r matches Ok(x) && *x == v
            } else {
                r == Err::<&ElementType, GrannyPathError>(GrannyPathError::UnknownVariant(kind_spec(v)))
            },
        },
{
    match resolve_in(elems, path) {
        None => Err(GrannyPathError::UnresolvedPath),
        Some(v) => {
            let k = v.kind();
            if k == expected {
                Ok(v)
            } else {
                Err(GrannyPathError::UnknownVariant(k))
            }
        },
    }
}

} // verus!
