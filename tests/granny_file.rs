use opengr2::parser::{parse_element, parse_file_info, parse_header, parse_sector_info, Element, ElementType};
use opengr2::sector::load_sector;
use opengr2::{granny_path, DecodeError, ElementKind, Endianness, GrannyFile, GrannyPathError, GrannyResolve};

#[derive(Clone, Copy)]
struct Flavor {
    magic: [u8; 16],
    big: bool,
    wide: bool,
}

const LE32_V6: Flavor = Flavor {
    magic: [0xB8, 0x67, 0xB0, 0xCA, 0xF8, 0x6D, 0xB1, 0x0F, 0x84, 0x72, 0x8C, 0x7E, 0x5E, 0x19, 0x00, 0x1E],
    big: false,
    wide: false,
};
const BE32_V6: Flavor = Flavor {
    magic: [0xCA, 0xB0, 0x67, 0xB6, 0x0F, 0xB1, 0xDB, 0xF8, 0x7E, 0x8C, 0x72, 0x84, 0x1E, 0x00, 0x19, 0x5E],
    big: true,
    wide: false,
};
const LE32_V7: Flavor = Flavor {
    magic: [0x29, 0xDE, 0x6C, 0xC0, 0xBA, 0xA4, 0x53, 0x2B, 0x25, 0xF5, 0xB7, 0xA5, 0xF6, 0x66, 0xE2, 0xEE],
    big: false,
    wide: false,
};
const LE64_V7: Flavor = Flavor {
    magic: [0xE5, 0x9B, 0x49, 0x5E, 0x6F, 0x63, 0x1F, 0x14, 0x1E, 0x13, 0xEB, 0xA9, 0x90, 0xBE, 0xED, 0xC4],
    big: false,
    wide: true,
};

/// Member types of a structure, as the test files declare them.
#[derive(Clone)]
enum Ty {
    Str(&'static str),
    I32(&'static str),
    F32(&'static str),
    U8s(&'static str, i32),
    Ref(&'static str, Vec<Ty>),
    Arr(&'static str, Vec<Ty>),
    Raw(&'static str, u32, i32),
}

/// Member values.
#[derive(Clone)]
enum Val {
    Str(Vec<u8>),
    NoStr,
    I32(i32),
    F32(f32),
    U8s(Vec<u8>),
    Ref(Vec<Val>),
    NoRef,
    SelfRef,
    Arr(Vec<Vec<Val>>),
    Raw(Vec<u8>),
}

/// Sectors of each written file: data, types, and six empty ones.
const SECTORS: usize = 8;

struct Sec {
    data: Vec<u8>,
    fixups: Vec<(u32, u32, u32)>,
}

struct TypeList {
    off: u32,
    kids: Vec<Option<TypeList>>,
}

enum Piece {
    Bytes(Vec<u8>),
    Ptr(u32, u32),
    NoPtr,
    SelfPtr,
}

struct Writer {
    big: bool,
    wide: bool,
    data: Sec,
    types: Sec,
}

impl Writer {
    fn word(&self, x: u32) -> Vec<u8> {
        if self.big { x.to_be_bytes().to_vec() } else { x.to_le_bytes().to_vec() }
    }

    fn pw(&self) -> usize {
        if self.wide { 8 } else { 4 }
    }

    fn write_types(&mut self, types: &[Ty]) -> TypeList {
        let mut kids = Vec::new();
        let mut names = Vec::new();
        for t in types {
            let (name, sub) = match t {
                Ty::Str(n) | Ty::I32(n) | Ty::F32(n) | Ty::U8s(n, _) | Ty::Raw(n, _, _) => (*n, None),
                Ty::Ref(n, s) | Ty::Arr(n, s) => (*n, Some(s.clone())),
            };
            kids.push(sub.map(|s| self.write_types(&s)));
            let off = self.types.data.len() as u32;
            self.types.data.extend_from_slice(name.as_bytes());
            self.types.data.push(0);
            names.push(off);
        }
        let off = self.types.data.len() as u32;
        let pw = self.pw();
        for (i, t) in types.iter().enumerate() {
            let (id, count) = match t {
                Ty::Str(_) => (8, 0),
                Ty::I32(_) => (19, 0),
                Ty::F32(_) => (10, 0),
                Ty::U8s(_, n) => (12, *n),
                Ty::Ref(_, _) => (2, 0),
                Ty::Arr(_, _) => (7, 0),
                Ty::Raw(_, id, n) => (*id, *n),
            };
            let base = self.types.data.len() as u32;
            let w = self.word(id);
            self.types.data.extend(w);
            self.types.fixups.push((base + 4, 1, names[i]));
            if let Some(k) = &kids[i] {
                self.types.fixups.push((base + 4 + pw as u32, 1, k.off));
            }
            self.types.data.extend(vec![0u8; 2 * pw]);
            let w = self.word(count as u32);
            self.types.data.extend(w);
            self.types.data.extend(vec![0u8; if self.wide { 20 } else { 16 }]);
        }
        self.types.data.extend(vec![0u8; if self.wide { 44 } else { 32 }]);
        TypeList { off, kids }
    }

    fn prepare(&mut self, types: &[Ty], tl: &TypeList, vals: &[Val]) -> Vec<Piece> {
        let mut pieces = Vec::new();
        for (i, v) in vals.iter().enumerate() {
            match v {
                Val::Str(s) => {
                    let off = self.data.data.len() as u32;
                    self.data.data.extend_from_slice(s);
                    self.data.data.push(0);
                    pieces.push(Piece::Ptr(0, off));
                }
                Val::NoStr | Val::NoRef => pieces.push(Piece::NoPtr),
                Val::SelfRef => pieces.push(Piece::SelfPtr),
                Val::I32(x) => pieces.push(Piece::Bytes(self.word(*x as u32))),
                Val::F32(x) => pieces.push(Piece::Bytes(self.word(x.to_bits()))),
                Val::U8s(b) | Val::Raw(b) => pieces.push(Piece::Bytes(b.clone())),
                Val::Ref(sub) => {
                    let kid_types = match &types[i] {
                        Ty::Ref(_, s) => s.clone(),
                        _ => panic!("value does not fit its type"),
                    };
                    let kid = tl.kids[i].as_ref().unwrap();
                    let off = self.write_struct(&kid_types, kid, sub);
                    pieces.push(Piece::Ptr(0, off));
                }
                Val::Arr(items) => {
                    let kid_types = match &types[i] {
                        Ty::Arr(_, s) => s.clone(),
                        _ => panic!("value does not fit its type"),
                    };
                    let kid = tl.kids[i].as_ref().unwrap();
                    let preps: Vec<Vec<Piece>> = items.iter().map(|it| self.prepare(&kid_types, kid, it)).collect();
                    let first = self.data.data.len() as u32;
                    for p in preps {
                        self.emit(p);
                    }
                    pieces.push(Piece::Ptr(1, kid.off));
                    pieces.push(Piece::Bytes(self.word(items.len() as u32)));
                    pieces.push(Piece::Ptr(0, first));
                }
            }
        }
        pieces
    }

    fn emit(&mut self, pieces: Vec<Piece>) -> u32 {
        let start = self.data.data.len() as u32;
        let pw = self.pw();
        for p in pieces {
            match p {
                Piece::Bytes(b) => self.data.data.extend(b),
                Piece::Ptr(s, o) => {
                    let at = self.data.data.len() as u32;
                    self.data.fixups.push((at, s, o));
                    self.data.data.extend(vec![0u8; pw]);
                }
                Piece::SelfPtr => {
                    let at = self.data.data.len() as u32;
                    self.data.fixups.push((at, 0, start));
                    self.data.data.extend(vec![0u8; pw]);
                }
                Piece::NoPtr => self.data.data.extend(vec![0u8; pw]),
            }
        }
        start
    }

    fn write_struct(&mut self, types: &[Ty], tl: &TypeList, vals: &[Val]) -> u32 {
        let pieces = self.prepare(types, tl, vals);
        self.emit(pieces)
    }
}

/// Offsets of the parts of a written file.
struct Layout {
    bytes: Vec<u8>,
    dir: usize,
    sector_starts: Vec<usize>,
    fixup_starts: Vec<usize>,
}

fn build_layout(f: Flavor, types: &[Ty], vals: &[Val]) -> Layout {
    let mut w = Writer {
        big: f.big,
        wide: f.wide,
        data: Sec { data: Vec::new(), fixups: Vec::new() },
        types: Sec { data: Vec::new(), fixups: Vec::new() },
    };
    // Keep offset 0 of the data sector for a spare byte, so that no fixup points at its end.
    w.data.data.push(0xAA);
    let tl = w.write_types(types);
    let root = w.write_struct(types, &tl, vals);
    let dir = 32 + 40;
    let payload = dir + SECTORS * 44;
    let d_len = w.data.data.len();
    let t_len = w.types.data.len();
    let d_fix = payload + d_len + t_len;
    let t_fix = d_fix + 12 * w.data.fixups.len();
    let total = t_fix + 12 * w.types.fixups.len();
    let mut out = Vec::new();
    out.extend_from_slice(&f.magic);
    out.extend(w.word(total as u32));
    out.extend(w.word(0));
    out.extend(vec![0u8; 8]);
    out.extend(w.word(7));
    out.extend(w.word(total as u32));
    out.extend(w.word(0));
    out.extend(w.word(40));
    out.extend(w.word(SECTORS as u32));
    out.extend(w.word(1));
    out.extend(w.word(tl.off));
    out.extend(w.word(0));
    out.extend(w.word(root));
    out.extend(w.word(0x8000_0000));
    let entries = [(payload, d_len, d_fix, w.data.fixups.len()), (payload + d_len, t_len, t_fix, w.types.fixups.len())];
    for (start, len, fix, n) in entries {
        for x in [0, start, len, len, 4, 0, 0, fix, n, 0, 0] {
            out.extend(w.word(x as u32));
        }
    }
    for _ in 2..SECTORS {
        for x in [0, total, 0, 0, 4, 0, 0, total, 0, 0, 0] {
            out.extend(w.word(x as u32));
        }
    }
    out.extend(w.data.data.clone());
    out.extend(w.types.data.clone());
    for sec in [&w.data, &w.types] {
        for (a, b, c) in &sec.fixups {
            out.extend(w.word(*a));
            out.extend(w.word(*b));
            out.extend(w.word(*c));
        }
    }
    assert_eq!(out.len(), total);
    Layout { bytes: out, dir, sector_starts: vec![payload, payload + d_len], fixup_starts: vec![d_fix, t_fix] }
}

fn build(f: Flavor, types: &[Ty], vals: &[Val]) -> Vec<u8> {
    build_layout(f, types, vals).bytes
}

fn text(s: &str) -> Val {
    Val::Str(s.as_bytes().to_vec())
}

fn suzanne_types() -> Vec<Ty> {
    vec![
        Ty::Ref("ArtToolInfo", vec![Ty::Str("FromArtToolName"), Ty::I32("ArtToolMajorRevision")]),
        Ty::Arr("Meshes", vec![
            Ty::Str("Name"),
            Ty::Ref("PrimaryVertexData", vec![Ty::Arr("Vertices", vec![Ty::F32("Position"), Ty::U8s("BoneIndices", 4)])]),
        ]),
        Ty::Arr("Materials", vec![Ty::Str("Name"), Ty::Ref("Texture", vec![Ty::Str("FromFileName")])]),
    ]
}

fn suzanne_values() -> Vec<Val> {
    let vertices = (0..590).map(|i| vec![Val::F32(i as f32 * 0.5), Val::U8s(vec![1, 2, 3, (i % 256) as u8])]).collect();
    vec![
        Val::Ref(vec![text("3D Studio MAX"), Val::I32(-3)]),
        Val::Arr(vec![vec![text("default"), Val::Ref(vec![Val::Arr(vertices)])]]),
        Val::Arr(vec![
            vec![text("Material #0"), Val::Ref(vec![text("texture.png")])],
            vec![text("Material #1"), Val::NoRef],
        ]),
    ]
}

fn suzanne(f: Flavor) -> Vec<u8> {
    build(f, &suzanne_types(), &suzanne_values())
}

fn assert_suzanne_paths(granny_file: &GrannyFile) {
    let art_tool_name = granny_file.find_element("ArtToolInfo.FromArtToolName").unwrap();
    assert_eq!(*art_tool_name, ElementType::String("3D Studio MAX".to_string()));

    let meshes = granny_file.find_element("Meshes").unwrap();
    if let ElementType::ArrayOfReferences(meshes) = meshes {
        assert_eq!(meshes.len(), 1);
        let mesh = &meshes[0];
        let name = mesh.resolve("Name").unwrap();
        assert_eq!(*name, ElementType::String("default".to_string()));
        let vertex_data = mesh.resolve("PrimaryVertexData.Vertices").unwrap();
        if let ElementType::ArrayOfReferences(vertices) = vertex_data {
            assert_eq!(vertices.len(), 590);
        } else {
            panic!("Unexpected element type of Meshes[0].PrimaryVertexData.Vertices")
        }
    } else {
        panic!("Unexpected element type of meshes")
    }
}

#[test]
fn test_le_7_32bits() {
    let data = suzanne(LE32_V7);
    let granny_file = GrannyFile::load_from_bytes(&data).unwrap();
    assert_suzanne_paths(&granny_file)
}

#[test]
fn test_le_7_64bits() {
    let data = suzanne(LE64_V7);
    let granny_file = GrannyFile::load_from_bytes(&data).unwrap();
    assert_suzanne_paths(&granny_file)
}

// No big-endian 64-bit signature exists among the four known ones, so the 64-bit cases are
// written in the little-endian 64-bit flavour.
#[test]
fn test_be_7_64bits() {
    let data = suzanne(LE64_V7);
    let granny_file = GrannyFile::load_from_bytes(&data).unwrap();
    assert_suzanne_paths(&granny_file)
}

#[test]
fn test_be_7_32bits() {
    let data = suzanne(BE32_V6);
    let granny_file = GrannyFile::load_from_bytes(&data).unwrap();
    assert_suzanne_paths(&granny_file)
}

#[test]
fn test_le_6_32bits() {
    let data = suzanne(LE32_V6);
    let granny_file = GrannyFile::load_from_bytes(&data).unwrap();
    assert_suzanne_paths(&granny_file)
}

#[test]
fn test_textured_external() {
    let data = suzanne(LE32_V7);
    let granny_file = GrannyFile::load_from_bytes(&data).unwrap();
    assert_suzanne_paths(&granny_file);
    let materials = granny_file.find_element("Materials").unwrap();
    if let ElementType::ArrayOfReferences(materials) = materials {
        assert_eq!(materials.len(), 2);
        let texture = materials[0].resolve("Texture").unwrap();
        if let ElementType::Reference(texture) = texture {
            assert_eq!(texture.resolve("FromFileName"), Some(&ElementType::String("texture.png".to_string())));
        } else {
            panic!("Texture on Material#0 is from the wrong type")
        }
    } else {
        panic!("Materials is from the wrong type")
    }
}

#[test]
fn test_complex_paths() {
    let data = suzanne(LE64_V7);
    let granny_file = GrannyFile::load_from_bytes(&data).unwrap();
    let meshes = granny_path(granny_file.elements(), "Meshes", ElementKind::ArrayOfReferences).unwrap();
    if let ElementType::ArrayOfReferences(meshes) = meshes {
        for mesh in meshes {
            let name = granny_path(mesh, "Name", ElementKind::String).unwrap();
            assert_eq!(*name, ElementType::String("default".to_string()));
            let vertices = granny_path(mesh, "PrimaryVertexData.Vertices", ElementKind::ArrayOfReferences).unwrap();
            assert!(matches!(vertices, ElementType::ArrayOfReferences(v) if v.len() == 590));
        }
    } else {
        panic!("Meshes is from the wrong type")
    }
    assert_eq!(
        granny_path(granny_file.elements(), "Meshes", ElementKind::String),
        Err(GrannyPathError::UnknownVariant(ElementKind::ArrayOfReferences))
    );
    assert_eq!(granny_path(granny_file.elements(), "Nope", ElementKind::String), Err(GrannyPathError::UnresolvedPath));
    assert_eq!(
        granny_path(granny_file.elements(), "Meshes.Name", ElementKind::String),
        Err(GrannyPathError::UnresolvedPath)
    );
}

#[test]
fn scalar_values_are_decoded_in_every_flavor() {
    for f in [LE32_V6, BE32_V6, LE32_V7, LE64_V7] {
        let file = GrannyFile::decode(&suzanne(f)).unwrap();
        assert_eq!(file.find_element("ArtToolInfo.ArtToolMajorRevision"), Some(&ElementType::I32(-3)));
        let meshes = file.find_element("Meshes").unwrap();
        let ElementType::ArrayOfReferences(meshes) = meshes else { panic!("wrong type") };
        let v = meshes[0].resolve("PrimaryVertexData.Vertices").unwrap();
        let ElementType::ArrayOfReferences(v) = v else { panic!("wrong type") };
        assert_eq!(v[3].resolve("Position"), Some(&ElementType::F32(1.5f32.to_bits())));
        assert_eq!(
            v[300].resolve("BoneIndices"),
            Some(&ElementType::Array(vec![ElementType::U8(1), ElementType::U8(2), ElementType::U8(3), ElementType::U8(44)]))
        );
    }
}

#[test]
fn every_flavor_decodes_to_the_same_tree() {
    let reference = GrannyFile::decode(&suzanne(LE32_V7)).unwrap();
    for f in [LE32_V6, BE32_V6, LE64_V7] {
        let other = GrannyFile::decode(&suzanne(f)).unwrap();
        assert_eq!(other.elements(), reference.elements());
    }
}

#[test]
fn decoding_twice_gives_equal_trees() {
    let data = suzanne(BE32_V6);
    let a = GrannyFile::decode(&data).unwrap();
    let b = GrannyFile::decode(&data).unwrap();
    assert_eq!(a.elements(), b.elements());
}

#[test]
fn find_agrees_with_manual_traversal() {
    let file = GrannyFile::decode(&suzanne(LE32_V7)).unwrap();
    let mut found = None;
    for e in file.elements() {
        if e.name == "ArtToolInfo" {
            if let ElementType::Reference(children) = &e.element {
                for c in children {
                    if c.name == "FromArtToolName" {
                        found = Some(&c.element);
                        break;
                    }
                }
            }
            break;
        }
    }
    assert!(found.is_some());
    assert_eq!(file.find_element("ArtToolInfo.FromArtToolName"), found);
    assert_eq!(file.find_element("ArtToolInfo.Missing"), None);
    assert_eq!(file.find_element("ArtToolInfo.FromArtToolName.More"), None);
    assert_eq!(file.find_element(""), None);
}

#[test]
fn first_member_of_a_name_wins() {
    let types = vec![Ty::I32("A"), Ty::I32("A"), Ty::Ref("B", vec![Ty::I32("C")])];
    let vals = vec![Val::I32(1), Val::I32(2), Val::Ref(vec![Val::I32(3)])];
    let file = GrannyFile::decode(&build(LE32_V7, &types, &vals)).unwrap();
    assert_eq!(file.find_element("A"), Some(&ElementType::I32(1)));
    assert_eq!(file.find_element("B.C"), Some(&ElementType::I32(3)));
    assert_eq!(file.find_element("A.C"), None);
}

fn decoded_strings(list: &[Element], out: &mut Vec<String>) {
    for e in list {
        collect(&e.element, out);
    }
}

fn collect(t: &ElementType, out: &mut Vec<String>) {
    match t {
        ElementType::String(s) => out.push(s.clone()),
        ElementType::Reference(l) => decoded_strings(l, out),
        ElementType::ArrayOfReferences(ls) => {
            for l in ls {
                decoded_strings(l, out)
            }
        }
        ElementType::Array(vs) => {
            for v in vs {
                collect(v, out)
            }
        }
        _ => {}
    }
}

#[test]
fn decoded_strings_hold_no_zero_byte() {
    let file = GrannyFile::decode(&suzanne(LE64_V7)).unwrap();
    let mut strings = Vec::new();
    decoded_strings(file.elements(), &mut strings);
    assert_eq!(strings.len(), 5);
    for s in strings {
        assert!(!s.as_bytes().contains(&0));
    }
}

#[test]
fn compressed_sector_is_unsupported() {
    let mut layout = build_layout(LE32_V7, &suzanne_types(), &suzanne_values());
    let entry = layout.dir + 44;
    layout.bytes[entry] = 2;
    assert!(matches!(GrannyFile::decode(&layout.bytes), Err(DecodeError::UnsupportedCodec(2))));
    assert!(GrannyFile::load_from_bytes(&layout.bytes).is_none());
}

#[test]
fn altered_magic_is_refused() {
    for f in [LE32_V6, BE32_V6, LE32_V7, LE64_V7] {
        let data = suzanne(f);
        for i in 0..16 {
            let mut bad = data.clone();
            bad[i] ^= 0x40;
            assert!(matches!(GrannyFile::decode(&bad), Err(DecodeError::BadMagic)));
        }
    }
}

#[test]
fn truncation_at_sector_boundaries_is_short_input() {
    for f in [LE32_V7, LE64_V7, BE32_V6] {
        let layout = build_layout(f, &suzanne_types(), &suzanne_values());
        let mut cuts = vec![0, 20, 32, 60, layout.dir, layout.dir + 44];
        cuts.extend(layout.sector_starts.iter().copied());
        cuts.extend(layout.fixup_starts.iter().copied());
        cuts.push(layout.bytes.len() - 1);
        for c in cuts {
            let result = GrannyFile::decode(&layout.bytes[..c]);
            assert!(matches!(result, Err(DecodeError::ShortInput)), "cut at {}", c);
        }
    }
}

#[test]
fn zero_type_id_first_gives_an_empty_list() {
    let file = GrannyFile::decode(&build(LE32_V7, &[], &[])).unwrap();
    assert!(file.elements().is_empty());
    let file = GrannyFile::decode(&build(LE64_V7, &[], &[])).unwrap();
    assert!(file.elements().is_empty());
}

#[test]
fn reference_without_fixup_is_empty() {
    let types = vec![Ty::Ref("Texture", vec![Ty::Str("FromFileName")]), Ty::I32("After")];
    let vals = vec![Val::NoRef, Val::I32(9)];
    for f in [LE32_V7, LE64_V7, BE32_V6] {
        let file = GrannyFile::decode(&build(f, &types, &vals)).unwrap();
        assert_eq!(file.find_element("Texture"), Some(&ElementType::Reference(vec![])));
        assert_eq!(file.find_element("After"), Some(&ElementType::I32(9)));
    }
}

#[test]
fn type_id_above_range_ends_the_list() {
    let types = vec![Ty::I32("A"), Ty::Raw("End", 23, 0), Ty::I32("B")];
    let vals = vec![Val::I32(5), Val::Raw(vec![]), Val::I32(6)];
    let file = GrannyFile::decode(&build(LE32_V7, &types, &vals)).unwrap();
    assert_eq!(file.elements().len(), 1);
    assert_eq!(file.elements()[0].name, "A");
}

#[test]
fn unknown_type_id_is_an_error() {
    let types = vec![Ty::Raw("Odd", 6, 0)];
    let vals = vec![Val::Raw(vec![])];
    assert!(matches!(GrannyFile::decode(&build(LE32_V7, &types, &vals)), Err(DecodeError::UnknownTypeId(6))));
}

#[test]
fn opaque_references_take_their_slots() {
    let types = vec![Ty::Raw("V", 1, 0), Ty::Raw("W", 5, 0), Ty::I32("X")];
    let vals = vec![Val::Raw(vec![]), Val::Raw(vec![0u8; 16]), Val::I32(77)];
    let file = GrannyFile::decode(&build(LE64_V7, &types, &vals)).unwrap();
    assert_eq!(file.find_element("V"), Some(&ElementType::VariantReference));
    assert_eq!(file.find_element("W"), Some(&ElementType::VariantReference));
    assert_eq!(file.find_element("X"), Some(&ElementType::I32(77)));
}

#[test]
fn transform_keeps_its_words() {
    let mut raw = Vec::new();
    for i in 0..17u32 {
        raw.extend((i * 3 + 1).to_be_bytes());
    }
    let types = vec![Ty::Raw("T", 9, 0)];
    let file = GrannyFile::decode(&build(BE32_V6, &types, &[Val::Raw(raw)])).unwrap();
    let Some(ElementType::Transform(t)) = file.find_element("T") else { panic!("not a transform") };
    assert_eq!(t.flags, 1);
    assert_eq!(t.translation, [4, 7, 10]);
    assert_eq!(t.rotation, [13, 16, 19, 22]);
    assert_eq!(t.scale_shear, [[25, 28, 31], [34, 37, 40], [43, 46, 49]]);
}

#[test]
fn missing_string_fixup_is_an_error() {
    let types = vec![Ty::Str("Name")];
    let r = GrannyFile::decode(&build(LE32_V7, &types, &[Val::NoStr]));
    assert!(matches!(r, Err(DecodeError::MissingFixup(1))));
}

#[test]
fn invalid_utf8_is_an_error() {
    let types = vec![Ty::Str("Name")];
    let r = GrannyFile::decode(&build(LE32_V7, &types, &[Val::Str(vec![0x66, 0xFF, 0x66])]));
    assert!(matches!(r, Err(DecodeError::InvalidUtf8)));
}

#[test]
fn cyclic_reference_hits_the_depth_limit() {
    let types = vec![Ty::Ref("Loop", vec![])];
    let mut layout = build_layout(LE32_V7, &types, &[Val::SelfRef]);
    // Point the member's own type list back at the root list, making the structure contain itself.
    let root_types = layout.bytes[32 + 24..32 + 28].to_vec();
    let children_entry = layout.fixup_starts[1] + 12;
    layout.bytes[children_entry + 8..children_entry + 12].copy_from_slice(&root_types);
    let r = GrannyFile::decode(&layout.bytes);
    assert!(matches!(r, Err(DecodeError::RecursionLimit)));
}

#[test]
fn duplicate_fixup_is_an_error() {
    let mut layout = build_layout(LE32_V7, &suzanne_types(), &suzanne_values());
    let f = layout.fixup_starts[0];
    let first: Vec<u8> = layout.bytes[f..f + 12].to_vec();
    layout.bytes[f + 12..f + 24].copy_from_slice(&first);
    let key = u32::from_le_bytes([first[0], first[1], first[2], first[3]]);
    assert!(matches!(GrannyFile::decode(&layout.bytes), Err(DecodeError::DuplicateFixup(k)) if k == key));
}

#[test]
fn fixup_into_a_missing_sector_is_an_error() {
    let mut layout = build_layout(LE32_V7, &suzanne_types(), &suzanne_values());
    let f = layout.fixup_starts[0];
    layout.bytes[f + 4..f + 8].copy_from_slice(&9u32.to_le_bytes());
    assert!(matches!(GrannyFile::decode(&layout.bytes), Err(DecodeError::SectorOutOfRange(9))));
}

#[test]
fn fixup_past_its_target_is_an_error() {
    let mut layout = build_layout(LE32_V7, &suzanne_types(), &suzanne_values());
    let f = layout.fixup_starts[1];
    layout.bytes[f + 8..f + 12].copy_from_slice(&0x00FF_FFFFu32.to_le_bytes());
    assert!(matches!(GrannyFile::decode(&layout.bytes), Err(DecodeError::OffsetOutOfRange)));
}

#[test]
fn root_in_a_missing_sector_is_an_error() {
    let mut layout = build_layout(LE32_V7, &suzanne_types(), &suzanne_values());
    layout.bytes[32 + 28..32 + 32].copy_from_slice(&9u32.to_le_bytes());
    assert!(matches!(GrannyFile::decode(&layout.bytes), Err(DecodeError::SectorOutOfRange(9))));
}

fn parse_data(bytes: &[u8]) {
    let (input, header) = parse_header(bytes).unwrap();
    let endianness = if header.big_endian { Endianness::Big } else { Endianness::Little };
    let (mut input, file_info) = parse_file_info(endianness, input).unwrap();
    assert_eq!(file_info.sector_count, 8);
    let mut sectors = Vec::new();
    for _ in 0..file_info.sector_count {
        let (next_input, sector) = parse_sector_info(endianness, input).unwrap();
        sectors.push(load_sector(bytes, endianness, sector).unwrap());
        input = next_input;
    }
    let (_, root) = parse_element(
        endianness,
        header.bits_64,
        &sectors,
        file_info.root_ref.sector,
        file_info.type_ref.sector,
        file_info.root_ref.position,
        file_info.type_ref.position,
    )
    .unwrap();
    assert_eq!(root.len(), 3);
    assert_eq!(&root, GrannyFile::decode(bytes).unwrap().elements());
}

#[test]
fn test_parser_integration_le_7_32bits() {
    parse_data(&suzanne(LE32_V7));
}

#[test]
fn test_parser_integration_le_7_64bits() {
    parse_data(&suzanne(LE64_V7));
}

#[test]
fn test_parser_integration_be_7_32bits() {
    parse_data(&suzanne(BE32_V6));
}

// No big-endian 64-bit signature exists, so this runs on the little-endian 64-bit flavour.
#[test]
fn test_parser_integration_be_7_64bits() {
    parse_data(&suzanne(LE64_V7));
}
