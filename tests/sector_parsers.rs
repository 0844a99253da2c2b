use opengr2::parser::{parse_element, parse_string, parse_type_info, ElementType, Pointer, SectorInfo, TypeInfo};
use opengr2::sector::Sector;
use opengr2::{DecodeError, Endianness};
use std::collections::HashMap;

fn sector(data: Vec<u8>, fixups: &[(u32, u32, u32)]) -> Sector {
    let mut pointer_table = HashMap::new();
    for (src, sec, off) in fixups {
        pointer_table.insert(*src, Pointer { src_offset: *src, dst_sector: *sec, dst_offset: *off });
    }
    let info = SectorInfo {
        compression_type: 0,
        data_offset: 0,
        compressed_length: data.len() as u32,
        decompressed_length: data.len() as u32,
        alignment: 4,
        oodle_stop_0: 0,
        oodle_stop_1: 0,
        fixup_offset: 0,
        fixup_size: fixups.len() as u32,
        marshall_offset: 0,
        marshall_size: 0,
    };
    Sector { info, data, pointer_table }
}

#[test]
fn type_record_slots_resolve_through_fixups() {
    let mut data = vec![0u8; 64];
    data[0..4].copy_from_slice(&19u32.to_le_bytes());
    data[12..16].copy_from_slice(&(-1i32).to_le_bytes());
    let s = sector(data, &[(4, 1, 40), (8, 0, 32)]);
    let ti = parse_type_info(Endianness::Little, &s, false, 0).unwrap();
    assert_eq!(ti, TypeInfo {
        type_id: 19,
        name_offset: Some(Pointer { src_offset: 4, dst_sector: 1, dst_offset: 40 }),
        children_offset: Some(Pointer { src_offset: 8, dst_sector: 0, dst_offset: 32 }),
        array_size: -1,
    });
    // In 64-bit files the member-type slot is at +12 and the array size at +20.
    let wide = parse_type_info(Endianness::Little, &s, true, 0).unwrap();
    assert_eq!(wide.children_offset, None);
    assert_eq!(parse_type_info(Endianness::Little, &s, false, 40).err(), Some(DecodeError::ShortInput));
    assert_eq!(parse_type_info(Endianness::Little, &s, true, 32).err(), Some(DecodeError::ShortInput));
    assert!(parse_type_info(Endianness::Little, &s, false, 32).is_ok());
}

#[test]
fn strings_end_at_the_first_zero_or_the_sector_end() {
    let sectors = vec![sector(b"ab\0cd".to_vec(), &[]), sector(vec![0xC3, 0xA9, 0xFF], &[])];
    let p = |sec: u32, off: u32| Pointer { src_offset: 0, dst_sector: sec, dst_offset: off };
    assert_eq!(parse_string(&sectors, p(0, 0)), Ok("ab".to_string()));
    assert_eq!(parse_string(&sectors, p(0, 2)), Ok("".to_string()));
    assert_eq!(parse_string(&sectors, p(0, 3)), Ok("cd".to_string()));
    assert_eq!(parse_string(&sectors, p(0, 5)), Ok("".to_string()));
    assert_eq!(parse_string(&sectors, p(0, 6)), Err(DecodeError::OffsetOutOfRange));
    assert_eq!(parse_string(&sectors, p(2, 0)), Err(DecodeError::SectorOutOfRange(2)));
    assert_eq!(parse_string(&sectors, p(1, 0)), Err(DecodeError::InvalidUtf8));
    let only_e = vec![sector(vec![0xC3, 0xA9], &[])];
    assert_eq!(parse_string(&only_e, p(0, 0)), Ok("\u{e9}".to_string()));
}

#[test]
fn element_list_with_inline_array_and_counted_reference() {
    // Types (sector 1): U8 x3 array, then a counted reference (id 3) to lists of one I32, then the end.
    let mut types = vec![0u8; 32 * 5];
    types[0..4].copy_from_slice(&12u32.to_le_bytes());
    types[12..16].copy_from_slice(&3i32.to_le_bytes());
    types[32..36].copy_from_slice(&3u32.to_le_bytes());
    types[96..100].copy_from_slice(&19u32.to_le_bytes());
    // Data (sector 0): three bytes, then count 2 and a pointer to two I32 values at 16.
    let mut data = vec![0u8; 24];
    data[0..3].copy_from_slice(&[7, 8, 9]);
    data[3..7].copy_from_slice(&2u32.to_le_bytes());
    data[16..20].copy_from_slice(&5i32.to_le_bytes());
    data[20..24].copy_from_slice(&(-6i32).to_le_bytes());
    let sectors = vec![sector(data, &[(7, 0, 16)]), sector(types, &[(40, 1, 96)])];
    let (end, list) = parse_element(Endianness::Little, false, &sectors, 0, 1, 0, 0).unwrap();
    assert_eq!(end, 11);
    assert_eq!(list.len(), 2);
    assert_eq!(list[0].name, "");
    assert_eq!(list[0].element, ElementType::Array(vec![ElementType::U8(7), ElementType::U8(8), ElementType::U8(9)]));
    let ElementType::Reference(items) = &list[1].element else { panic!("not a reference") };
    assert_eq!(items.len(), 2);
    assert_eq!(items[0].element, ElementType::I32(5));
    assert_eq!(items[1].element, ElementType::I32(-6));
    assert_eq!(parse_element(Endianness::Little, false, &sectors, 0, 1, 25, 0).err(), Some(DecodeError::OffsetOutOfRange));
    assert_eq!(parse_element(Endianness::Little, false, &sectors, 2, 1, 0, 0).err(), Some(DecodeError::SectorOutOfRange(2)));
}

#[test]
fn indirect_array_of_references() {
    // Types (sector 1): an indirect array (id 4) of lists of one I32, then the end.
    let mut types = vec![0u8; 32 * 4];
    types[0..4].copy_from_slice(&4u32.to_le_bytes());
    types[64..68].copy_from_slice(&19u32.to_le_bytes());
    // Data (sector 0): count 2, pointer to a table of two pointers at 8, values at 16 and 20.
    let mut data = vec![0u8; 24];
    data[0..4].copy_from_slice(&2u32.to_le_bytes());
    data[16..20].copy_from_slice(&11i32.to_le_bytes());
    data[20..24].copy_from_slice(&12i32.to_le_bytes());
    let fixups = [(4, 0, 8), (8, 0, 20), (12, 0, 16)];
    let sectors = vec![sector(data.clone(), &fixups), sector(types.clone(), &[(8, 1, 64)])];
    let (end, list) = parse_element(Endianness::Little, false, &sectors, 0, 1, 0, 0).unwrap();
    assert_eq!(end, 8);
    let ElementType::ArrayOfReferences(lists) = &list[0].element else { panic!("not an array") };
    assert_eq!(lists.len(), 2);
    assert_eq!(lists[0][0].element, ElementType::I32(12));
    assert_eq!(lists[1][0].element, ElementType::I32(11));
    let broken = vec![sector(data.clone(), &fixups[..2]), sector(types.clone(), &[(8, 1, 64)])];
    assert_eq!(parse_element(Endianness::Little, false, &broken, 0, 1, 0, 0).err(), Some(DecodeError::MissingFixup(12)));
    // A count above zero with no table fixup is a missing fixup at the table slot.
    let no_table = vec![sector(data.clone(), &fixups[1..]), sector(types.clone(), &[(8, 1, 64)])];
    assert_eq!(parse_element(Endianness::Little, false, &no_table, 0, 1, 0, 0).err(), Some(DecodeError::MissingFixup(4)));
    // A table past the end of its sector is an offset out of range.
    let far = [(4, 0, 25), (8, 0, 20), (12, 0, 16)];
    let past_end = vec![sector(data.clone(), &far), sector(types.clone(), &[(8, 1, 64)])];
    assert_eq!(parse_element(Endianness::Little, false, &past_end, 0, 1, 0, 0).err(), Some(DecodeError::OffsetOutOfRange));
    // With a count of zero and no table fixup the array is empty.
    let mut empty = data;
    empty[0..4].copy_from_slice(&0u32.to_le_bytes());
    let none = vec![sector(empty, &fixups[1..]), sector(types, &[(8, 1, 64)])];
    let (_, list) = parse_element(Endianness::Little, false, &none, 0, 1, 0, 0).unwrap();
    assert_eq!(list[0].element, ElementType::ArrayOfReferences(vec![]));
}
