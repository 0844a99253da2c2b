//! The record and element parsers under one path.
pub use crate::element::{parse_element, parse_element_at, parse_string, parse_type_info};
pub use crate::model::{Element, ElementType, Transform, TypeInfo};
pub use crate::records::{
    parse_file_info, parse_header, parse_pointer, parse_reference, parse_sector_info, FileInfo,
    Header, Pointer, Reference, SectorInfo,
};
