//! Decoding Granny (GR2) asset files into a navigable tree of named, typed members.
pub mod bytes;
pub mod decompression;
pub mod element;
pub mod error;
pub mod file;
pub mod laws;
pub mod model;
pub mod parser;
pub mod path;
pub mod records;
pub mod sector;
pub mod stream;

pub use bytes::Endianness;
pub use error::DecodeError;
pub use file::GrannyFile;
pub use path::{granny_path, ElementKind, GrannyPathError, GrannyResolve};
