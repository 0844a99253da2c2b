//! Turning a sector's stored bytes into its contents.
pub use crate::sector::decompress_sector;
