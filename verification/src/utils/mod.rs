//! On-disk partition table formats.
pub mod gpt;
pub mod mbr;
