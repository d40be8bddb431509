//! Inventory of the NTFS alternate data streams that a Linux-mounted volume
//! exposes through extended attributes: decoding of a file's stream list,
//! exclusion of unwanted streams, and the decisions of a scan of a directory
//! tree.
pub mod decode;
pub mod error;
pub mod filter;
pub mod partitions;
pub mod record;
pub mod scan;
pub mod settings;
pub mod text;
