//! Decoding of a compact binary columnar format for schema-typed rows.
//!
//! Values are stored column by column. A separate presence bitmap records,
//! per row and per field, whether a value exists, and every section carries a
//! trailing CRC-32 that is checked before any of its bytes are interpreted.
//! Everything here works on byte buffers that are already in memory.

pub mod encoding;
pub mod error;
pub mod read;
pub mod schema;
