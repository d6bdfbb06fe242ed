//! The read side: checksummed sections, the presence bitmap and the
//! per-type column decoders.

pub mod crc;
pub mod decoders;
pub mod leb128;
pub mod model;
pub mod presence_column;
