//! Decoding of region files: a fixed 8 KiB header of chunk locations and
//! timestamps followed by independently compressed chunk payloads.
pub mod bigendian;
pub mod data;
pub mod dimension;
pub mod error;
pub mod names;
pub mod nbt;
pub mod region;
pub mod util;

pub use data::{Bytes, Chunk, CompressionType, Location, ParsedChunk};
pub use dimension::{Dimension, DimensionID, RegionParser, RegionRef};
pub use error::Error;
pub use region::{ChunkLookup, Region};
