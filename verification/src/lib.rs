//! Reading and writing of region containers: up to 1024 independently
//! compressed chunks, addressed by a coordinate `(x, z)` with both components
//! below 32, behind two header tables of 4096 bytes each.

pub mod chunk;
pub mod codec;
pub mod compression;
pub mod error;
pub mod format;
pub mod laws;
pub mod reader;
pub mod writer;

pub use chunk::{PendingChunk, RawChunk};
pub use compression::CompressionType;
pub use error::McaError;
pub use format::{HEADER_SIZE, SECTOR_SIZE};
pub use reader::{RegionIter, RegionReader};
pub use writer::RegionWriter;
