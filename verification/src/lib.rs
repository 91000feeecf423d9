pub mod big_endian;
pub mod chunk;
pub mod chunk_type;
pub mod crc;
pub mod png;
pub mod errors;
pub mod text;

pub use chunk::Chunk;
pub use chunk_type::ChunkType;
pub use errors::ChunkNotFound;
pub use errors::PngError;
pub use png::Png;
