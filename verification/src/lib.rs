//! A decoder for the PNG container: it frames a byte stream into chunks and
//! folds the header, palette and image-data chunks into an image descriptor.

pub mod chunk;
pub mod endian;
pub mod error;
pub mod framer;
pub mod image;
pub mod inflate;
pub mod signature;

pub use chunk::{Chunk, ChunkKind, ChunkView};
pub use error::{DecodeError, FramingError};
pub use framer::parse_chunks;
pub use image::{ImageView, PalleteItem, PngImage};
pub use signature::strip_signature;
