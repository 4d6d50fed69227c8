//! Compact content identifiers: a 128-bit magnitude with a category tag,
//! rendered losslessly as base62 text, base16 text, or 16 raw big-endian
//! bytes, and an opaque 20-byte file identifier with a hex rendering.

pub mod codec;
pub mod file_id;
pub mod id;
pub mod raw;
pub mod text;

pub use crate::file_id::FileId;
pub use crate::id::{SpotifyId, SpotifyIdError, SpotifyTrackType};
