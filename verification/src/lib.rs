//! A personal media-library catalog: playlists of songs, a persisted
//! document format for the whole library, acquisition orchestration for an
//! external downloader, and search over song names.

pub mod acquire;
pub mod catalog;
pub mod codec;
pub mod laws;
pub mod text;
