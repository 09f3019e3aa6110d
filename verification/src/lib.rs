//! A verified core for a streaming audio player: a progressive download
//! cache that can be read and seeked while it is still being filled, and a
//! fallback selector that picks the first remote source able to serve a
//! track.

pub mod track;
pub mod playlist;
pub mod cache;
pub mod stream;
pub mod resolve;
pub mod candidates;
