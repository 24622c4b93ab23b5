//! Streaming gzip transfers: a byte source is copied chunk by chunk into a
//! sink that compresses or decompresses, with progress reported along the way.

pub mod codec;
pub mod config;
pub mod copier;
pub mod error;
pub mod paths;
pub mod session;

