//! MPEG audio files and their ID3 tags.

pub mod file;
pub mod frame;
pub mod synch;
pub mod tag;
