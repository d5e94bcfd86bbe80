//! The container formats and what they share.

pub mod bytes;
pub mod dictionary;
pub mod error;
pub mod m4a;
pub mod meta;
pub mod text;
pub mod utils;
pub mod mpeg;
