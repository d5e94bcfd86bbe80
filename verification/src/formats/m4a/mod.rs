//! MPEG-4 files: the tree of atoms that a file is made of, and the iTunes
//! metadata list `ilst` inside it.

pub mod atom;
pub mod file;
pub mod item;
pub mod tag;
