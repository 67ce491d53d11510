//! Front end of a binary-analysis framework: an ELF loader/linker that builds
//! a flat memory image from a root binary and its shared-library dependencies,
//! and a basic-block model for the intermediate language that lifted code is
//! represented in.

pub mod block;
pub mod elf;
pub mod error;
pub mod il;
pub mod linker;
pub mod memory;
pub mod names;
