//! An in-memory filesystem engine: a flat namespace of regular files under one
//! root directory, with the operations a kernel filesystem bridge asks for.

pub mod allocator;
pub mod attr;
pub mod clock;
pub mod content;
pub mod dir;
pub mod error;
pub mod fs;
pub mod inode;
pub mod laws;
pub mod model;
pub mod store;
