//! A directory-tree scanner: builds an ordered forest of file and directory
//! entries from a raw listing, counts files and directories at the top level,
//! and renders the forest as indented text lines.

pub mod count;
pub mod item;
pub mod render;
pub mod scan;
