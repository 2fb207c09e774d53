//! The ext2 file system driver's own logic: its sector cache, the layout of
//! the disk, block maps, bitmaps and directory blocks.
pub mod cache;
pub mod bytes;
pub mod layout;
pub mod inode;
pub mod bitmap;
pub mod fs;
pub mod dir;
pub mod node;
pub mod flush;
pub mod walk;
pub mod rw;
pub mod diskio;
