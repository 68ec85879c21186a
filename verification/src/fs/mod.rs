pub mod ext2;
pub mod types;
pub mod generic;
pub mod filesystems;
pub mod vfs;
pub mod filedesc;
