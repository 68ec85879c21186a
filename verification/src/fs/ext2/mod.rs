use vstd::prelude::*;

pub mod superblock;
pub mod inodes;
pub mod blocks;
pub mod directories;
pub mod directory_proofs;
pub mod files;

verus! {

/// The number of an inode.
pub type Ext2InodeNum = u32;

/// The number of a block of an ext2 filesystem.
pub type Ext2BlockNumber = u32;

/// The ext2 filesystem type.
pub struct Ext2Filesystem {}

impl Ext2Filesystem {
    /// The filesystem type.
    pub fn new() -> (r: Self) {
        Ext2Filesystem {}
    }

    /// The name under which the filesystem type is mounted.
    pub fn fstype(&self) -> (r: &'static str)
        ensures
            r@ == "ext2"@,
    {
        "ext2"
    }
}

} // verus!
