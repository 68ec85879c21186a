use vstd::prelude::*;

use crate::block::DeviceID;

verus! {

/// The number of a user.
pub type UserID = u16;

/// The number of a group of users.
pub type GroupID = u16;

/// The type and permission bits of a file, as in an ext2 inode's mode.
#[derive(Clone, Copy, PartialEq, Eq, Structural, Debug)]
pub struct FileAccess(pub u16);

/// The bits of a mode that give the file's type.
pub const FILE_TYPE_MASK: u16 = 0o170000;
pub const FILE_TYPE_DIRECTORY: u16 = 0o040000;
pub const FILE_TYPE_REGULAR: u16 = 0o100000;
pub const FILE_TYPE_CHAR_DEVICE: u16 = 0o020000;
pub const FILE_TYPE_BLOCK_DEVICE: u16 = 0o060000;
pub const FILE_TYPE_FIFO: u16 = 0o010000;
pub const FILE_TYPE_SOCKET: u16 = 0o140000;
pub const FILE_TYPE_SYMBOLIC_LINK: u16 = 0o120000;

/// The default mode of a new file.
pub const DEFAULT_FILE_ACCESS: u16 = 0o100644;
/// The default mode of a new directory.
pub const DEFAULT_DIR_ACCESS: u16 = 0o040755;
/// The default mode of a file that cannot be written.
pub const DEFAULT_READ_ONLY_FILE_ACCESS: u16 = 0o100444;

impl FileAccess {
    /// The file type bits.
    pub open spec fn spec_file_type(self) -> u16 {
        self.0 & FILE_TYPE_MASK
    }

    /// The file type bits.
    pub fn file_type(self) -> (r: u16)
        ensures
            r == self.spec_file_type(),
    {
        self.0 & FILE_TYPE_MASK
    }

    /// True when the mode is that of a directory.
    pub open spec fn spec_is_dir(self) -> bool {
        self.spec_file_type() == FILE_TYPE_DIRECTORY
    }

    /// True when the mode is that of a directory.
    pub fn is_dir(self) -> (r: bool)
        ensures
            r == self.spec_is_dir(),
    {
        self.file_type() == FILE_TYPE_DIRECTORY
    }

    /// True when the mode is that of a regular file.
    pub fn is_file(self) -> (r: bool)
        ensures
            r == (self.spec_file_type() == FILE_TYPE_REGULAR),
    {
        self.file_type() == FILE_TYPE_REGULAR
    }

    /// The mode with the bits of `other` added.
    pub fn plus(self, other: FileAccess) -> (r: FileAccess)
        ensures
            r.0 == self.0 | other.0,
    {
        FileAccess(self.0 | other.0)
    }
}

/// The attributes of a file.
#[derive(Clone, Copy)]
pub struct FileAttributes {
    pub access: FileAccess,
    pub nlinks: u16,
    pub uid: UserID,
    pub gid: GroupID,
    pub rdev: Option<DeviceID>,
    pub inode: u32,
    pub size: usize,
    pub atime: u32,
    pub mtime: u32,
    pub ctime: u32,
}

impl FileAttributes {
    /// The attributes of a new file with the given mode and owner.
    pub fn new(access: FileAccess, uid: UserID, gid: GroupID) -> (r: Self)
        ensures
            r.access == access,
            r.nlinks == 1,
            r.uid == uid,
            r.gid == gid,
            r.rdev is None,
            r.inode == 0,
            r.size == 0,
            r.atime == 0 && r.mtime == 0 && r.ctime == 0,
    {
        FileAttributes { access, nlinks: 1, uid, gid, rdev: None, inode: 0, size: 0, atime: 0, mtime: 0, ctime: 0 }
    }

    /// The attributes of a new regular file owned by the superuser.
    pub fn default_attributes() -> (r: Self)
        ensures
            r.access == FileAccess(DEFAULT_FILE_ACCESS),
            r.nlinks == 1,
            r.uid == 0 && r.gid == 0,
            r.rdev is None,
            r.inode == 0,
            r.size == 0,
    {
        FileAttributes::new(FileAccess(DEFAULT_FILE_ACCESS), 0, 0)
    }
}

/// The position of an open file.
pub struct FilePointer {
    pub position: usize,
}

impl FilePointer {
    /// A file opened at its start.
    pub fn new() -> (r: Self)
        ensures
            r.position == 0,
    {
        FilePointer { position: 0 }
    }
}

/// Where a seek counts from.
#[derive(Clone, Copy, PartialEq, Eq, Structural, Debug)]
pub enum Seek {
    FromStart,
    FromCurrent,
    FromEnd,
}

/// An entry read from a directory: the inode it names and its file name.
pub struct DirEntry {
    pub inode: u32,
    pub name: Vec<u8>,
}

impl DirEntry {
    /// An entry with the given inode and name.
    pub fn new(inode: u32, name: &[u8]) -> (r: Self)
        ensures
            r.inode == inode,
            r.name@ == name@,
    {
        let mut e = DirEntry::new_empty();
        e.inode = inode;
        e.copy_into(name);
        e
    }

    /// An entry naming no inode, with an empty name.
    pub fn new_empty() -> (r: Self)
        ensures
            r.inode == 0,
            r.name@.len() == 0,
    {
        DirEntry { inode: 0, name: Vec::new() }
    }

    /// Replaces the entry's name with `name`.
    pub fn copy_into(&mut self, name: &[u8])
        ensures
            final(self).inode == old(self).inode,
            final(self).name@ == name@,
    {
        let mut v: Vec<u8> = Vec::new();
        let mut i: usize = 0;
        while i < name.len()
            invariant
                0 <= i <= name@.len(),
                v@ == name@.subrange(0, i as int),
            decreases name@.len() - i,
        {
            v.push(name[i]);
            i += 1;
            assert(v@ =~= name@.subrange(0, i as int));
        }
        assert(v@ =~= name@);
        self.name = v;
    }
}

} // verus!
