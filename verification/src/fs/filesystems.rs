use vstd::prelude::*;

use crate::errors::KernelError;
use crate::block::DeviceID;
use super::types::{FileAttributes, FileAccess, FilePointer, DirEntry, DEFAULT_DIR_ACCESS};

verus! {

/// The in-memory filesystem type.
pub struct TmpFilesystem {}

/// The filesystem type of the device files.
pub struct DevFilesystem {}

/// The filesystem type that shows the processes.
pub struct ProcFilesystem {}

impl TmpFilesystem {
    /// The filesystem type.
    pub fn new() -> (r: Self) {
        TmpFilesystem {}
    }

    /// The name under which the filesystem type is mounted.
    pub fn fstype(&self) -> (r: &'static str)
        ensures
            r@ == "tmpfs"@,
    {
        "tmpfs"
    }
}

impl DevFilesystem {
    /// The filesystem type.
    pub fn new() -> (r: Self) {
        DevFilesystem {}
    }

    /// The name under which the filesystem type is mounted.
    pub fn fstype(&self) -> (r: &'static str)
        ensures
            r@ == "devfs"@,
    {
        "devfs"
    }
}

impl ProcFilesystem {
    /// The filesystem type.
    pub fn new() -> (r: Self) {
        ProcFilesystem {}
    }

    /// The name under which the filesystem type is mounted.
    pub fn fstype(&self) -> (r: &'static str)
        ensures
            r@ == "procfs"@,
    {
        "procfs"
    }
}

/// The root directory of the device files.
pub struct DevRootDirectoryVnode {
    pub attrs: FileAttributes,
}

impl DevRootDirectoryVnode {
    /// The root directory, owned by the superuser.
    pub fn new() -> (r: Self)
        ensures
            r.attrs.access == FileAccess(DEFAULT_DIR_ACCESS),
            r.attrs.uid == 0 && r.attrs.gid == 0,
    {
        DevRootDirectoryVnode { attrs: FileAttributes::new(FileAccess(DEFAULT_DIR_ACCESS), 0, 0) }
    }
}

/// A device file: its attributes and the character device it stands for.
pub struct DevCharDeviceVnode {
    pub attrs: FileAttributes,
    pub device_id: DeviceID,
}

impl DevCharDeviceVnode {
    /// The device file of `device_id`, with the default attributes.
    pub fn new(device_id: DeviceID) -> (r: Self)
        ensures
            r.device_id == device_id,
            r.attrs.access == FileAccess(super::types::DEFAULT_FILE_ACCESS),
            r.attrs.size == 0,
    {
        DevCharDeviceVnode { attrs: FileAttributes::default_attributes(), device_id }
    }

    /// Accounts for a transfer of `nbytes` bytes by the device: the file pointer moves past
    /// them and the count is returned.
    pub fn transferred(&self, file: &mut FilePointer, nbytes: usize) -> (r: Result<usize, KernelError>)
        requires
            old(file).position + nbytes <= usize::MAX,
        ensures
            final(file).position == old(file).position + nbytes,
            r == Ok::<usize, KernelError>(nbytes),
    {
        file.position = file.position + nbytes;
        Ok(nbytes)
    }
}

/// The state of a task as the process files show it.
#[derive(Clone, Copy, PartialEq, Eq, Structural, Debug)]
pub enum TaskState {
    Exited,
    Running,
    Blocked,
}

/// The letter that shows a task's state.
pub fn proc_state(state: TaskState) -> (r: char)
    ensures
        r == match state { TaskState::Exited => 'Z', TaskState::Running => 'R', TaskState::Blocked => 'S' },
{
    match state {
        TaskState::Exited => 'Z',
        TaskState::Running => 'R',
        TaskState::Blocked => 'S',
    }
}

/// The decimal digits of `n`, most significant first.
pub open spec fn spec_decimal(n: nat) -> Seq<u8>
    decreases n,
{
    if n < 10 {
        seq![(48 + n) as u8]
    } else {
        spec_decimal(n / 10).push((48 + n % 10) as u8)
    }
}

/// The decimal digits of `n`, most significant first.
pub fn decimal_bytes(n: u32) -> (r: Vec<u8>)
    ensures
        r@ == spec_decimal(n as nat),
    decreases n,
{
    if n < 10 {
        let mut v: Vec<u8> = Vec::new();
        v.push((48 + n) as u8);
        assert(v@ =~= seq![(48 + n) as u8]);
        v
    } else {
        let mut v = decimal_bytes(n / 10);
        v.push((48 + n % 10) as u8);
        v
    }
}

/// The number of files that the root of the process files lists besides the processes.
pub const PROC_ROOT_ENTRIES: usize = 1;

/// The name of the file at `index` among the files of the root of the process files.
pub open spec fn spec_root_entry_name(index: int) -> Seq<u8> {
    seq![109u8, 111, 117, 110, 116, 115]
}

/// The root of the process files: ".", "..", a directory per process and the other files.
pub struct ProcFsRootVnode {
    pub attrs: FileAttributes,
}

/// The entry of the root of the process files at `position`, for the task slots `slots`
/// (the process held in each, if any): its name, or none.
pub open spec fn spec_proc_readdir(slots: Seq<Option<u32>>, position: int) -> Option<Seq<u8>> {
    if position >= slots.len() + PROC_ROOT_ENTRIES + 2 {
        None
    } else if position == 0 {
        Some(seq![46u8])
    } else if position == 1 {
        Some(seq![46u8, 46])
    } else if position < slots.len() + 2 {
        match slots[position - 2] {
            None => None,
            Some(pid) => Some(spec_decimal(pid as nat)),
        }
    } else {
        Some(spec_root_entry_name(position - slots.len() - 2))
    }
}

impl ProcFsRootVnode {
    /// The root directory, owned by the superuser.
    pub fn new() -> (r: Self)
        ensures
            r.attrs.access == FileAccess(DEFAULT_DIR_ACCESS),
    {
        ProcFsRootVnode { attrs: FileAttributes::new(FileAccess(DEFAULT_DIR_ACCESS), 0, 0) }
    }

    /// Reads the entry at the file pointer, given the task slots of the scheduler (the
    /// process held in each, if any), and moves the pointer past it; none at the end, or at an
    /// empty slot, where the pointer stays.
    pub fn readdir(&self, file: &mut FilePointer, slots: &[Option<u32>]) -> (r: Result<Option<DirEntry>, KernelError>)
        requires
            slots@.len() + PROC_ROOT_ENTRIES + 2 <= usize::MAX,
        ensures
            match spec_proc_readdir(slots@, old(file).position as int) {
                None => r matches Ok(None) && final(file).position == old(file).position,
                Some(name) => r matches Ok(Some(d)) && d.inode == 0 && d.name@ == name
                    && final(file).position == old(file).position + 1,
            },
    {
        let slot_len = slots.len();
        if file.position >= slot_len + PROC_ROOT_ENTRIES + 2 {
            return Ok(None);
        }
        if file.position == 0 {
            file.position = file.position + 1;
            let name: [u8; 1] = [46u8];
            let d = DirEntry::new(0, name.as_slice());
            assert(d.name@ =~= seq![46u8]);
            Ok(Some(d))
        } else if file.position == 1 {
            file.position = file.position + 1;
            let name: [u8; 2] = [46u8, 46u8];
            let d = DirEntry::new(0, name.as_slice());
            assert(d.name@ =~= seq![46u8, 46]);
            Ok(Some(d))
        } else if file.position < slot_len + 2 {
            let pid = match slots[file.position - 2] {
                None => { return Ok(None); },
                Some(pid) => pid,
            };
            let digits = decimal_bytes(pid);
            let d = DirEntry::new(0, digits.as_slice());
            file.position = file.position + 1;
            Ok(Some(d))
        } else {
            file.position = file.position + 1;
            let name: [u8; 6] = [109u8, 111u8, 117u8, 110u8, 116u8, 115u8];
            let d = DirEntry::new(0, name.as_slice());
            assert(d.name@ =~= seq![109u8, 111, 117, 110, 116, 115]);
            Ok(Some(d))
        }
    }
}

} // verus!
