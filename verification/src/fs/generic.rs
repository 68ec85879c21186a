use vstd::prelude::*;

use crate::errors::KernelError;
use super::types::{FileAttributes, FileAccess, FilePointer, Seek, UserID, GroupID, DirEntry};
use crate::misc::bytes_equal;

verus! {

/// A file held in memory: its attributes and its bytes.
pub struct GenericFileVnode {
    pub attrs: FileAttributes,
    pub contents: Vec<u8>,
}

/// The bytes of a file after writing `data` at `pos`: the file grows to hold them, with
/// zeroes between its old end and `pos`; writing nothing changes nothing.
pub open spec fn spec_write_contents(contents: Seq<u8>, pos: int, data: Seq<u8>) -> Seq<u8> {
    if data.len() == 0 {
        contents
    } else {
        let len = if contents.len() > pos + data.len() { contents.len() as int } else { pos + data.len() };
        Seq::new(len as nat, |i: int|
            if pos <= i < pos + data.len() { data[i - pos] } else if i < contents.len() { contents[i] } else { 0u8 })
    }
}

/// The number of bytes that a read of `len` bytes at `pos` gets from a file of `size` bytes.
pub open spec fn spec_read_count(size: int, pos: int, len: int) -> int {
    if pos >= size { 0 } else if size - pos < len { size - pos } else { len }
}

/// The position that a seek reaches: `offset` from the start, the position or the end, and
/// no further than the size recorded in the attributes.
pub open spec fn spec_seek(size: int, position: int, offset: int, whence: Seek) -> int {
    let target = match whence {
        Seek::FromStart => offset,
        Seek::FromCurrent => position + offset,
        Seek::FromEnd => size + offset,
    };
    if target >= size { size } else { target }
}

impl GenericFileVnode {
    /// An empty file with the given mode and owner.
    pub fn empty(access: FileAccess, uid: UserID, gid: GroupID) -> (r: Self)
        ensures
            r.attrs.access == access && r.attrs.uid == uid && r.attrs.gid == gid,
            r.attrs.size == 0,
            r.contents@.len() == 0,
    {
        GenericFileVnode { attrs: FileAttributes::new(access, uid, gid), contents: Vec::new() }
    }

    /// A file with the given mode and owner holding `data`.
    pub fn with_data(access: FileAccess, uid: UserID, gid: GroupID, data: Vec<u8>) -> (r: Self)
        ensures
            r.attrs.access == access && r.attrs.uid == uid && r.attrs.gid == gid,
            r.attrs.size == 0,
            r.contents@ == data@,
    {
        GenericFileVnode { attrs: FileAttributes::new(access, uid, gid), contents: data }
    }

    /// Empties the file.
    pub fn truncate(&mut self) -> (r: Result<(), KernelError>)
        ensures
            r is Ok,
            final(self).contents@.len() == 0,
            final(self).attrs == old(self).attrs,
    {
        self.contents.clear();
        Ok(())
    }

    /// Reads from the file at the file pointer into `buffer`, as much as the buffer holds or
    /// the file has left, and moves the pointer past what was read.
    pub fn read(&self, file: &mut FilePointer, buffer: &mut Vec<u8>) -> (r: Result<usize, KernelError>)
        ensures
            ({
                let n = spec_read_count(self.contents@.len() as int, old(file).position as int, old(buffer)@.len() as int);
                &&& r == Ok::<usize, KernelError>(n as usize)
                &&& final(file).position == old(file).position + n
                &&& final(buffer)@.len() == old(buffer)@.len()
                &&& forall|i: int| 0 <= i < n ==> final(buffer)@[i] == self.contents@[old(file).position + i]
                &&& forall|i: int| n <= i < old(buffer)@.len() ==> final(buffer)@[i] == old(buffer)@[i]
            }),
    {
        let start = file.position;
        let len = buffer.len();
        let size = self.contents.len();
        let mut i: usize = 0;
        let ghost buf0 = buffer@;
        while i < len && file.position < size
            invariant
                0 <= i <= len,
                len == buf0.len(),
                buf0 == old(buffer)@,
                start == old(file).position,
                size == self.contents@.len(),
                buffer@.len() == len,
                file.position == start + i,
                i > 0 ==> start + i <= size,
                forall|k: int| 0 <= k < i ==> buffer@[k] == self.contents@[start + k],
                forall|k: int| i <= k < len ==> buffer@[k] == buf0[k],
            decreases len - i,
        {
            buffer.set(i, self.contents[file.position]);
            file.position = file.position + 1;
            i += 1;
        }
        Ok(file.position - start)
    }

    /// Writes `buffer` into the file at the file pointer, growing the file as needed, and
    /// moves the pointer past what was written.
    pub fn write(&mut self, file: &mut FilePointer, buffer: &[u8]) -> (r: Result<usize, KernelError>)
        requires
            old(file).position + buffer@.len() < usize::MAX,
        ensures
            r == Ok::<usize, KernelError>(buffer@.len() as usize),
            final(file).position == old(file).position + buffer@.len(),
            final(self).contents@ == spec_write_contents(old(self).contents@, old(file).position as int, buffer@),
            final(self).attrs == old(self).attrs,
    {
        let start = file.position;
        let ghost c0 = self.contents@;
        let mut i: usize = 0;
        while i < buffer.len()
            invariant
                0 <= i <= buffer@.len(),
                start == old(file).position,
                c0 == old(self).contents@,
                start + buffer@.len() < usize::MAX,
                file.position == start + i,
                self.attrs == old(self).attrs,
                i == 0 ==> self.contents@ == c0,
                i > 0 ==> self.contents@ == spec_write_contents(c0, start as int, buffer@.subrange(0, i as int)),
            decreases buffer@.len() - i,
        {
            let ghost before = self.contents@;
            if file.position >= self.contents.len() {
                let mut k: usize = self.contents.len();
                while k <= file.position
                    invariant
                        before.len() <= k <= file.position + 1,
                        file.position >= before.len(),
                        file.position < usize::MAX,
                        self.contents@.len() == k,
                        self.attrs == old(self).attrs,
                        forall|j: int| 0 <= j < before.len() ==> self.contents@[j] == before[j],
                        forall|j: int| before.len() <= j < k ==> self.contents@[j] == 0u8,
                    decreases file.position + 1 - k,
                {
                    self.contents.push(0);
                    k += 1;
                }
            }
            let ghost padded = self.contents@;
            assert(padded.len() == if before.len() > file.position + 1 { before.len() as int } else { file.position + 1 });
            assert(forall|j: int| 0 <= j < before.len() ==> padded[j] == before[j]);
            assert(forall|j: int| before.len() <= j < padded.len() ==> padded[j] == 0u8);
            let ghost ii = i as int;
            let ghost prev = buffer@.subrange(0, ii);
            let ghost next = buffer@.subrange(0, ii + 1);
            self.contents.set(file.position, buffer[i]);
            file.position = file.position + 1;
            i += 1;
            proof {
                let s = spec_write_contents(c0, start as int, next);
                assert(next.len() == ii + 1);
                if ii > 0 {
                    assert(before == spec_write_contents(c0, start as int, prev));
                }
                assert(self.contents@.len() == s.len());
                assert forall|j: int| 0 <= j < s.len() implies self.contents@[j] == s[j] by {
                    if j == start + ii {
                        assert(self.contents@[j] == buffer@[ii]);
                        assert(s[j] == next[ii]);
                    } else if j < before.len() {
                        assert(self.contents@[j] == before[j]);
                        if ii > 0 {
                            if start <= j < start + ii {
                                assert(before[j] == prev[j - start]);
                                assert(prev[j - start] == next[j - start]);
                            } else {
                                assert(before[j] == if j < c0.len() { c0[j] } else { 0u8 });
                            }
                        } else {
                            assert(before[j] == c0[j]);
                        }
                    } else {
                        assert(self.contents@[j] == 0u8);
                    }
                }
                assert(self.contents@ =~= s);
            }
        }
        assert(buffer@.subrange(0, buffer@.len() as int) =~= buffer@);
        Ok(file.position - start)
    }

    /// Moves the file pointer to `offset` from the start, the pointer or the end (as the
    /// attributes record the size), no further than that size, and returns the new position.
    pub fn seek(&self, file: &mut FilePointer, offset: usize, whence: Seek) -> (r: Result<usize, KernelError>)
        requires
            whence == Seek::FromCurrent ==> old(file).position + offset <= usize::MAX,
            whence == Seek::FromEnd ==> self.attrs.size + offset <= usize::MAX,
        ensures
            final(file).position == spec_seek(self.attrs.size as int, old(file).position as int, offset as int, whence),
            r == Ok::<usize, KernelError>(final(file).position),
    {
        let position = match whence {
            Seek::FromStart => offset,
            Seek::FromCurrent => file.position + offset,
            Seek::FromEnd => self.attrs.size + offset,
        };
        if position >= self.attrs.size {
            file.position = self.attrs.size;
        } else {
            file.position = position;
        }
        Ok(file.position)
    }
}

/// What a read gives back of a write: after `data` is written at `pos`, a read of as many
/// bytes at `pos` gets all of them, and they are `data`.
pub proof fn lemma_read_after_write(contents: Seq<u8>, pos: int, data: Seq<u8>)
    requires
        0 <= pos,
    ensures
        spec_read_count(spec_write_contents(contents, pos, data).len() as int, pos, data.len() as int) == data.len()
            || (data.len() == 0),
        forall|i: int| 0 <= i < data.len() ==> spec_write_contents(contents, pos, data)[pos + i] == data[i],
{
}

/// Writing leaves the bytes outside the written range as they were, and zeroes the gap
/// between the old end of the file and the start of the write.
pub proof fn lemma_write_keeps_others(contents: Seq<u8>, pos: int, data: Seq<u8>, i: int)
    requires
        0 <= pos,
        data.len() > 0,
        0 <= i < spec_write_contents(contents, pos, data).len(),
        !(pos <= i < pos + data.len()),
    ensures
        spec_write_contents(contents, pos, data)[i] == if i < contents.len() { contents[i] } else { 0u8 },
{
}

/// An entry of a directory held in memory: a name and the node it names.
pub struct GenericDirEntry<V> {
    pub name: Vec<u8>,
    pub vnode: V,
}

/// A directory held in memory: its attributes and its entries, in the order of creation.
pub struct GenericDirectoryVnode<V> {
    pub attrs: FileAttributes,
    pub contents: Vec<GenericDirEntry<V>>,
}

/// The position of the first entry named `name` from `i` on, or the number of entries.
pub open spec fn spec_find_entry<V>(contents: Seq<GenericDirEntry<V>>, name: Seq<u8>, i: int) -> int
    decreases contents.len() - i,
{
    if i >= contents.len() {
        contents.len() as int
    } else if contents[i].name@ == name {
        i
    } else {
        spec_find_entry(contents, name, i + 1)
    }
}

impl<V> GenericDirectoryVnode<V> {
    /// An empty directory with the given mode and owner.
    pub fn new(access: FileAccess, uid: UserID, gid: GroupID) -> (r: Self)
        ensures
            r.attrs.access == access && r.attrs.uid == uid && r.attrs.gid == gid,
            r.contents@.len() == 0,
    {
        GenericDirectoryVnode { attrs: FileAttributes::new(access, uid, gid), contents: Vec::new() }
    }

    /// Adds an entry naming `vnode` as `filename`, after the existing entries.
    pub fn create(&mut self, filename: &[u8], vnode: V) -> (r: Result<(), KernelError>)
        ensures
            r is Ok,
            final(self).attrs == old(self).attrs,
            final(self).contents@.len() == old(self).contents@.len() + 1,
            final(self).contents@[old(self).contents@.len() as int].name@ == filename@,
            final(self).contents@[old(self).contents@.len() as int].vnode == vnode,
            forall|k: int| 0 <= k < old(self).contents@.len() ==> final(self).contents@[k] == old(self).contents@[k],
    {
        let name = crate::misc::copy_range(filename, 0, filename.len());
        assert(name@ =~= filename@);
        self.contents.push(GenericDirEntry { name, vnode });
        Ok(())
    }

    /// The node named `filename`: that of the first entry with that name; `FileNotFound`
    /// when none has it.
    pub fn lookup(&self, filename: &[u8]) -> (r: Result<&V, KernelError>)
        ensures
            ({
                let k = spec_find_entry(self.contents@, filename@, 0);
                if k < self.contents@.len() {
                    r matches Ok(v) && *v == self.contents@[k].vnode
                } else {
                    r matches Err(e) && e == KernelError::FileNotFound
                }
            }),
    {
        let mut i: usize = 0;
        while i < self.contents.len()
            invariant
                0 <= i <= self.contents@.len(),
                spec_find_entry(self.contents@, filename@, 0) == spec_find_entry(self.contents@, filename@, i as int),
            decreases self.contents@.len() - i,
        {
            if bytes_equal(self.contents[i].name.as_slice(), filename) {
                return Ok(&self.contents[i].vnode);
            }
            i += 1;
        }
        Err(KernelError::FileNotFound)
    }

    /// Reads the entry at the file pointer, whose position counts entries, and moves the
    /// pointer to the next one; none past the last entry.
    pub fn readdir(&self, file: &mut FilePointer) -> (r: Result<Option<DirEntry>, KernelError>)
        ensures
            old(file).position >= self.contents@.len() ==> (r matches Ok(None) && final(file).position == old(file).position),
            old(file).position < self.contents@.len() ==> (r matches Ok(Some(d)) && d.inode == 0
                && d.name@ == self.contents@[old(file).position as int].name@
                && final(file).position == old(file).position + 1),
    {
        if file.position >= self.contents.len() {
            return Ok(None);
        }
        let result = DirEntry::new(0, self.contents[file.position].name.as_slice());
        file.position = file.position + 1;
        Ok(Some(result))
    }
}

/// An entry created in a directory is found by its name unless an earlier entry has the
/// same name.
pub proof fn lemma_created_entry_found<V>(contents: Seq<GenericDirEntry<V>>, entry: GenericDirEntry<V>)
    requires
        spec_find_entry(contents, entry.name@, 0) == contents.len(),
    ensures
        spec_find_entry(contents.push(entry), entry.name@, 0) == contents.len(),
{
    lemma_find_entry_in_prefix(contents, entry, 0);
}

proof fn lemma_find_entry_in_prefix<V>(contents: Seq<GenericDirEntry<V>>, entry: GenericDirEntry<V>, i: int)
    requires
        0 <= i <= contents.len(),
        spec_find_entry(contents, entry.name@, i) == contents.len(),
    ensures
        spec_find_entry(contents.push(entry), entry.name@, i) == contents.len(),
    decreases contents.len() - i,
{
    if i < contents.len() {
        assert(contents.push(entry)[i] == contents[i]);
        lemma_find_entry_in_prefix(contents, entry, i + 1);
    } else {
        assert(contents.push(entry)[i] == entry);
    }
}

} // verus!
