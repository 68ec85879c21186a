use vstd::prelude::*;

use crate::errors::KernelError;

verus! {

/// The most files that a process can have open.
pub const MAX_OPEN_FILES: usize = 100;

/// The number by which a process names one of its open files.
#[derive(Clone, Copy, PartialEq, Eq, Structural, Debug)]
pub struct FileDesc(pub usize);

impl FileDesc {
    /// The number as an index.
    pub fn as_usize(self) -> (r: usize)
        ensures
            r == self.0,
    {
        self.0
    }
}

/// The open files of a process, by number; a number whose file was closed is free.
pub struct FileDescriptors<F> {
    pub cwd: Option<F>,
    pub list: Vec<Option<F>>,
}

/// The first free number of the table, which is past its end when every number is in use.
pub open spec fn spec_first_free<F>(list: Seq<Option<F>>) -> int {
    spec_first_free_from(list, 0)
}

/// The first free number of the table at or after `i`, or its length.
pub open spec fn spec_first_free_from<F>(list: Seq<Option<F>>, i: int) -> int
    decreases list.len() - i,
{
    if i >= list.len() {
        list.len() as int
    } else if list[i] is None {
        i
    } else {
        spec_first_free_from(list, i + 1)
    }
}

/// The table holds at most the permitted number of entries.
pub open spec fn table_bounded<F>(list: Seq<Option<F>>) -> bool {
    list.len() <= MAX_OPEN_FILES
}

impl<F> FileDescriptors<F> {
    /// A process's table with no open file and no working directory.
    pub fn new() -> (r: Self)
        ensures
            r.cwd is None,
            r.list@.len() == 0,
    {
        FileDescriptors { cwd: None, list: Vec::new() }
    }

    /// The working directory.
    pub fn get_cwd(&self) -> (r: &Option<F>)
        ensures
            *r == self.cwd,
    {
        &self.cwd
    }

    /// The open file numbered `file_num`; `BadFileNumber` for a number with no open file.
    pub fn get_file(&self, file_num: FileDesc) -> (r: Result<&F, KernelError>)
        ensures
            match r {
                Ok(f) => file_num.0 < self.list@.len() && self.list@[file_num.0 as int] == Some(*f),
                Err(e) => e == KernelError::BadFileNumber
                    && (file_num.0 >= self.list@.len() || self.list@[file_num.0 as int] is None),
            },
    {
        if file_num.as_usize() >= self.list.len() {
            return Err(KernelError::BadFileNumber);
        }
        match &self.list[file_num.as_usize()] {
            Some(f) => Ok(f),
            None => Err(KernelError::BadFileNumber),
        }
    }

    /// The lowest free number, after adding a free entry at the end when every entry is in
    /// use; `TooManyFilesOpen` when the table is full.
    pub fn find_first(&mut self) -> (r: Result<FileDesc, KernelError>)
        ensures
            table_bounded(old(self).list@) ==> table_bounded(final(self).list@),
            final(self).cwd == old(self).cwd,
            r is Err <==> spec_first_free(old(self).list@) == old(self).list@.len()
                && old(self).list@.len() >= MAX_OPEN_FILES,
            match r {
                Ok(fd) => {
                    &&& fd.0 == spec_first_free(old(self).list@)
                    &&& fd.0 < final(self).list@.len()
                    &&& final(self).list@[fd.0 as int] is None
                    &&& if fd.0 < old(self).list@.len() { final(self).list@ == old(self).list@ }
                        else { final(self).list@ == old(self).list@.push(None) }
                },
                Err(e) => e == KernelError::TooManyFilesOpen
                    && spec_first_free(old(self).list@) == old(self).list@.len()
                    && old(self).list@.len() >= MAX_OPEN_FILES
                    && final(self).list@ == old(self).list@,
            },
    {
        let mut i: usize = 0;
        while i < self.list.len() && self.list[i].is_some()
            invariant
                0 <= i <= self.list@.len(),
                self.list@ == old(self).list@,
                self.cwd == old(self).cwd,
                spec_first_free(self.list@) == spec_first_free_from(self.list@, i as int),
            decreases self.list@.len() - i,
        {
            i += 1;
        }
        if i == self.list.len() {
            if i >= MAX_OPEN_FILES {
                return Err(KernelError::TooManyFilesOpen);
            }
            self.list.push(None);
        }
        Ok(FileDesc(i))
    }

    /// Keeps `file` under the lowest free number and returns that number.
    pub fn open(&mut self, file: F) -> (r: Result<FileDesc, KernelError>)
        ensures
            table_bounded(old(self).list@) ==> table_bounded(final(self).list@),
            final(self).cwd == old(self).cwd,
            match r {
                Ok(fd) => {
                    &&& fd.0 == spec_first_free(old(self).list@)
                    &&& fd.0 < final(self).list@.len()
                    &&& final(self).list@[fd.0 as int] == Some(file)
                    &&& forall|k: int| 0 <= k < old(self).list@.len() && k != fd.0 ==> final(self).list@[k] == old(self).list@[k]
                    &&& final(self).list@.len() <= old(self).list@.len() + 1
                },
                Err(e) => e == KernelError::TooManyFilesOpen && final(self).list@ == old(self).list@,
            },
    {
        let file_num = self.find_first()?;
        self.list.set(file_num.as_usize(), Some(file));
        Ok(file_num)
    }

    /// Closes the file numbered `file_num`, which frees the number; `BadFileNumber` for a
    /// number with no open file.
    pub fn close(&mut self, file_num: FileDesc) -> (r: Result<(), KernelError>)
        ensures
            final(self).cwd == old(self).cwd,
            if file_num.0 < old(self).list@.len() && old(self).list@[file_num.0 as int] is Some {
                r is Ok && final(self).list@ == old(self).list@.update(file_num.0 as int, None)
            } else {
                r == Err::<(), KernelError>(KernelError::BadFileNumber) && final(self).list@ == old(self).list@
            },
    {
        if file_num.as_usize() >= self.list.len() || self.list[file_num.as_usize()].is_none() {
            return Err(KernelError::BadFileNumber);
        }
        self.list.set(file_num.as_usize(), None);
        Ok(())
    }

    /// Closes every file.
    pub fn close_all(&mut self)
        ensures
            final(self).list@.len() == 0,
            final(self).cwd == old(self).cwd,
    {
        self.list.clear();
    }
}

/// The first free number from `i` on is no higher than any free number from `i` on.
proof fn lemma_first_free_below<F>(list: Seq<Option<F>>, i: int, fd: int)
    requires
        0 <= i <= fd < list.len(),
        list[fd] is None,
    ensures
        spec_first_free_from(list, i) <= fd,
    decreases fd - i,
{
    if list[i] is Some {
        lemma_first_free_below(list, i + 1, fd);
    }
}

/// A number freed by a close is taken again by the next open, unless a lower one is free.
pub proof fn lemma_closed_number_reused<F>(list: Seq<Option<F>>, fd: int)
    requires
        0 <= fd < list.len(),
    ensures
        spec_first_free(list.update(fd, None)) <= fd,
{
    lemma_first_free_below(list.update(fd, None), 0, fd);
}

} // verus!
