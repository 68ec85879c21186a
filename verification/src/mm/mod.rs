use vstd::prelude::*;

pub mod pages;

verus! {

/// How the memory behind a mapping is provided.
#[derive(Clone, Copy, PartialEq, Eq, Structural, Debug)]
pub enum MemoryType {
    /// Reserved but not backed by pages until first touched.
    Unallocated,
    /// Backed by freshly allocated, zeroed pages.
    Allocated,
    /// Backed by memory that already exists (such as device registers).
    Existing,
    /// Existing memory that must not be cached.
    ExistingNoCache,
}

/// The access that a mapping permits.
#[derive(Clone, Copy, PartialEq, Eq, Structural, Debug)]
pub enum MemoryPermissions {
    ReadOnly,
    ReadExecute,
    ReadWrite,
    ReadWriteExecute,
}

} // verus!
