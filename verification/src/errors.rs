use vstd::prelude::*;

verus! {

/// Errors reported by the kernel's subsystems.
#[derive(Debug, Clone, Copy, PartialEq, Eq, Structural)]
pub enum KernelError {
    // Memory Errors
    AddressAlreadyMapped,
    AddressUnmapped,
    AddressMisaligned,
    UnexpectedGranualeSize,
    CorruptTranslationTable,
    OutOfMemory,
    NoSegmentFound,
    MemoryPermissionDenied,
    // Device Errors
    NoSuchDevice,
    OperationNotPermitted,
    DeviceTimeout,
    IOError,
    InvalidIrq,
    // File System Errors
    FileNotOpen,
    FileNotFound,
    NotAFile,
    NotADirectory,
    IsADirectory,
    NoSuchFilesystem,
    BadFileNumber,
    TooManyFilesOpen,
    InvalidSuperblock,
    InvalidInode,
    IncompatibleFeatures,
    FileSizeTooLarge,
    OutOfDiskSpace,
    ReadOnlyFilesystem,
    // Task Errors
    NoSuchTask,
    NotExecutable,
    InvalidArgument,
    InvalidSegmentType,
    BadSystemCall,
    NotExited,
    SuspendProcess,
}


/// Errors as they are reported to user programs.
#[derive(Debug, Clone, Copy, PartialEq, Eq, Structural)]
pub enum ApiError {
    AddressAlreadyMapped,
    AddressUnmapped,
    AddressMisaligned,
    UnexpectedGranualeSize,
    CorruptTranslationTable,
    OutOfMemory,
    NoSegmentFound,
    MemoryPermissionDenied,
    NoSuchDevice,
    OperationNotPermitted,
    DeviceTimeout,
    IOError,
    InvalidIrq,
    FileNotOpen,
    FileNotFound,
    NotAFile,
    NotADirectory,
    IsADirectory,
    NoSuchFilesystem,
    BadFileNumber,
    TooManyFilesOpen,
    InvalidSuperblock,
    InvalidInode,
    IncompatibleFeatures,
    FileSizeTooLarge,
    OutOfDiskSpace,
    ReadOnlyFilesystem,
    NoSuchTask,
    NotExecutable,
    InvalidArgument,
    InvalidSegmentType,
    BadSystemCall,
    NotExited,
    UnknownError,
}

/// The user-visible error that stands for a kernel error: the variant of the same name,
/// and `UnknownError` for kernel-internal conditions.
pub open spec fn spec_api_error(e: KernelError) -> ApiError {
    match e {
        KernelError::AddressAlreadyMapped => ApiError::AddressAlreadyMapped,
        KernelError::AddressUnmapped => ApiError::AddressUnmapped,
        KernelError::AddressMisaligned => ApiError::AddressMisaligned,
        KernelError::UnexpectedGranualeSize => ApiError::UnexpectedGranualeSize,
        KernelError::CorruptTranslationTable => ApiError::CorruptTranslationTable,
        KernelError::OutOfMemory => ApiError::OutOfMemory,
        KernelError::NoSegmentFound => ApiError::NoSegmentFound,
        KernelError::MemoryPermissionDenied => ApiError::MemoryPermissionDenied,
        KernelError::NoSuchDevice => ApiError::NoSuchDevice,
        KernelError::OperationNotPermitted => ApiError::OperationNotPermitted,
        KernelError::DeviceTimeout => ApiError::DeviceTimeout,
        KernelError::IOError => ApiError::IOError,
        KernelError::InvalidIrq => ApiError::InvalidIrq,
        KernelError::FileNotOpen => ApiError::FileNotOpen,
        KernelError::FileNotFound => ApiError::FileNotFound,
        KernelError::NotAFile => ApiError::NotAFile,
        KernelError::NotADirectory => ApiError::NotADirectory,
        KernelError::IsADirectory => ApiError::IsADirectory,
        KernelError::NoSuchFilesystem => ApiError::NoSuchFilesystem,
        KernelError::BadFileNumber => ApiError::BadFileNumber,
        KernelError::TooManyFilesOpen => ApiError::TooManyFilesOpen,
        KernelError::InvalidSuperblock => ApiError::InvalidSuperblock,
        KernelError::InvalidInode => ApiError::InvalidInode,
        KernelError::IncompatibleFeatures => ApiError::IncompatibleFeatures,
        KernelError::FileSizeTooLarge => ApiError::FileSizeTooLarge,
        KernelError::OutOfDiskSpace => ApiError::OutOfDiskSpace,
        KernelError::ReadOnlyFilesystem => ApiError::ReadOnlyFilesystem,
        KernelError::NoSuchTask => ApiError::NoSuchTask,
        KernelError::NotExecutable => ApiError::NotExecutable,
        KernelError::InvalidArgument => ApiError::InvalidArgument,
        KernelError::InvalidSegmentType => ApiError::InvalidSegmentType,
        KernelError::BadSystemCall => ApiError::BadSystemCall,
        KernelError::NotExited => ApiError::NotExited,
        KernelError::SuspendProcess => ApiError::UnknownError,
    }
}

impl KernelError {
    /// Converts a kernel error into the error reported to user programs.
    pub fn to_api_error(self) -> (r: ApiError)
        ensures
            r == spec_api_error(self),
    {
        match self {
            KernelError::AddressAlreadyMapped => ApiError::AddressAlreadyMapped,
            KernelError::AddressUnmapped => ApiError::AddressUnmapped,
            KernelError::AddressMisaligned => ApiError::AddressMisaligned,
            KernelError::UnexpectedGranualeSize => ApiError::UnexpectedGranualeSize,
            KernelError::CorruptTranslationTable => ApiError::CorruptTranslationTable,
            KernelError::OutOfMemory => ApiError::OutOfMemory,
            KernelError::NoSegmentFound => ApiError::NoSegmentFound,
            KernelError::MemoryPermissionDenied => ApiError::MemoryPermissionDenied,
            KernelError::NoSuchDevice => ApiError::NoSuchDevice,
            KernelError::OperationNotPermitted => ApiError::OperationNotPermitted,
            KernelError::DeviceTimeout => ApiError::DeviceTimeout,
            KernelError::IOError => ApiError::IOError,
            KernelError::InvalidIrq => ApiError::InvalidIrq,
            KernelError::FileNotOpen => ApiError::FileNotOpen,
            KernelError::FileNotFound => ApiError::FileNotFound,
            KernelError::NotAFile => ApiError::NotAFile,
            KernelError::NotADirectory => ApiError::NotADirectory,
            KernelError::IsADirectory => ApiError::IsADirectory,
            KernelError::NoSuchFilesystem => ApiError::NoSuchFilesystem,
            KernelError::BadFileNumber => ApiError::BadFileNumber,
            KernelError::TooManyFilesOpen => ApiError::TooManyFilesOpen,
            KernelError::InvalidSuperblock => ApiError::InvalidSuperblock,
            KernelError::InvalidInode => ApiError::InvalidInode,
            KernelError::IncompatibleFeatures => ApiError::IncompatibleFeatures,
            KernelError::FileSizeTooLarge => ApiError::FileSizeTooLarge,
            KernelError::OutOfDiskSpace => ApiError::OutOfDiskSpace,
            KernelError::ReadOnlyFilesystem => ApiError::ReadOnlyFilesystem,
            KernelError::NoSuchTask => ApiError::NoSuchTask,
            KernelError::NotExecutable => ApiError::NotExecutable,
            KernelError::InvalidArgument => ApiError::InvalidArgument,
            KernelError::InvalidSegmentType => ApiError::InvalidSegmentType,
            KernelError::BadSystemCall => ApiError::BadSystemCall,
            KernelError::NotExited => ApiError::NotExited,
            _ => ApiError::UnknownError,
        }
    }
}

/// Distinct kernel errors that user programs can see are reported as distinct API errors,
/// and only a kernel-internal error is reported as `UnknownError`.
pub proof fn lemma_api_error_injective(a: KernelError, b: KernelError)
    requires
        spec_api_error(a) == spec_api_error(b),
        spec_api_error(a) != ApiError::UnknownError,
    ensures
        a == b,
{
}

/// Only the request to suspend the process is reported as an unknown error.
pub proof fn lemma_api_error_unknown(a: KernelError)
    ensures
        (spec_api_error(a) == ApiError::UnknownError) <==> (a == KernelError::SuspendProcess),
{
}

} // verus!
