use vstd::prelude::*;

use crate::errors::ApiError;
use crate::arch::context::Context;

verus! {

/// The number by which an error is reported to a program: its place in the list of errors.
pub open spec fn spec_api_error_number(e: ApiError) -> usize {
    match e {
        ApiError::AddressAlreadyMapped => 0,
        ApiError::AddressUnmapped => 1,
        ApiError::AddressMisaligned => 2,
        ApiError::UnexpectedGranualeSize => 3,
        ApiError::CorruptTranslationTable => 4,
        ApiError::OutOfMemory => 5,
        ApiError::NoSegmentFound => 6,
        ApiError::MemoryPermissionDenied => 7,
        ApiError::NoSuchDevice => 8,
        ApiError::OperationNotPermitted => 9,
        ApiError::DeviceTimeout => 10,
        ApiError::IOError => 11,
        ApiError::InvalidIrq => 12,
        ApiError::FileNotOpen => 13,
        ApiError::FileNotFound => 14,
        ApiError::NotAFile => 15,
        ApiError::NotADirectory => 16,
        ApiError::IsADirectory => 17,
        ApiError::NoSuchFilesystem => 18,
        ApiError::BadFileNumber => 19,
        ApiError::TooManyFilesOpen => 20,
        ApiError::InvalidSuperblock => 21,
        ApiError::InvalidInode => 22,
        ApiError::IncompatibleFeatures => 23,
        ApiError::FileSizeTooLarge => 24,
        ApiError::OutOfDiskSpace => 25,
        ApiError::ReadOnlyFilesystem => 26,
        ApiError::NoSuchTask => 27,
        ApiError::NotExecutable => 28,
        ApiError::InvalidArgument => 29,
        ApiError::InvalidSegmentType => 30,
        ApiError::BadSystemCall => 31,
        ApiError::NotExited => 32,
        ApiError::UnknownError => 33,
    }
}

/// The number by which an error is reported to a program.
pub fn api_error_number(e: ApiError) -> (r: usize)
    ensures
        r == spec_api_error_number(e),
{
    match e {
        ApiError::AddressAlreadyMapped => 0,
        ApiError::AddressUnmapped => 1,
        ApiError::AddressMisaligned => 2,
        ApiError::UnexpectedGranualeSize => 3,
        ApiError::CorruptTranslationTable => 4,
        ApiError::OutOfMemory => 5,
        ApiError::NoSegmentFound => 6,
        ApiError::MemoryPermissionDenied => 7,
        ApiError::NoSuchDevice => 8,
        ApiError::OperationNotPermitted => 9,
        ApiError::DeviceTimeout => 10,
        ApiError::IOError => 11,
        ApiError::InvalidIrq => 12,
        ApiError::FileNotOpen => 13,
        ApiError::FileNotFound => 14,
        ApiError::NotAFile => 15,
        ApiError::NotADirectory => 16,
        ApiError::IsADirectory => 17,
        ApiError::NoSuchFilesystem => 18,
        ApiError::BadFileNumber => 19,
        ApiError::TooManyFilesOpen => 20,
        ApiError::InvalidSuperblock => 21,
        ApiError::InvalidInode => 22,
        ApiError::IncompatibleFeatures => 23,
        ApiError::FileSizeTooLarge => 24,
        ApiError::OutOfDiskSpace => 25,
        ApiError::ReadOnlyFilesystem => 26,
        ApiError::NoSuchTask => 27,
        ApiError::NotExecutable => 28,
        ApiError::InvalidArgument => 29,
        ApiError::InvalidSegmentType => 30,
        ApiError::BadSystemCall => 31,
        ApiError::NotExited => 32,
        ApiError::UnknownError => 33,
    }
}

/// The system calls that the kernel serves.
#[derive(Clone, Copy, PartialEq, Eq, Structural, Debug)]
pub enum SyscallFunction {
    Exit,
    Fork,
    Exec,
    WaitPid,
    Sbrk,
    Open,
    Close,
    Read,
    Write,
    ReadDir,
}

/// The system call numbered `n` in the order of the list of calls, if any.
pub open spec fn spec_syscall_function(n: u64) -> Option<SyscallFunction> {
    if n == 0 { Some(SyscallFunction::Exit) }
    else if n == 1 { Some(SyscallFunction::Fork) }
    else if n == 2 { Some(SyscallFunction::Exec) }
    else if n == 3 { Some(SyscallFunction::WaitPid) }
    else if n == 4 { Some(SyscallFunction::Sbrk) }
    else if n == 5 { Some(SyscallFunction::Open) }
    else if n == 6 { Some(SyscallFunction::Close) }
    else if n == 7 { Some(SyscallFunction::Read) }
    else if n == 8 { Some(SyscallFunction::Write) }
    else if n == 9 { Some(SyscallFunction::ReadDir) }
    else { None }
}

/// A system call asked for by a task: the call, its arguments, and its result once served.
pub struct SyscallRequest {
    pub function: Option<SyscallFunction>,
    pub args: [usize; 6],
    pub result: usize,
    pub error: bool,
}

impl SyscallRequest {
    /// The system call that the registers of `context` ask for.
    pub fn from_context(context: &Context) -> (r: Self)
        ensures
            r.function == spec_syscall_function(context.x_registers@[6]),
            forall|i: int| 0 <= i < 6 ==> r.args@[i] == context.x_registers@[i] as usize,
            r.result == 0 && !r.error,
    {
        let n = context.syscall_number();
        let function = if n == 0 { Some(SyscallFunction::Exit) }
            else if n == 1 { Some(SyscallFunction::Fork) }
            else if n == 2 { Some(SyscallFunction::Exec) }
            else if n == 3 { Some(SyscallFunction::WaitPid) }
            else if n == 4 { Some(SyscallFunction::Sbrk) }
            else if n == 5 { Some(SyscallFunction::Open) }
            else if n == 6 { Some(SyscallFunction::Close) }
            else if n == 7 { Some(SyscallFunction::Read) }
            else if n == 8 { Some(SyscallFunction::Write) }
            else if n == 9 { Some(SyscallFunction::ReadDir) }
            else { None };
        SyscallRequest { function, args: context.syscall_args(), result: 0, error: false }
    }

    /// Records the outcome of the call: the value, or the error's number and the error flag.
    pub fn store_result(&mut self, result: Result<usize, ApiError>)
        ensures
            final(self).function == old(self).function,
            final(self).args@ == old(self).args@,
            match result {
                Ok(v) => final(self).result == v && !final(self).error,
                Err(e) => final(self).result == spec_api_error_number(e) && final(self).error,
            },
    {
        match result {
            Ok(v) => {
                self.result = v;
                self.error = false;
            },
            Err(e) => {
                self.result = api_error_number(e);
                self.error = true;
            },
        }
    }
}

/// Who serves a system call: the loader of a new program, the handler of the call, or nobody
/// (the call is not known and has been answered with `BadSystemCall`).
#[derive(Clone, Copy, PartialEq, Eq, Structural, Debug)]
pub enum SyscallRoute {
    Exec,
    Handler(SyscallFunction),
    Rejected,
}

/// Decides who serves `syscall`; an unknown call is answered with `BadSystemCall` here.
pub fn process_syscall(syscall: &mut SyscallRequest) -> (r: SyscallRoute)
    ensures
        final(syscall).function == old(syscall).function,
        final(syscall).args@ == old(syscall).args@,
        match old(syscall).function {
            Some(SyscallFunction::Exec) => r == SyscallRoute::Exec
                && final(syscall).result == old(syscall).result && final(syscall).error == old(syscall).error,
            Some(f) => r == SyscallRoute::Handler(f)
                && final(syscall).result == old(syscall).result && final(syscall).error == old(syscall).error,
            None => r == SyscallRoute::Rejected
                && final(syscall).result == spec_api_error_number(ApiError::BadSystemCall) && final(syscall).error,
        },
{
    match syscall.function {
        Some(SyscallFunction::Exec) => SyscallRoute::Exec,
        Some(f) => SyscallRoute::Handler(f),
        None => {
            syscall.store_result(Err(ApiError::BadSystemCall));
            SyscallRoute::Rejected
        },
    }
}

/// Hands the outcome of a served call back to the task. A successful exec leaves the
/// registers alone, since they hold the new program's arguments.
pub fn finish_syscall(context: &mut Context, syscall: &SyscallRequest, route: SyscallRoute)
    ensures
        if route == SyscallRoute::Exec && !syscall.error {
            final(context).x_registers@ == old(context).x_registers@
        } else {
            final(context).x_registers@ == old(context).x_registers@.update(0, syscall.result as u64)
                .update(1, if syscall.error { 1u64 } else { 0u64 })
        },
        final(context).ttbr == old(context).ttbr,
{
    if route == SyscallRoute::Exec && !syscall.error {
        return;
    }
    context.write_syscall_result(syscall.result, syscall.error);
}

/// Reads the system call that the task's registers ask for and decides who serves it.
pub fn handle_syscall(context: &Context) -> (r: (SyscallRequest, SyscallRoute))
    ensures
        r.0.function == spec_syscall_function(context.x_registers@[6]),
        forall|i: int| 0 <= i < 6 ==> r.0.args@[i] == context.x_registers@[i] as usize,
        match r.0.function {
            Some(SyscallFunction::Exec) => r.1 == SyscallRoute::Exec && !r.0.error,
            Some(f) => r.1 == SyscallRoute::Handler(f) && !r.0.error,
            None => r.1 == SyscallRoute::Rejected && r.0.error
                && r.0.result == spec_api_error_number(ApiError::BadSystemCall),
        },
{
    let mut syscall = SyscallRequest::from_context(context);
    let route = process_syscall(&mut syscall);
    (syscall, route)
}

} // verus!
