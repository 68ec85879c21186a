use vstd::prelude::*;

verus! {

/// The exception class of a system call from a program.
pub const ESR_CLASS_SVC64: u64 = 0b010101;

/// The exception class of an instruction abort from a lower level.
pub const ESR_CLASS_INSTRUCTION_ABORT_LOWER: u64 = 0b100000;

/// The exception class of a data abort from a lower level.
pub const ESR_CLASS_DATA_ABORT_LOWER: u64 = 0b100100;

/// The exception class of a data abort at the kernel's own level.
pub const ESR_CLASS_DATA_ABORT_SAME: u64 = 0b100101;

/// The fault status bits that tell the kind of an abort.
pub const ESR_FAULT_KIND_MASK: u64 = 0b111100;

/// An abort caused by a descriptor's access flag: a page not backed yet.
pub const ESR_FAULT_ACCESS_FLAG: u64 = 0b001000;

/// An abort caused by a descriptor's permissions: a copy-on-write page, or a real fault.
pub const ESR_FAULT_PERMISSION: u64 = 0b001100;

/// What the kernel does about an exception.
#[derive(Clone, Copy, PartialEq, Eq, Structural, Debug)]
pub enum ExceptionAction {
    /// Serve the system call that the program asked for.
    Syscall,
    /// Back the page at the faulting address with memory.
    PageFault(u64),
    /// Copy the copy-on-write page at the faulting address, or fail.
    PageAccess(u64),
    /// Report the error and stop.
    Fatal,
}

/// What is done about an exception from a program with syndrome `esr` at address `far`.
pub open spec fn spec_user_exception(esr: u64, far: u64) -> ExceptionAction {
    let class = esr >> 26u64;
    if class == ESR_CLASS_SVC64 {
        ExceptionAction::Syscall
    } else if class == ESR_CLASS_INSTRUCTION_ABORT_LOWER || class == ESR_CLASS_DATA_ABORT_LOWER {
        if esr & ESR_FAULT_KIND_MASK == ESR_FAULT_ACCESS_FLAG {
            ExceptionAction::PageFault(far)
        } else if esr & ESR_FAULT_KIND_MASK == ESR_FAULT_PERMISSION {
            ExceptionAction::PageAccess(far)
        } else {
            ExceptionAction::Fatal
        }
    } else {
        ExceptionAction::Fatal
    }
}

/// What is done about an exception in the kernel with syndrome `esr` at address `far`.
pub open spec fn spec_kernel_exception(esr: u64, far: u64) -> ExceptionAction {
    let class = esr >> 26u64;
    if class == ESR_CLASS_INSTRUCTION_ABORT_LOWER || class == ESR_CLASS_DATA_ABORT_LOWER
        || class == ESR_CLASS_DATA_ABORT_SAME {
        if esr & ESR_FAULT_KIND_MASK == ESR_FAULT_ACCESS_FLAG {
            ExceptionAction::PageFault(far)
        } else {
            ExceptionAction::Fatal
        }
    } else {
        ExceptionAction::Fatal
    }
}

/// Decides what to do about an exception from a program: serve a system call, back a page,
/// handle a permission fault, or stop with a fatal error.
pub fn handle_user_exception(esr: u64, far: u64) -> (r: ExceptionAction)
    ensures
        r == spec_user_exception(esr, far),
{
    let class = esr >> 26u64;
    if class == ESR_CLASS_SVC64 {
        ExceptionAction::Syscall
    } else if class == ESR_CLASS_INSTRUCTION_ABORT_LOWER || class == ESR_CLASS_DATA_ABORT_LOWER {
        if esr & ESR_FAULT_KIND_MASK == ESR_FAULT_ACCESS_FLAG {
            ExceptionAction::PageFault(far)
        } else if esr & ESR_FAULT_KIND_MASK == ESR_FAULT_PERMISSION {
            ExceptionAction::PageAccess(far)
        } else {
            ExceptionAction::Fatal
        }
    } else {
        ExceptionAction::Fatal
    }
}

/// Decides what to do about an exception in the kernel: back a page on an access-flag abort,
/// or stop with a fatal error.
pub fn handle_kernel_exception(esr: u64, far: u64) -> (r: ExceptionAction)
    ensures
        r == spec_kernel_exception(esr, far),
{
    let class = esr >> 26u64;
    if class == ESR_CLASS_INSTRUCTION_ABORT_LOWER || class == ESR_CLASS_DATA_ABORT_LOWER
        || class == ESR_CLASS_DATA_ABORT_SAME {
        if esr & ESR_FAULT_KIND_MASK == ESR_FAULT_ACCESS_FLAG {
            ExceptionAction::PageFault(far)
        } else {
            ExceptionAction::Fatal
        }
    } else {
        ExceptionAction::Fatal
    }
}

} // verus!
