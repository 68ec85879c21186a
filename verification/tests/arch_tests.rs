use lib::errors::{KernelError, ApiError};
use lib::arch::types::{PhysicalAddress, VirtualAddress, KernelVirtualAddress};
use lib::arch::mmu::{TranslationTable, page_size, table_entries, check_vaddr_and_usize};
use lib::arch::context::Context;
use lib::arch::sync::{AtomicBool, Spinlock};
use lib::mm::{MemoryType, MemoryPermissions};
use lib::mm::pages::PagePool;
use lib::misc::{align_up, align_down, offset_from_align, ceiling_div, read_le16, read_le32, write_le16, write_le32};
use lib::api::{handle_syscall, finish_syscall, SyscallFunction, SyscallRoute, api_error_number};
use lib::arch::exceptions::{handle_user_exception, handle_kernel_exception, ExceptionAction};

#[test]
fn kernel_errors_as_seen_by_programs() {
    assert_eq!(KernelError::FileNotFound.to_api_error(), ApiError::FileNotFound);
    assert_eq!(KernelError::BadSystemCall.to_api_error(), ApiError::BadSystemCall);
    assert_eq!(KernelError::SuspendProcess.to_api_error(), ApiError::UnknownError);
}

#[test]
fn alignment_helpers() {
    assert_eq!(align_up(5000, 4096), 8192);
    assert_eq!(align_up(4096, 4096), 4096);
    assert_eq!(align_down(5000, 4096), 4096);
    assert_eq!(offset_from_align(5000, 4096), 904);
    assert_eq!(ceiling_div(10, 4), 3);
    assert_eq!(ceiling_div(8, 4), 2);
}

#[test]
fn little_endian_fields() {
    let mut bytes = vec![0u8; 8];
    write_le32(&mut bytes, 2, 0x1234_5678);
    write_le16(&mut bytes, 0, 0xBEEF);
    assert_eq!(bytes, vec![0xEF, 0xBE, 0x78, 0x56, 0x34, 0x12, 0, 0]);
    assert_eq!(read_le32(&bytes, 2), 0x1234_5678);
    assert_eq!(read_le16(&bytes, 0), 0xBEEF);
}

#[test]
fn address_arithmetic() {
    let v = VirtualAddress(0x1234);
    assert_eq!(v.add(0x10).0, 0x1244);
    assert_eq!(v.sub(0x34).0, 0x1200);
    assert_eq!(v.align_down(0x1000).0, 0x1000);
    assert_eq!(v.align_up(0x1000).0, 0x2000);
    assert_eq!(v.offset_from_align(0x1000), 0x234);
    let p = PhysicalAddress(0x8000);
    let k = p.to_kernel_addr();
    assert_eq!(k.0, 0xffff_0000_0000_8000);
    assert_eq!(PhysicalAddress::from_kernel_addr(k).0, 0x8000);
    assert_eq!(KernelVirtualAddress::new(0x10).add(0x10).0, 0xffff_0000_0000_0020);
    assert_eq!(p.add(1).align_up(0x1000).0, 0x9000);
}

#[test]
fn page_geometry() {
    assert_eq!(page_size(), 4096);
    assert_eq!(table_entries(), 512);
}

#[test]
fn ranges_must_be_aligned() {
    assert!(matches!(check_vaddr_and_usize(VirtualAddress(0x1001), 4096), Err(KernelError::AddressMisaligned)));
    assert!(matches!(check_vaddr_and_usize(VirtualAddress(0x1000), 100), Err(KernelError::UnexpectedGranualeSize)));
    assert!(check_vaddr_and_usize(VirtualAddress(0x1000), 8192).is_ok());
}

#[test]
fn mapped_pages_translate_and_unmapped_do_not() {
    let mut pages = PagePool::new();
    let mut table = TranslationTable::new_table(&mut pages).unwrap();
    assert!(table.translate_addr(&pages, VirtualAddress(0x1000)).is_err());
    table.map_paged_range(MemoryType::Allocated, MemoryPermissions::ReadWrite, VirtualAddress(0x1000), 0x2000, &mut pages).unwrap();
    let a = table.translate_addr(&pages, VirtualAddress(0x1000)).unwrap();
    let b = table.translate_addr(&pages, VirtualAddress(0x2010)).unwrap();
    assert_eq!(a.0 % 4096, 0);
    assert_eq!(b.0 % 4096, 0x10);
    assert_ne!(a.0, b.0 - 0x10);
    assert!(table.translate_addr(&pages, VirtualAddress(0x3000)).is_err());
    table.unmap_range(VirtualAddress(0x1000), 0x2000, &mut pages).unwrap();
    assert!(table.translate_addr(&pages, VirtualAddress(0x1000)).is_err());
}

#[test]
fn existing_memory_maps_one_to_one_offset() {
    let mut pages = PagePool::new();
    let mut table = TranslationTable::new_table(&mut pages).unwrap();
    table.map_existing_range(MemoryPermissions::ReadWrite, VirtualAddress(0x4000_0000), PhysicalAddress(0x3F00_0000), 0x2000, &mut pages).unwrap();
    assert_eq!(table.translate_addr(&pages, VirtualAddress(0x4000_1234)).unwrap().0, 0x3F00_1234);
    assert!(matches!(table.map_existing_range(MemoryPermissions::ReadWrite, VirtualAddress(0x10), PhysicalAddress(0), 0x1000, &mut pages),
        Err(KernelError::AddressMisaligned)));
}

#[test]
fn copy_on_write_keeps_the_translation() {
    let mut pages = PagePool::new();
    let mut table = TranslationTable::new_table(&mut pages).unwrap();
    table.map_paged_range(MemoryType::Allocated, MemoryPermissions::ReadWrite, VirtualAddress(0x1000), 0x1000, &mut pages).unwrap();
    let before = table.translate_addr(&pages, VirtualAddress(0x1000)).unwrap();
    table.set_page_copy_on_write(&mut pages, VirtualAddress(0x1000)).unwrap();
    assert_eq!(table.translate_addr(&pages, VirtualAddress(0x1000)).unwrap(), before);
    let (paddr, _) = table.reset_page_copy_on_write(&mut pages, VirtualAddress(0x1000)).unwrap();
    assert_eq!(paddr, before);
}

#[test]
fn update_page_addr_changes_the_translation() {
    let mut pages = PagePool::new();
    let mut table = TranslationTable::new_table(&mut pages).unwrap();
    table.map_paged_range(MemoryType::Allocated, MemoryPermissions::ReadWrite, VirtualAddress(0x1000), 0x1000, &mut pages).unwrap();
    table.update_page_addr(VirtualAddress(0x1000), PhysicalAddress(0x7000_0000), &mut pages).unwrap();
    assert_eq!(table.translate_addr(&pages, VirtualAddress(0x1008)).unwrap().0, 0x7000_0008);
}

#[test]
fn duplicated_range_shares_pages() {
    let mut pages = PagePool::new();
    let mut parent = TranslationTable::new_table(&mut pages).unwrap();
    let mut child = TranslationTable::new_table(&mut pages).unwrap();
    parent.map_paged_range(MemoryType::Allocated, MemoryPermissions::ReadWrite, VirtualAddress(0x1000), 0x2000, &mut pages).unwrap();
    child.duplicate_paged_range(&mut parent, MemoryPermissions::ReadOnly, VirtualAddress(0x1000), 0x2000, &mut pages).unwrap();
    assert_eq!(child.translate_addr(&pages, VirtualAddress(0x2000)).unwrap(), parent.translate_addr(&pages, VirtualAddress(0x2000)).unwrap());
    let mut cow = TranslationTable::new_table(&mut pages).unwrap();
    cow.remap_range_copy_on_write(&mut parent, VirtualAddress(0x1000), 0x2000, &mut pages).unwrap();
    assert_eq!(cow.translate_addr(&pages, VirtualAddress(0x1000)).unwrap(), parent.translate_addr(&pages, VirtualAddress(0x1000)).unwrap());
}

#[test]
fn context_registers() {
    let mut ctx = Context::default();
    ctx.set_ttbr(0x1234);
    assert_eq!(ctx.ttbr, 0x1234);
    ctx.write_result(Ok(7));
    assert_eq!((ctx.x_registers[0], ctx.x_registers[1]), (7, 0));
    ctx.write_result(Err(3));
    assert_eq!((ctx.x_registers[0], ctx.x_registers[1]), (3, 1));
    ctx.write_args(2, VirtualAddress(0x100), VirtualAddress(0x200));
    assert_eq!(&ctx.x_registers[0..3], &[2, 0x100, 0x200]);
    ctx.x_registers[31] = 0xff00;
    assert_eq!(ctx.get_stack().0, 0xff00);
}

#[test]
fn syscalls_are_routed_by_number() {
    let mut ctx = Context::default();
    ctx.x_registers[6] = 7;
    ctx.x_registers[0] = 3;
    let (req, route) = handle_syscall(&ctx);
    assert_eq!(req.function, Some(SyscallFunction::Read));
    assert_eq!(req.args[0], 3);
    assert_eq!(route, SyscallRoute::Handler(SyscallFunction::Read));

    ctx.x_registers[6] = 99;
    let (req, route) = handle_syscall(&ctx);
    assert_eq!(route, SyscallRoute::Rejected);
    assert!(req.error);
    assert_eq!(req.result, api_error_number(ApiError::BadSystemCall));
    finish_syscall(&mut ctx, &req, route);
    assert_eq!(ctx.x_registers[1], 1);
}

#[test]
fn successful_exec_keeps_the_registers() {
    let mut ctx = Context::default();
    ctx.x_registers[6] = 2;
    ctx.x_registers[0] = 5;
    let (req, route) = handle_syscall(&ctx);
    assert_eq!(route, SyscallRoute::Exec);
    finish_syscall(&mut ctx, &req, route);
    assert_eq!(ctx.x_registers[0], 5);
}

#[test]
fn spinlock_and_flag() {
    let mut flag = AtomicBool::new(false);
    assert!(flag.try_change(true));
    assert!(!flag.try_change(true));
    flag.change(false);
    assert!(!flag.inner);
    let mut lock = Spinlock::new(5u32);
    let mut guard = lock.lock();
    assert_eq!(*guard.get(), 5);
    guard.set(6);
    guard.unlock();
    assert!(!lock.locked.inner);
    assert_eq!(lock.data, 6);
}

#[test]
fn exceptions_are_classified_by_syndrome() {
    use_exceptions();
}

fn use_exceptions() {
    let svc = 0b010101u64 << 26;
    assert_eq!(handle_user_exception(svc, 0), ExceptionAction::Syscall);
    let data_abort = 0b100100u64 << 26;
    assert_eq!(handle_user_exception(data_abort | 0b001011, 0x5000), ExceptionAction::PageFault(0x5000));
    assert_eq!(handle_user_exception(data_abort | 0b001111, 0x6000), ExceptionAction::PageAccess(0x6000));
    assert_eq!(handle_user_exception(data_abort | 0b000100, 0x6000), ExceptionAction::Fatal);
    assert_eq!(handle_user_exception(0, 0), ExceptionAction::Fatal);
    let kernel_abort = 0b100101u64 << 26;
    assert_eq!(handle_kernel_exception(kernel_abort | 0b001000, 0x7000), ExceptionAction::PageFault(0x7000));
    assert_eq!(handle_kernel_exception(kernel_abort | 0b001100, 0x7000), ExceptionAction::Fatal);
    assert_eq!(handle_kernel_exception(svc, 0x7000), ExceptionAction::Fatal);
}

#[test]
fn copy_on_write_pair_then_second_reset() {
    let mut pages = PagePool::new();
    let mut table = TranslationTable::new_table(&mut pages).unwrap();
    table.map_paged_range(MemoryType::Allocated, MemoryPermissions::ReadWrite, VirtualAddress(0x5000), 0x1000, &mut pages).unwrap();
    let before = table.translate_addr(&pages, VirtualAddress(0x5000)).unwrap();
    table.set_page_copy_on_write(&mut pages, VirtualAddress(0x5000)).unwrap();
    assert_eq!(table.reset_page_copy_on_write(&mut pages, VirtualAddress(0x5000)).unwrap(), (before, true));
    assert_eq!(table.reset_page_copy_on_write(&mut pages, VirtualAddress(0x5000)).unwrap(), (before, false));
}

#[test]
fn every_page_of_an_unmapped_range_is_gone() {
    let mut pages = PagePool::new();
    let mut table = TranslationTable::new_table(&mut pages).unwrap();
    table.map_paged_range(MemoryType::Allocated, MemoryPermissions::ReadWrite, VirtualAddress(0x20_0000), 0x4000, &mut pages).unwrap();
    table.unmap_range(VirtualAddress(0x20_1000), 0x2000, &mut pages).unwrap();
    assert!(table.translate_addr(&pages, VirtualAddress(0x20_0000)).is_ok());
    assert!(table.translate_addr(&pages, VirtualAddress(0x20_1000)).is_err());
    assert!(table.translate_addr(&pages, VirtualAddress(0x20_2fff)).is_err());
    assert!(table.translate_addr(&pages, VirtualAddress(0x20_3000)).is_ok());
}
