use lib::errors::KernelError;
use lib::drivers::gic::{PendingInterruptIterator, enable_irq_register, disable_irq_register, IRQ_ENABLE1, IRQ_ENABLE2, IRQ_DISABLE1, IRQ_DISABLE2};
use lib::drivers::timer::SystemTimer;
use lib::drivers::console::{PL011Device, PL011Rx, ConsoleOutput, set_safe_console, set_normal_console};
use lib::drivers::emmc::{command_code, Command, EmmcHost, EmmcDevice, EmmcInitState, EmmcInitAction};
use lib::block::DeviceID;

#[test]
fn pending_interrupts_in_increasing_order() {
    let mut it = PendingInterruptIterator::new([0b1001, 0x8000_0001]);
    assert_eq!(it.next(), Some(0));
    assert_eq!(it.next(), Some(3));
    assert_eq!(it.next(), Some(32));
    assert_eq!(it.next(), Some(63));
    assert_eq!(it.next(), None);
}

#[test]
fn no_pending_interrupts() {
    let mut it = PendingInterruptIterator::new([0, 0]);
    assert_eq!(it.next(), None);
    assert_eq!(it.next, 0);
}

#[test]
fn interrupt_enable_and_disable_registers() {
    assert_eq!(enable_irq_register(5), (IRQ_ENABLE1, 1 << 5));
    assert_eq!(enable_irq_register(57), (IRQ_ENABLE2, 1 << 25));
    assert_eq!(disable_irq_register(31), (IRQ_DISABLE1, 1 << 31));
    assert_eq!(disable_irq_register(32), (IRQ_DISABLE2, 1));
}

#[test]
fn timer_compare_value_wraps() {
    assert_eq!(SystemTimer::next_compare(1000), 21000);
    assert_eq!(SystemTimer::next_compare(u32::MAX), 19999);
}

#[test]
fn console_open_and_close_count() {
    let mut dev = PL011Device::new();
    assert!(matches!(dev.close(), Err(KernelError::FileNotOpen)));
    dev.open().unwrap();
    dev.open().unwrap();
    assert_eq!(dev.opens, 2);
    dev.close().unwrap();
    assert_eq!(dev.opens, 1);
}

#[test]
fn console_reads_received_characters_in_order() {
    let mut dev = PL011Device::new();
    let mut rx = PL011Rx::new();
    for b in b"hey" {
        rx.push_char(*b);
    }
    let mut buffer = vec![0u8; 2];
    assert_eq!(dev.read(&mut rx, &mut buffer).unwrap(), 2);
    assert_eq!(buffer, b"he".to_vec());
    let mut buffer = vec![0u8; 4];
    assert_eq!(dev.read(&mut rx, &mut buffer).unwrap(), 1);
    assert_eq!(buffer, vec![b'y', 0, 0, 0]);
    assert_eq!(rx.get_char_buffered(), None);
}

#[test]
fn console_print_cuts_characters_to_bytes() {
    let mut dev = PL011Device::new();
    assert_eq!(dev.print("ok\n"), b"ok\n".to_vec());
    assert_eq!(dev.print("\u{e9}"), vec![0xe9]);
    assert_eq!(dev.write(b"abc").unwrap(), 3);
}

#[test]
fn console_selection() {
    let mut out = ConsoleOutput::Safe;
    set_normal_console(&mut out, DeviceID(1, 0));
    assert_eq!(out, ConsoleOutput::Normal(DeviceID(1, 0)));
    set_safe_console(&mut out);
    assert_eq!(out, ConsoleOutput::Safe);
}

#[test]
fn emmc_command_codes() {
    assert_eq!(command_code(Command::GoIdle), 0);
    assert_eq!(command_code(Command::SendIfCond), 0x08020000);
    assert_eq!(command_code(Command::ReadSingle), 0x11220010);
    assert_eq!(command_code(Command::AppCommand), 0x37000000);
    assert_eq!(command_code(Command::CardSelect), 0x07030000);
}

#[test]
fn emmc_clock_control_values() {
    // 41_666_666 / 400_000 = 104 = 0x68
    assert_eq!(EmmcHost::clock_control(400_000), 0xE0000 | 0x6800 | 0x5);
    // 41_666_666 / 20_000_000 = 2
    assert_eq!(EmmcHost::finish_init(), 0xE0000 | 0x200 | 0x5);
    // a divider above 0xff puts its high bits at bits 6 and 7
    assert_eq!(EmmcHost::clock_control(100_000), 0xE0000 | 0xA000 | 0x40 | 0x5);
}

#[test]
fn emmc_words_carry_bytes_low_first() {
    let data = [1u8, 2, 3, 4, 5, 6];
    let words = EmmcHost::write_data(&data);
    assert_eq!(words, vec![0x04030201, 0x0605]);
    let mut back = vec![0u8; 6];
    EmmcHost::read_data(&words, &mut back);
    assert_eq!(back, data.to_vec());
}

#[test]
fn emmc_register_values() {
    assert_eq!(EmmcHost::block_count_size(1, 512), 0x1_0200);
    assert_eq!(EmmcHost::transfer_args(0x1_0000_0002), (2, 1));
}

#[test]
fn emmc_transfers_one_block_at_a_time() {
    assert_eq!(EmmcDevice::read_data(1536, 1024), vec![2, 3, 4]);
    assert_eq!(EmmcDevice::write_data(512, 0), vec![0]);
    assert!(EmmcDevice::read_data(0, 512).is_empty());
}

#[test]
fn emmc_partition_clamps_transfers() {
    let dev = EmmcDevice::new(512, 2048);
    assert_eq!(dev.clamp_len(1024, 1536), 512);
    assert_eq!(dev.clamp_len(512, 0), 512);
    let whole = EmmcDevice::new(0, 0);
    assert_eq!(whole.clamp_len(4096, 1 << 40), 4096);
}

#[test]
fn emmc_bring_up_sequence() {
    let (s, a) = EmmcDevice::init(EmmcInitState::Start, 0);
    assert_eq!(s, EmmcInitState::HostReady);
    assert!(matches!(a, EmmcInitAction::ResetHost(_)));
    let (s, a) = EmmcDevice::init(s, 0);
    assert_eq!(a, EmmcInitAction::Send(Command::GoIdle, 0));
    let (s, a) = EmmcDevice::init(s, 0);
    assert_eq!(a, EmmcInitAction::Send(Command::SendIfCond, 0x1AA));
    let (s, _) = EmmcDevice::init(s, 0);
    let (s, a) = EmmcDevice::init(s, 0);
    assert_eq!(a, EmmcInitAction::Send(Command::SendOpCond, 0x51ff8000));
    // not powered up yet: ask again
    let (s2, a) = EmmcDevice::init(s, 0);
    assert_eq!(s2, EmmcInitState::AppCommandSent);
    assert_eq!(a, EmmcInitAction::Send(Command::AppCommand, 0));
    // powered up
    let (s, a) = EmmcDevice::init(s, 0x8000_0000);
    assert_eq!(a, EmmcInitAction::Send(Command::SendCID, 0));
    let (s, a) = EmmcDevice::init(s, 0);
    assert_eq!(a, EmmcInitAction::Send(Command::SendRelAddr, 0));
    let (s, a) = EmmcDevice::init(s, 0xABCD_0000);
    assert_eq!(a, EmmcInitAction::Send(Command::CardSelect, 0xABCD_0000));
    let (s, a) = EmmcDevice::init(s, 0);
    assert_eq!(a, EmmcInitAction::SetClock(EmmcHost::finish_init()));
    let (s, a) = EmmcDevice::init(s, 0);
    assert_eq!(s, EmmcInitState::Done);
    assert_eq!(a, EmmcInitAction::Complete);
}
