use vstd::prelude::*;

use crate::block::partition::{Partition, PartitionIter, spec_partitions_from, has_mbr_signature, lemma_skip_empty,
    MBR_ENTRIES, MBR_ENTRY_SIZE, MBR_TABLE_START, MBR_TABLE_END};

verus! {

/// The size of the blocks that the card transfers.
pub const EMMC_BLOCK_SIZE: usize = 512;

/// The response bit that tells that the card has finished powering up.
pub const MMC_RESP_COMMAND_COMPLETE: u32 = 0x8000_0000;

/// The argument of the interface condition command: the voltage range and check pattern.
pub const EMMC_IF_COND_ARG: u32 = 0x0000_01AA;

/// The argument of the operating condition command.
pub const EMMC_OP_COND_ARG: u32 = 0x51ff_8000;

/// The clock frequency with which the card is identified.
pub const EMMC_INIT_FREQUENCY: u32 = 400_000;

/// The clock frequency at which data is transferred.
pub const EMMC_TRANSFER_FREQUENCY: u32 = 20_000_000;

/// The frequency of the clock that the host divides.
pub const EMMC_BASE_CLOCK: u32 = 41_666_666;

/// The commands sent to the card.
#[derive(Clone, Copy, PartialEq, Eq, Structural, Debug)]
pub enum Command {
    GoIdle,
    SendCID,
    SendRelAddr,
    CardSelect,
    SendIfCond,
    StopTransmission,
    ReadSingle,
    ReadMultiple,
    WriteSingle,
    WriteMultiple,
    SendOpCond,
    AppCommand,
}

/// The value written to the command register for each command: its index, response type
/// and data flags.
pub open spec fn spec_command_code(cmd: Command) -> u32 {
    match cmd {
        Command::GoIdle => 0x00000000,
        Command::SendIfCond => 0x08020000,
        Command::StopTransmission => 0x0C030000,
        Command::SendOpCond => 0x29020000,
        Command::ReadSingle => 0x11220010,
        Command::ReadMultiple => 0x12220032,
        Command::WriteSingle => 0x18220000,
        Command::WriteMultiple => 0x19220022,
        Command::AppCommand => 0x37000000,
        Command::SendCID => 0x02010000,
        Command::SendRelAddr => 0x03020000,
        Command::CardSelect => 0x07030000,
    }
}

/// The value written to the command register for `cmd`.
pub fn command_code(cmd: Command) -> (r: u32)
    ensures
        r == spec_command_code(cmd),
{
    match cmd {
        Command::GoIdle => 0x00000000,
        Command::SendIfCond => 0x08020000,
        Command::StopTransmission => 0x0C030000,
        Command::SendOpCond => 0x29020000,
        Command::ReadSingle => 0x11220010,
        Command::ReadMultiple => 0x12220032,
        Command::WriteSingle => 0x18220000,
        Command::WriteMultiple => 0x19220022,
        Command::AppCommand => 0x37000000,
        Command::SendCID => 0x02010000,
        Command::SendRelAddr => 0x03020000,
        Command::CardSelect => 0x07030000,
    }
}

/// The host control value that runs the card's clock at `frequency`: the divider of the base
/// clock in its two fields, with the internal clock and the card clock enabled.
pub open spec fn spec_clock_control(frequency: u32) -> u32 {
    let divider = (EMMC_BASE_CLOCK / frequency) as u32;
    (0xEu32 << 16u32) | ((divider & 0xFF) << 8u32) | ((divider & 0x300) >> 2u32) | 0x5
}

/// The byte `k` of the data carried by the words read from the data register.
pub open spec fn spec_unpacked_byte(words: Seq<u32>, k: int) -> u8 {
    (words[k / 4] >> ((k % 4) * 8) as u32) as u8
}

/// The byte of `data` at `k`, or zero past its end.
pub open spec fn byte_or_zero(data: Seq<u8>, k: int) -> u32 {
    if 0 <= k < data.len() { data[k] as u32 } else { 0 }
}

/// The word written to the data register for the bytes of `data` from `i`, low byte first.
pub open spec fn spec_packed_word(data: Seq<u8>, i: int) -> u32 {
    byte_or_zero(data, i) | (byte_or_zero(data, i + 1) << 8u32)
        | (byte_or_zero(data, i + 2) << 16u32) | (byte_or_zero(data, i + 3) << 24u32)
}

/// The number of words that carry `len` bytes.
pub open spec fn spec_word_count(len: int) -> int {
    (len + 3) / 4
}

/// The host controller of the SD card.
pub struct EmmcHost;

impl EmmcHost {
    /// The host control value for a card clock of `frequency`.
    pub fn clock_control(frequency: u32) -> (r: u32)
        requires
            frequency > 0,
        ensures
            r == spec_clock_control(frequency),
    {
        let divider = EMMC_BASE_CLOCK / frequency;
        (0xEu32 << 16u32) | ((divider & 0xFF) << 8u32) | ((divider & 0x300) >> 2u32) | 0x5
    }

    /// The host control value with which initialisation ends: the clock of data transfers.
    pub fn finish_init() -> (r: u32)
        ensures
            r == spec_clock_control(EMMC_TRANSFER_FREQUENCY),
    {
        EmmcHost::clock_control(EMMC_TRANSFER_FREQUENCY)
    }

    /// The value of the block count and size register.
    pub fn block_count_size(numblocks: usize, blocksize: usize) -> (r: u32)
        requires
            numblocks <= 0xffff,
            blocksize <= 0xffff,
        ensures
            r == numblocks * 0x1_0000 + blocksize,
    {
        assert((numblocks << 16usize) | blocksize == numblocks * 0x1_0000 + blocksize) by (bit_vector)
            requires numblocks <= 0xffff, blocksize <= 0xffff;
        ((numblocks << 16usize) | blocksize) as u32
    }

    /// The two argument registers of a transfer at block `offset`: its low and high words.
    pub fn transfer_args(offset: u64) -> (r: (u32, u32))
        ensures
            r.0 == offset % 0x1_0000_0000,
            r.1 == offset / 0x1_0000_0000,
    {
        assert((offset as u32) as int == offset % 0x1_0000_0000) by (bit_vector);
        assert(((offset >> 32u64) as u32) as int == offset / 0x1_0000_0000) by (bit_vector);
        (offset as u32, (offset >> 32u64) as u32)
    }

    /// Fills `data` from the words read from the data register, low byte first.
    pub fn read_data(words: &[u32], data: &mut Vec<u8>)
        requires
            words@.len() == spec_word_count(old(data)@.len() as int),
        ensures
            final(data)@.len() == old(data)@.len(),
            forall|k: int| 0 <= k < final(data)@.len() ==> final(data)@[k] == spec_unpacked_byte(words@, k),
    {
        let len = data.len();
        let mut k: usize = 0;
        while k < len
            invariant
                0 <= k <= len,
                len == data@.len(),
                words@.len() == spec_word_count(len as int),
                forall|j: int| 0 <= j < k ==> data@[j] == spec_unpacked_byte(words@, j),
            decreases len - k,
        {
            let value = words[k / 4];
            data.set(k, (value >> (((k % 4) * 8) as u32)) as u8);
            k += 1;
        }
    }

    /// The words written to the data register to send `data`, low byte first.
    pub fn write_data(data: &[u8]) -> (r: Vec<u32>)
        requires
            data@.len() + 3 <= usize::MAX,
        ensures
            r@.len() == spec_word_count(data@.len() as int),
            forall|w: int| 0 <= w < r@.len() ==> r@[w] == spec_packed_word(data@, 4 * w),
    {
        let len = data.len();
        let mut out: Vec<u32> = Vec::new();
        let mut i: usize = 0;
        while i < len
            invariant
                len == data@.len(),
                len + 3 <= usize::MAX,
                i % 4 == 0,
                i <= len + 3,
                out@.len() == i / 4,
                forall|w: int| 0 <= w < out@.len() ==> out@[w] == spec_packed_word(data@, 4 * w),
            decreases len + 3 - i,
        {
            let b0: u32 = data[i] as u32;
            let b1: u32 = if len - i > 1 { data[i + 1] as u32 } else { 0 };
            let b2: u32 = if len - i > 2 { data[i + 2] as u32 } else { 0 };
            let b3: u32 = if len - i > 3 { data[i + 3] as u32 } else { 0 };
            out.push(b0 | (b1 << 8u32) | (b2 << 16u32) | (b3 << 24u32));
            i = i + 4;
        }
        out
    }
}

/// The bytes that the words written for `data` carry are the bytes of `data`: reading back
/// what was packed for the data register gives the data again.
pub proof fn lemma_unpack_packed(data: Seq<u8>, words: Seq<u32>)
    requires
        words.len() == spec_word_count(data.len() as int),
        forall|w: int| 0 <= w < words.len() ==> words[w] == spec_packed_word(data, 4 * w),
    ensures
        forall|k: int| 0 <= k < data.len() ==> spec_unpacked_byte(words, k) == data[k],
{
    assert forall|k: int| 0 <= k < data.len() implies spec_unpacked_byte(words, k) == data[k] by {
        let w = k / 4;
        let j = k % 4;
        let b0 = byte_or_zero(data, 4 * w);
        let b1 = byte_or_zero(data, 4 * w + 1);
        let b2 = byte_or_zero(data, 4 * w + 2);
        let b3 = byte_or_zero(data, 4 * w + 3);
        assert(b0 < 256 && b1 < 256 && b2 < 256 && b3 < 256);
        let word = b0 | (b1 << 8u32) | (b2 << 16u32) | (b3 << 24u32);
        assert(words[w] == word);
        assert((word >> 0u32) as u8 == b0 as u8 && (word >> 8u32) as u8 == b1 as u8
            && (word >> 16u32) as u8 == b2 as u8 && (word >> 24u32) as u8 == b3 as u8) by (bit_vector)
            requires word == b0 | (b1 << 8u32) | (b2 << 16u32) | (b3 << 24u32), b0 < 256, b1 < 256, b2 < 256, b3 < 256;
        assert(k == 4 * w + j);
    }
}

/// A partition of the SD card, or the whole card when its size is zero.
pub struct EmmcDevice {
    pub base: u64,
    pub size: u64,
}

/// The steps of bringing up the card.
#[derive(Clone, Copy, PartialEq, Eq, Structural, Debug)]
pub enum EmmcInitState {
    Start,
    HostReady,
    Idle,
    InterfaceChecked,
    AppCommandSent,
    OperatingConditionSent,
    Identified,
    AddressReceived,
    Selected,
    Done,
}

/// What the driver does next while bringing up the card.
#[derive(Clone, Copy, PartialEq, Eq, Structural, Debug)]
pub enum EmmcInitAction {
    /// Resets the host and runs the clock at the identification frequency (its control value).
    ResetHost(u32),
    /// Sends a command with its argument and waits for its response.
    Send(Command, u32),
    /// Runs the clock at the transfer frequency (its control value).
    SetClock(u32),
    /// The card is ready.
    Complete,
}

/// The next state and action of bringing up the card, from the state and the response to the
/// last command.
pub open spec fn spec_init_step(state: EmmcInitState, response: u32) -> (EmmcInitState, EmmcInitAction) {
    match state {
        EmmcInitState::Start => (EmmcInitState::HostReady, EmmcInitAction::ResetHost(spec_clock_control(EMMC_INIT_FREQUENCY))),
        EmmcInitState::HostReady => (EmmcInitState::Idle, EmmcInitAction::Send(Command::GoIdle, 0)),
        EmmcInitState::Idle => (EmmcInitState::InterfaceChecked, EmmcInitAction::Send(Command::SendIfCond, EMMC_IF_COND_ARG)),
        EmmcInitState::InterfaceChecked => (EmmcInitState::AppCommandSent, EmmcInitAction::Send(Command::AppCommand, 0)),
        EmmcInitState::AppCommandSent => (EmmcInitState::OperatingConditionSent, EmmcInitAction::Send(Command::SendOpCond, EMMC_OP_COND_ARG)),
        EmmcInitState::OperatingConditionSent => if response & MMC_RESP_COMMAND_COMPLETE != 0 {
            (EmmcInitState::Identified, EmmcInitAction::Send(Command::SendCID, 0))
        } else {
            (EmmcInitState::AppCommandSent, EmmcInitAction::Send(Command::AppCommand, 0))
        },
        EmmcInitState::Identified => (EmmcInitState::AddressReceived, EmmcInitAction::Send(Command::SendRelAddr, 0)),
        EmmcInitState::AddressReceived => (EmmcInitState::Selected, EmmcInitAction::Send(Command::CardSelect, response)),
        EmmcInitState::Selected => (EmmcInitState::Done, EmmcInitAction::SetClock(spec_clock_control(EMMC_TRANSFER_FREQUENCY))),
        EmmcInitState::Done => (EmmcInitState::Done, EmmcInitAction::Complete),
    }
}

/// The block numbers of the transfers that move `len` bytes at byte `offset`, one block each.
pub open spec fn spec_transfer_blocks(offset: u64, len: int) -> Seq<u64> {
    Seq::new((len / EMMC_BLOCK_SIZE as int) as nat, |k: int| ((offset + k * EMMC_BLOCK_SIZE) / EMMC_BLOCK_SIZE as int) as u64)
}

impl EmmcDevice {
    /// The device of the card's bytes from `base`, `size` bytes long (zero for no limit).
    pub fn new(base: u64, size: u64) -> (r: Self)
        ensures
            r.base == base,
            r.size == size,
    {
        EmmcDevice { base, size }
    }

    /// The next step of bringing up the card, from the state reached and the response to the
    /// last command; the loop on the operating condition ends when the card reports that it
    /// has powered up.
    pub fn init(state: EmmcInitState, response: u32) -> (r: (EmmcInitState, EmmcInitAction))
        ensures
            r == spec_init_step(state, response),
    {
        match state {
            EmmcInitState::Start => (EmmcInitState::HostReady, EmmcInitAction::ResetHost(EmmcHost::clock_control(EMMC_INIT_FREQUENCY))),
            EmmcInitState::HostReady => (EmmcInitState::Idle, EmmcInitAction::Send(Command::GoIdle, 0)),
            EmmcInitState::Idle => (EmmcInitState::InterfaceChecked, EmmcInitAction::Send(Command::SendIfCond, EMMC_IF_COND_ARG)),
            EmmcInitState::InterfaceChecked => (EmmcInitState::AppCommandSent, EmmcInitAction::Send(Command::AppCommand, 0)),
            EmmcInitState::AppCommandSent => (EmmcInitState::OperatingConditionSent, EmmcInitAction::Send(Command::SendOpCond, EMMC_OP_COND_ARG)),
            EmmcInitState::OperatingConditionSent => if response & MMC_RESP_COMMAND_COMPLETE != 0 {
                (EmmcInitState::Identified, EmmcInitAction::Send(Command::SendCID, 0))
            } else {
                (EmmcInitState::AppCommandSent, EmmcInitAction::Send(Command::AppCommand, 0))
            },
            EmmcInitState::Identified => (EmmcInitState::AddressReceived, EmmcInitAction::Send(Command::SendRelAddr, 0)),
            EmmcInitState::AddressReceived => (EmmcInitState::Selected, EmmcInitAction::Send(Command::CardSelect, response)),
            EmmcInitState::Selected => (EmmcInitState::Done, EmmcInitAction::SetClock(EmmcHost::finish_init())),
            EmmcInitState::Done => (EmmcInitState::Done, EmmcInitAction::Complete),
        }
    }

    /// The number of bytes of a transfer of `len` bytes at `offset` that lie inside the
    /// device: all of them, or those up to its end.
    pub fn clamp_len(&self, len: usize, offset: u64) -> (r: usize)
        requires
            offset <= self.size || self.size == 0,
            offset + len <= u64::MAX,
        ensures
            r == if self.size != 0 && offset + len > self.size { (self.size - offset) as usize } else { len },
            r <= len,
    {
        if self.size != 0 && offset + len as u64 > self.size {
            (self.size - offset) as usize
        } else {
            len
        }
    }

    /// The blocks read, one transfer each, to fill a buffer of `len` bytes from byte `offset`.
    pub fn read_data(len: usize, offset: u64) -> (r: Vec<u64>)
        requires
            len % EMMC_BLOCK_SIZE == 0,
            offset + len <= u64::MAX,
        ensures
            r@ == spec_transfer_blocks(offset, len as int),
    {
        EmmcDevice::transfer_blocks(len, offset)
    }

    /// The blocks written, one transfer each, to send a buffer of `len` bytes to byte `offset`.
    pub fn write_data(len: usize, offset: u64) -> (r: Vec<u64>)
        requires
            len % EMMC_BLOCK_SIZE == 0,
            offset + len <= u64::MAX,
        ensures
            r@ == spec_transfer_blocks(offset, len as int),
    {
        EmmcDevice::transfer_blocks(len, offset)
    }

    fn transfer_blocks(len: usize, offset: u64) -> (r: Vec<u64>)
        requires
            len % EMMC_BLOCK_SIZE == 0,
            offset + len <= u64::MAX,
        ensures
            r@ == spec_transfer_blocks(offset, len as int),
    {
        let mut out: Vec<u64> = Vec::new();
        let mut i: usize = 0;
        let mut remaining: usize = len;
        while remaining > 0
            invariant
                i + remaining == len,
                i % EMMC_BLOCK_SIZE == 0,
                remaining % EMMC_BLOCK_SIZE == 0,
                offset + len <= u64::MAX,
                out@.len() == (i as int) / (EMMC_BLOCK_SIZE as int),
                forall|k: int| 0 <= k < out@.len() ==> out@[k] == ((offset + k * EMMC_BLOCK_SIZE) / EMMC_BLOCK_SIZE as int) as u64,
            decreases remaining,
        {
            out.push((offset + i as u64) / EMMC_BLOCK_SIZE as u64);
            remaining = remaining - EMMC_BLOCK_SIZE;
            i = i + EMMC_BLOCK_SIZE;
        }
        assert(out@ =~= spec_transfer_blocks(offset, len as int));
        out
    }
}

/// The device of a partition: its bytes from its first sector on.
pub open spec fn spec_partition_device(p: Partition) -> EmmcDevice {
    EmmcDevice { base: (p.base as u64 * 512) as u64, size: (p.size as u64 * 512) as u64 }
}

impl EmmcDevice {
    /// The devices of the partitions listed in the card's first block, in the order of the
    /// table, or none when the block carries no partition table.
    pub fn partition_devices(block: &[u8]) -> (r: Option<Vec<EmmcDevice>>)
        requires
            block@.len() >= 0x200,
        ensures
            match r {
                None => !has_mbr_signature(block@),
                Some(devs) => {
                    let parts = spec_partitions_from(block@.subrange(MBR_TABLE_START as int, MBR_TABLE_END as int), 0);
                    &&& has_mbr_signature(block@)
                    &&& devs@.len() == parts.len()
                    &&& forall|k: int| 0 <= k < devs@.len() ==> devs@[k] == spec_partition_device(#[trigger] parts[k])
                },
            },
    {
        let mut iter = match Partition::read_mbr_partition_table_iter(block) {
            None => { return None; },
            Some(iter) => iter,
        };
        let ghost table = iter.table@;
        let ghost mut parts: Seq<Partition> = Seq::empty();
        let mut devs: Vec<EmmcDevice> = Vec::new();
        let mut done = false;
        while !done
            invariant
                iter.table@ == table,
                table.len() == MBR_ENTRIES * MBR_ENTRY_SIZE,
                table == block@.subrange(MBR_TABLE_START as int, MBR_TABLE_END as int),
                iter.entry <= MBR_ENTRIES,
                devs@.len() == parts.len(),
                forall|k: int| 0 <= k < devs@.len() ==> devs@[k] == spec_partition_device(#[trigger] parts[k]),
                !done ==> spec_partitions_from(table, 0) == parts + spec_partitions_from(table, iter.entry as int),
                done ==> spec_partitions_from(table, 0) == parts,
            decreases MBR_ENTRIES + 1 - iter.entry, if done { 0int } else { 1int },
        {
            let ghost from = iter.entry as int;
            match iter.next() {
                None => {
                    proof {
                        lemma_skip_empty(table, from, MBR_ENTRIES as int);
                        assert(parts + spec_partitions_from(table, MBR_ENTRIES as int) =~= parts);
                    }
                    done = true;
                },
                Some(p) => {
                    proof {
                        let i = iter.entry - 1;
                        lemma_skip_empty(table, from, i);
                        assert(parts + spec_partitions_from(table, from) =~= parts.push(p) + spec_partitions_from(table, i + 1));
                        parts = parts.push(p);
                    }
                    devs.push(EmmcDevice { base: p.base as u64 * 512, size: p.size as u64 * 512 });
                },
            }
        }
        Some(devs)
    }
}

} // verus!
