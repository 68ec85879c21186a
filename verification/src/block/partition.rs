use vstd::prelude::*;

use crate::misc::{read_le32, spec_read_le32, copy_range};

verus! {

/// Where the partition table lies in the first block of a disk.
pub const MBR_TABLE_START: usize = 0x1BE;

/// Where the partition table ends, and the boot signature begins.
pub const MBR_TABLE_END: usize = 0x1FE;

/// The size of an entry of the partition table.
pub const MBR_ENTRY_SIZE: usize = 16;

/// The number of entries of the partition table.
pub const MBR_ENTRIES: usize = 4;

/// A partition of a disk: its first sector, its number of sectors, its type and its flags.
#[derive(Clone, Copy, PartialEq, Eq, Structural, Debug)]
pub struct Partition {
    pub base: u32,
    pub size: u32,
    pub fstype: u8,
    pub flags: u8,
}

/// The partitions of a partition table, handed out in order, skipping the empty entries.
pub struct PartitionIter {
    pub table: Vec<u8>,
    pub entry: usize,
}

/// The partition described by entry `i` of a partition table.
pub open spec fn spec_partition_entry(table: Seq<u8>, i: int) -> Partition {
    Partition {
        base: spec_read_le32(table, i * 16 + 8),
        size: spec_read_le32(table, i * 16 + 12),
        fstype: table[i * 16 + 4],
        flags: table[i * 16],
    }
}

/// Entry `i` of the partition table describes no partition.
pub open spec fn entry_empty(table: Seq<u8>, i: int) -> bool {
    spec_read_le32(table, i * 16 + 12) == 0
}

/// A disk's first block carries a partition table when it ends with the boot signature.
pub open spec fn has_mbr_signature(block: Seq<u8>) -> bool {
    block[0x1FE] == 0x55 && block[0x1FF] == 0xAA
}

/// The partitions of the entries of the table from entry `i` on that are not empty, in order.
pub open spec fn spec_partitions_from(table: Seq<u8>, i: int) -> Seq<Partition>
    decreases MBR_ENTRIES - i,
{
    if i >= MBR_ENTRIES {
        Seq::empty()
    } else if entry_empty(table, i) {
        spec_partitions_from(table, i + 1)
    } else {
        seq![spec_partition_entry(table, i)].add(spec_partitions_from(table, i + 1))
    }
}

/// The partitions that an iterator still hands out are those of the non-empty entries past
/// the skipped empty ones.
pub proof fn lemma_skip_empty(table: Seq<u8>, from: int, to: int)
    requires
        0 <= from <= to <= MBR_ENTRIES,
        forall|k: int| from <= k < to ==> entry_empty(table, k),
    ensures
        spec_partitions_from(table, from) == spec_partitions_from(table, to),
    decreases to - from,
{
    if from < to {
        lemma_skip_empty(table, from + 1, to);
    }
}

impl Partition {
    /// The partitions of the table in a disk's first block, when the block carries the boot
    /// signature.
    pub fn read_mbr_partition_table_iter(buffer: &[u8]) -> (r: Option<PartitionIter>)
        requires
            buffer@.len() >= 0x200,
        ensures
            match r {
                Some(it) => has_mbr_signature(buffer@) && it.entry == 0
                    && it.table@ == buffer@.subrange(MBR_TABLE_START as int, MBR_TABLE_END as int),
                None => !has_mbr_signature(buffer@),
            },
    {
        if buffer[0x1FE] == 0x55 && buffer[0x1FF] == 0xAA {
            let table = copy_range(buffer, MBR_TABLE_START, MBR_TABLE_END);
            Some(PartitionIter { table, entry: 0 })
        } else {
            None
        }
    }
}

impl PartitionIter {
    /// The next partition of the table: the first entry from the position on that is not
    /// empty; the position moves past it.
    pub fn next(&mut self) -> (r: Option<Partition>)
        requires
            old(self).table@.len() == MBR_ENTRIES * MBR_ENTRY_SIZE,
        ensures
            final(self).table@ == old(self).table@,
            match r {
                Some(p) => {
                    let i = final(self).entry - 1;
                    &&& old(self).entry <= i < MBR_ENTRIES
                    &&& p == spec_partition_entry(old(self).table@, i)
                    &&& !entry_empty(old(self).table@, i)
                    &&& forall|k: int| old(self).entry <= k < i ==> entry_empty(old(self).table@, k)
                },
                None => final(self).entry >= MBR_ENTRIES
                    && (old(self).entry <= MBR_ENTRIES ==> final(self).entry == MBR_ENTRIES)
                    && forall|k: int| old(self).entry <= k < MBR_ENTRIES ==> entry_empty(old(self).table@, k),
            },
    {
        while self.entry < MBR_ENTRIES && read_le32(self.table.as_slice(), self.entry * 16 + 12) == 0
            invariant
                self.table@ == old(self).table@,
                self.table@.len() == MBR_ENTRIES * MBR_ENTRY_SIZE,
                old(self).entry <= self.entry || old(self).entry >= MBR_ENTRIES,
                forall|k: int| old(self).entry <= k < self.entry ==> entry_empty(old(self).table@, k),
                old(self).entry >= MBR_ENTRIES ==> self.entry == old(self).entry,
                old(self).entry <= MBR_ENTRIES ==> self.entry <= MBR_ENTRIES,
            decreases MBR_ENTRIES - self.entry,
        {
            self.entry = self.entry + 1;
        }
        if self.entry >= MBR_ENTRIES {
            None
        } else {
            let i = self.entry;
            self.entry = self.entry + 1;
            Some(Partition {
                base: read_le32(self.table.as_slice(), i * 16 + 8),
                size: read_le32(self.table.as_slice(), i * 16 + 12),
                fstype: self.table[i * 16 + 4],
                flags: self.table[i * 16],
            })
        }
    }
}

} // verus!
