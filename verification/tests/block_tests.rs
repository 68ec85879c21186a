use lib::errors::KernelError;
use lib::block::{BlockStore, DeviceID, buffered_read, BlockDriverInfo, lookup_device};
use lib::block::devices::parse_minor;
use lib::block::partition::{Partition};
use lib::block::bufcache::{Buf, BufCache};
use lib::drivers::emmc::EmmcDevice;

fn mbr() -> Vec<u8> {
    let mut b = vec![0u8; 512];
    // entry 0 empty, entry 1: status 0x80, type 0x83, start 2048, 4096 sectors
    let e = 0x1BE + 16;
    b[e] = 0x80;
    b[e + 4] = 0x83;
    b[e + 8..e + 12].copy_from_slice(&2048u32.to_le_bytes());
    b[e + 12..e + 16].copy_from_slice(&4096u32.to_le_bytes());
    // entry 3: type 0x0c, start 10, 20 sectors
    let e = 0x1BE + 48;
    b[e + 4] = 0x0c;
    b[e + 8..e + 12].copy_from_slice(&10u32.to_le_bytes());
    b[e + 12..e + 16].copy_from_slice(&20u32.to_le_bytes());
    b[0x1FE] = 0x55;
    b[0x1FF] = 0xAA;
    b
}

#[test]
fn partitions_skip_empty_entries() {
    let block = mbr();
    let mut it = Partition::read_mbr_partition_table_iter(&block).unwrap();
    assert_eq!(it.next(), Some(Partition { base: 2048, size: 4096, fstype: 0x83, flags: 0x80 }));
    assert_eq!(it.next(), Some(Partition { base: 10, size: 20, fstype: 0x0c, flags: 0 }));
    assert_eq!(it.next(), None);
}

#[test]
fn no_partition_table_without_signature() {
    let mut block = mbr();
    block[0x1FF] = 0;
    assert!(Partition::read_mbr_partition_table_iter(&block).is_none());
}

#[test]
fn block_store_reads_back_what_was_written() {
    let mut store = BlockStore::new(4, vec![0u8; 16]);
    store.write_block(2, &vec![1, 2, 3, 4]).unwrap();
    assert_eq!(store.read_block(2).unwrap(), vec![1, 2, 3, 4]);
    assert_eq!(store.read_block(1).unwrap(), vec![0, 0, 0, 0]);
    assert!(matches!(store.read_block(4), Err(KernelError::IOError)));
    assert!(matches!(store.write_block(9, &vec![0, 0, 0, 0]), Err(KernelError::IOError)));
}

#[test]
fn buffered_read_of_one_block() {
    let data: Vec<u8> = (0..16).collect();
    let store = BlockStore::new(8, data);
    let mut buffer = vec![0u8; 4];
    assert_eq!(buffered_read(&store, &mut buffer, 8).unwrap(), 0);
    assert_eq!(buffer, vec![8, 9, 10, 11]);
    let mut buffer = vec![0u8; 4];
    assert!(matches!(buffered_read(&store, &mut buffer, 16), Err(KernelError::IOError)));
}

#[test]
fn buffer_cache_keeps_blocks() {
    let mut cache = BufCache::new(1024);
    assert_eq!(cache.block_size(), 1024);
    assert_eq!(cache.find(3), None);
    cache.insert(3, Buf::new(1024));
    cache.insert(7, Buf::new(1024));
    assert_eq!(cache.find(7), Some(1));
    cache.set_block_size(4096).unwrap();
    assert_eq!(cache.block_size(), 4096);
    assert_eq!(cache.find(7), None);
}

#[test]
fn new_buffers_are_clean_and_zero() {
    let buf = Buf::new(16);
    assert!(!buf.dirty.inner);
    assert_eq!(buf.block.data, vec![0u8; 16]);
}

#[test]
fn emmc_devices_of_the_partitions() {

    let devs = EmmcDevice::partition_devices(&mbr()).unwrap();
    assert_eq!(devs.len(), 2);
    assert_eq!((devs[0].base, devs[0].size), (2048 * 512, 4096 * 512));
    assert_eq!((devs[1].base, devs[1].size), (10 * 512, 20 * 512));
    let mut unsigned = mbr();
    unsigned[0x1FE] = 0;
    assert!(EmmcDevice::partition_devices(&unsigned).is_none());
}

fn drivers() -> Vec<BlockDriverInfo> {
    vec![
        BlockDriverInfo { prefix: b"sd".to_vec(), num_devices: 2 },
        BlockDriverInfo { prefix: b"mmcblk".to_vec(), num_devices: 1 },
    ]
}

#[test]
fn lookup_device_by_prefix_and_minor() {
    let d = drivers();
    assert_eq!(lookup_device(&d, b"sd1").unwrap(), DeviceID(0, 1));
    assert_eq!(lookup_device(&d, b"sd+1").unwrap(), DeviceID(0, 1));
    assert_eq!(lookup_device(&d, b"mmcblk0").unwrap(), DeviceID(1, 0));
    assert!(matches!(lookup_device(&d, b"sd2"), Err(KernelError::NoSuchDevice)));
    assert!(matches!(lookup_device(&d, b"sdx"), Err(KernelError::NoSuchDevice)));
    assert!(matches!(lookup_device(&d, b"sd256"), Err(KernelError::NoSuchDevice)));
    assert!(matches!(lookup_device(&d, b"sd"), Err(KernelError::NoSuchDevice)));
    assert!(matches!(lookup_device(&d, b"mmcblk1"), Err(KernelError::NoSuchDevice)));
}

#[test]
fn parse_minor_numbers() {
    assert_eq!(parse_minor(b"007"), Some(7));
    assert_eq!(parse_minor(b"255"), Some(255));
    assert_eq!(parse_minor(b"256"), None);
    assert_eq!(parse_minor(b"+"), None);
    assert_eq!(parse_minor(b"-1"), None);
    assert_eq!(parse_minor(b""), None);
}
