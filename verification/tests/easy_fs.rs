use rcore::bitmap::{decomposition, Bitmap};
use rcore::block_cache::{block_cache_sync_all, get_block_cache, BlockCache, BlockCacheManager};
use rcore::block_dev::{BlockDevice, MemoryBlockDevice, BLOCK_SZ};
use rcore::efs::EasyFileSystem;
use rcore::layout::{initial_inode_bytes, DiskInodeType, SuperBlock, EFS_MAGIC};

fn block(dev: &MemoryBlockDevice, id: usize) -> Vec<u8> {
    let mut buf = vec![0u8; BLOCK_SZ];
    dev.read_block(id, &mut buf);
    buf
}

#[test]
fn decomposition_splits_bit_numbers() {
    assert_eq!(decomposition(0), (0, 0, 0));
    assert_eq!(decomposition(5000), (1, 14, 8));
    assert_eq!(decomposition(4095), (0, 63, 63));
    assert_eq!(decomposition(4096), (1, 0, 0));
}

#[test]
fn bitmap_maximum_counts_bits() {
    assert_eq!(Bitmap::new(1, 2).maximum(), 8192);
    assert_eq!(Bitmap::new(7, 0).maximum(), 0);
}

#[test]
fn bitmap_allocates_lowest_free_bits_in_order() {
    let mut cache = BlockCacheManager::new(MemoryBlockDevice::new());
    let bitmap = Bitmap::new(3, 2);
    assert_eq!(bitmap.allocate(&mut cache), Some(0));
    assert_eq!(bitmap.allocate(&mut cache), Some(1));
    assert_eq!(bitmap.allocate(&mut cache), Some(2));
    bitmap.dealloc(&mut cache, 1);
    assert_eq!(bitmap.allocate(&mut cache), Some(1));
    assert_eq!(bitmap.allocate(&mut cache), Some(3));
    block_cache_sync_all(&mut cache);
    // bits 0..=3 set in the first word of block 3, little-endian
    assert_eq!(block(cache.block_device(), 3)[0], 0b1111);
    assert_eq!(block(cache.block_device(), 4), vec![0u8; BLOCK_SZ]);
}

#[test]
fn bitmap_uses_trailing_ones_of_first_non_full_word() {
    let mut dev = MemoryBlockDevice::new();
    let mut raw = vec![0u8; BLOCK_SZ];
    for b in raw.iter_mut().take(8) {
        *b = 0xff;
    }
    raw[8] = 0b0111;
    dev.write_block(0, &raw);
    let mut cache = BlockCacheManager::new(dev);
    let bitmap = Bitmap::new(0, 1);
    assert_eq!(bitmap.allocate(&mut cache), Some(67));
    let dev = cache.into_block_device();
    assert_eq!(block(&dev, 0)[8], 0b1111);
}

#[test]
fn bitmap_moves_on_to_next_block_and_reports_full() {
    let mut dev = MemoryBlockDevice::new();
    dev.write_block(10, &vec![0xffu8; BLOCK_SZ]);
    let mut cache = BlockCacheManager::new(dev);
    let two = Bitmap::new(10, 2);
    assert_eq!(two.allocate(&mut cache), Some(4096));
    let one = Bitmap::new(10, 1);
    assert_eq!(one.allocate(&mut cache), None);
}

#[test]
fn bitmap_dealloc_clears_only_that_bit() {
    let mut dev = MemoryBlockDevice::new();
    dev.write_block(2, &vec![0xffu8; BLOCK_SZ]);
    let mut cache = BlockCacheManager::new(dev);
    let bitmap = Bitmap::new(2, 1);
    bitmap.dealloc(&mut cache, 70);
    block_cache_sync_all(&mut cache);
    let stored = block(cache.block_device(), 2);
    assert_eq!(stored[8], 0b1011_1111);
    assert_eq!(stored[7], 0xff);
    assert_eq!(stored[9], 0xff);
    assert_eq!(bitmap.allocate(&mut cache), Some(70));
}

#[test]
fn bitmap_dealloc_undoes_allocate() {
    let mut dev = MemoryBlockDevice::new();
    let mut raw = vec![0x5au8; BLOCK_SZ];
    raw[0] = 0xff;
    raw[1] = 0x7f;
    dev.write_block(4, &raw);
    let mut cache = BlockCacheManager::new(dev);
    let bitmap = Bitmap::new(4, 1);
    let p = bitmap.allocate(&mut cache).unwrap();
    assert_eq!(p, 15);
    bitmap.dealloc(&mut cache, p);
    assert_eq!(cache.read(4, 0, BLOCK_SZ), raw);
    let q = bitmap.allocate(&mut cache).unwrap();
    let r = bitmap.allocate(&mut cache).unwrap();
    assert_eq!((q, r), (15, 16));
}

#[test]
fn block_cache_reads_modifies_and_syncs() {
    let mut dev = MemoryBlockDevice::new();
    let data: Vec<u8> = (0..BLOCK_SZ).map(|i| (i % 251) as u8).collect();
    dev.write_block(5, &data);
    let mut cache = BlockCache::new(5, &dev);
    assert_eq!(cache.read(10, 3), vec![10, 11, 12]);
    assert_eq!(cache.read_u64(0), u64::from_le_bytes([0, 1, 2, 3, 4, 5, 6, 7]));
    cache.modify(10, &[9, 9]);
    cache.modify_u64(16, 0x0102030405060708);
    assert_eq!(cache.read(9, 4), vec![9, 9, 9, 12]);
    assert_eq!(block(&dev, 5), data);
    cache.sync(&mut dev);
    let stored = block(&dev, 5);
    assert_eq!(&stored[16..24], &[8, 7, 6, 5, 4, 3, 2, 1]);
    assert_eq!(&stored[9..13], &[9, 9, 9, 12]);
    assert_eq!(stored[0], 0);
}

#[test]
fn block_cache_manager_hits_and_evicts_oldest() {
    let mut cache = BlockCacheManager::new(MemoryBlockDevice::new());
    cache.modify(0, 0, &[42]);
    assert_eq!(get_block_cache(&mut cache, 0), 0);
    for id in 1..16 {
        assert_eq!(cache.get_block_cache(id), id);
    }
    assert_eq!(block(cache.block_device(), 0)[0], 0);
    // a hit changes nothing
    assert_eq!(cache.get_block_cache(7), 7);
    // the seventeenth block pushes out block 0, which is written back
    assert_eq!(cache.get_block_cache(16), 15);
    assert_eq!(block(cache.block_device(), 0)[0], 42);
    // block 0 comes back from the device, as the newest entry
    assert_eq!(cache.read(0, 0, 1), vec![42]);
    assert_eq!(cache.get_block_cache(0), 15);
    assert_eq!(cache.get_block_cache(2), 0);
}

#[test]
fn block_cache_sync_all_writes_back_modified_blocks() {
    let mut cache = BlockCacheManager::new(MemoryBlockDevice::new());
    cache.modify_u64(4, 8, 7);
    assert_eq!(cache.read_u64(5, 0), 0);
    assert_eq!(cache.read_u64(4, 8), 7);
    assert_eq!(block(cache.block_device(), 4)[8], 0);
    cache.sync_all();
    assert_eq!(block(cache.block_device(), 4)[8], 7);
    cache.modify(5, 511, &[3]);
    block_cache_sync_all(&mut cache);
    assert_eq!(block(cache.block_device(), 5)[511], 3);
    assert_eq!(cache.read(4, 8, 2), vec![7, 0]);
}

#[test]
fn giving_the_device_back_writes_everything() {
    let mut cache = BlockCacheManager::new(MemoryBlockDevice::new());
    cache.modify(9, 100, &[1, 2, 3]);
    let dev = cache.into_block_device();
    assert_eq!(&block(&dev, 9)[100..103], &[1, 2, 3]);
}

#[test]
fn super_block_round_trips_through_bytes() {
    let mut sb = SuperBlock {
        magic: 0,
        total_blocks: 0,
        inode_bitmap_blocks: 0,
        inode_area_blocks: 0,
        data_bitmap_blocks: 0,
        data_area_blocks: 0,
    };
    assert!(!sb.is_valid());
    sb.initialize(2000, 1, 1024, 1, 973);
    assert!(sb.is_valid());
    let bytes = sb.to_bytes();
    assert_eq!(&bytes[0..4], &[0x01, 0x00, 0x80, 0x3b]);
    assert_eq!(&bytes[4..8], &2000u32.to_le_bytes());
    let back = SuperBlock::from_bytes(&bytes);
    assert_eq!(back.magic, EFS_MAGIC);
    assert_eq!(back.total_blocks, 2000);
    assert_eq!(back.inode_area_blocks, 1024);
    assert_eq!(back.data_area_blocks, 973);
}

#[test]
fn initial_inode_bytes_hold_the_type() {
    let dir = initial_inode_bytes(DiskInodeType::Directory);
    assert_eq!(dir.len(), 125);
    assert!(dir[..124].iter().all(|&b| b == 0));
    assert_eq!(dir[124], 1);
    assert_eq!(initial_inode_bytes(DiskInodeType::File)[124], 0);
}

#[test]
fn create_lays_out_and_initializes_the_file_system() {
    let mut dev = MemoryBlockDevice::new();
    dev.write_block(1500, &vec![7u8; BLOCK_SZ]);
    dev.write_block(2500, &vec![7u8; BLOCK_SZ]);
    let mut cache = BlockCacheManager::new(dev);
    let efs = EasyFileSystem::create(&mut cache, 2000, 1);
    // inode area: 4096 inodes of 128 bytes = 1024 blocks from block 2 on
    assert_eq!(efs.get_disk_inode_pos(0), (2, 0));
    assert_eq!(efs.get_disk_inode_pos(5), (3, 128));
    // data bitmap: 1 block at 1026; data area from 1027 on
    assert_eq!(efs.get_data_block_id(0), 1027);
    let dev = cache.block_device();
    let sb = SuperBlock::from_bytes(&block(dev, 0));
    assert!(sb.is_valid());
    assert_eq!(
        (sb.total_blocks, sb.inode_bitmap_blocks, sb.inode_area_blocks, sb.data_bitmap_blocks, sb.data_area_blocks),
        (2000, 1, 1024, 1, 973)
    );
    assert_eq!(block(dev, 1)[0], 1);
    assert_eq!(block(dev, 2)[124], 1);
    assert_eq!(block(dev, 1500), vec![0u8; BLOCK_SZ]);
    assert_eq!(block(dev, 2500), vec![7u8; BLOCK_SZ]);
}

#[test]
fn open_reads_back_the_created_layout() {
    let mut cache = BlockCacheManager::new(MemoryBlockDevice::new());
    let created = EasyFileSystem::create(&mut cache, 3000, 2);
    let dev = cache.into_block_device();
    let mut cache = BlockCacheManager::new(dev);
    let efs = EasyFileSystem::open(&mut cache);
    assert_eq!(efs.inode_bitmap.maximum(), created.inode_bitmap.maximum());
    assert_eq!(efs.data_bitmap.maximum(), created.data_bitmap.maximum());
    assert_eq!(efs.data_area_blocks, created.data_area_blocks);
    // 2 inode bitmap blocks, 2048 inode area blocks
    assert_eq!(efs.get_disk_inode_pos(0), (3, 0));
    // 3000 - 1 - 2050 = 949 blocks left: 1 bitmap block, data from 2052 on
    assert_eq!(efs.get_data_block_id(0), 2052);
}

#[test]
fn inodes_and_data_blocks_are_allocated_and_freed() {
    let mut cache = BlockCacheManager::new(MemoryBlockDevice::new());
    let mut efs = EasyFileSystem::create(&mut cache, 2000, 1);
    assert_eq!(efs.alloc_inode(&mut cache), 1);
    assert_eq!(efs.alloc_inode(&mut cache), 2);
    let d0 = efs.alloc_data(&mut cache);
    let d1 = efs.alloc_data(&mut cache);
    assert_eq!((d0, d1), (1027, 1028));
    cache.modify(d0 as usize, 0, &[5, 5, 5]);
    efs.dealloc_data(&mut cache, d0);
    assert_eq!(cache.read(d0 as usize, 0, 3), vec![0, 0, 0]);
    assert_eq!(efs.alloc_data(&mut cache), 1027);
    assert_eq!(efs.alloc_data(&mut cache), 1029);
    // the file system itself holds no blocks: dropping it loses nothing
    drop(efs);
    let dev = cache.into_block_device();
    assert_eq!(block(&dev, 1026)[0], 0b111);
    assert_eq!(block(&dev, 1)[0], 0b111);
}

#[test]
fn created_areas_fill_the_device() {
    for (total, ibb) in [(2000u32, 1u32), (5000, 1), (9000, 2), (1026, 1)] {
        let mut cache = BlockCacheManager::new(MemoryBlockDevice::new());
        let efs = EasyFileSystem::create(&mut cache, total, ibb);
        assert_eq!(efs.data_area_start_block + efs.data_area_blocks, total);
        let sb = SuperBlock::from_bytes(&block(cache.block_device(), 0));
        assert_eq!(
            1 + sb.inode_bitmap_blocks + sb.inode_area_blocks + sb.data_bitmap_blocks + sb.data_area_blocks,
            total
        );
        assert!(sb.data_bitmap_blocks as u64 * 4096 >= sb.data_area_blocks as u64);
    }
}

#[test]
fn inode_positions_never_overlap() {
    let mut cache = BlockCacheManager::new(MemoryBlockDevice::new());
    let efs = EasyFileSystem::create(&mut cache, 2000, 1);
    let positions: Vec<(u32, usize)> = (0..12).map(|i| efs.get_disk_inode_pos(i)).collect();
    for (i, a) in positions.iter().enumerate() {
        assert!(a.1 + 128 <= BLOCK_SZ);
        for b in positions.iter().skip(i + 1) {
            assert!(a.0 != b.0 || a.1 + 128 <= b.1 || b.1 + 128 <= a.1);
        }
    }
    assert_eq!(positions[11], (4, 384));
}

#[test]
fn data_blocks_stay_inside_the_device() {
    // 1030 blocks: super block, 1 inode bitmap block, 1024 inode blocks,
    // 1 data bitmap block and 3 data blocks.
    let mut cache = BlockCacheManager::new(MemoryBlockDevice::new());
    let mut efs = EasyFileSystem::create(&mut cache, 1030, 1);
    let blocks: Vec<u32> = (0..3).map(|_| efs.alloc_data(&mut cache)).collect();
    assert_eq!(blocks, vec![1027, 1028, 1029]);
    assert!(blocks.iter().all(|&b| b < 1030));
}

#[test]
fn allocation_marks_scanned_bitmap_blocks_modified() {
    let mut dev = MemoryBlockDevice::new();
    dev.write_block(20, &vec![0xffu8; BLOCK_SZ]);
    let mut cache = BlockCacheManager::new(dev);
    let bitmap = Bitmap::new(20, 2);
    assert_eq!(bitmap.allocate(&mut cache), Some(4096));
    // the full block was only looked at; writing it back keeps its bytes
    cache.sync_all();
    assert_eq!(block(cache.block_device(), 20), vec![0xffu8; BLOCK_SZ]);
    assert_eq!(block(cache.block_device(), 21)[0], 1);
}
