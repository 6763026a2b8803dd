use vstd::prelude::*;
use vstd::arithmetic::div_mod::lemma_fundamental_div_mod_converse;
use vstd::bytes::{spec_u32_from_le_bytes, spec_u32_to_le_bytes};
use crate::bitmap::{
    bit_in, blocks_marked, dirty_only_within, lemma_set_bit_then_clear, lemma_zeros_clear, set_bit_in,
    clear_bit_in, Bitmap, BLOCK_BITS,
};
use crate::block_cache::{splice, BlockCacheManager};
use crate::block_dev::{BlockDevice, BLOCK_SZ};
use crate::layout::{
    initial_inode_bytes, spec_initial_inode_bytes, zeroed, zeros, DiskInodeType, SuperBlock,
    DISK_INODE_SIZE, EFS_MAGIC, SUPER_BLOCK_SIZE,
};

verus! {

/// Blocks of the inode area for an inode bitmap of `inode_bitmap_blocks`
/// blocks: room for one inode per bit, rounded up to whole blocks.
pub open spec fn spec_inode_area_blocks(inode_bitmap_blocks: u32) -> int {
    ((inode_bitmap_blocks as int) * 4096 * 128 + 511) / 512
}

/// Blocks of the inode bitmap and the inode area together.
pub open spec fn spec_inode_total_blocks(inode_bitmap_blocks: u32) -> int {
    inode_bitmap_blocks + spec_inode_area_blocks(inode_bitmap_blocks)
}

/// Blocks left for the data bitmap and the data area.
pub open spec fn spec_data_total_blocks(total_blocks: u32, inode_bitmap_blocks: u32) -> int {
    total_blocks - 1 - spec_inode_total_blocks(inode_bitmap_blocks)
}

/// Blocks of the data bitmap: one bitmap block for every 4096 data blocks,
/// the bitmap block itself counted in.
pub open spec fn spec_data_bitmap_blocks(total_blocks: u32, inode_bitmap_blocks: u32) -> int {
    (spec_data_total_blocks(total_blocks, inode_bitmap_blocks) + 4096) / 4097
}

/// Blocks of the data area.
pub open spec fn spec_data_area_blocks(total_blocks: u32, inode_bitmap_blocks: u32) -> int {
    spec_data_total_blocks(total_blocks, inode_bitmap_blocks) - spec_data_bitmap_blocks(
        total_blocks,
        inode_bitmap_blocks,
    )
}

/// The inputs on which creating a file system succeeds: the inode bitmap
/// has a block for the root inode, the sizes fit their integer types (the
/// inode area's among them), and the device has room for the super block,
/// the inode bitmap and the inode area.
pub open spec fn create_accepts(total_blocks: u32, inode_bitmap_blocks: u32) -> bool {
    &&& inode_bitmap_blocks >= 1
    &&& (inode_bitmap_blocks as int) * 4096 * 128 + 511 <= usize::MAX
    &&& spec_inode_area_blocks(inode_bitmap_blocks) <= u32::MAX
    &&& spec_inode_total_blocks(inode_bitmap_blocks) <= u32::MAX
    &&& spec_data_total_blocks(total_blocks, inode_bitmap_blocks) >= 0
    &&& spec_data_total_blocks(total_blocks, inode_bitmap_blocks) + 4096 <= u32::MAX
}

/// The super block that creating a file system writes.
pub open spec fn spec_created_super_block(total_blocks: u32, inode_bitmap_blocks: u32) -> SuperBlock {
    SuperBlock {
        magic: EFS_MAGIC,
        total_blocks,
        inode_bitmap_blocks,
        inode_area_blocks: spec_inode_area_blocks(inode_bitmap_blocks) as u32,
        data_bitmap_blocks: spec_data_bitmap_blocks(total_blocks, inode_bitmap_blocks) as u32,
        data_area_blocks: spec_data_area_blocks(total_blocks, inode_bitmap_blocks) as u32,
    }
}

/// Block `id` of a device on which a file system of `total_blocks` blocks
/// with `inode_bitmap_blocks` inode bitmap blocks was created, where the
/// block was seen as `before`: the super block, the root inode's bit and the
/// root directory's inode are written, every other block of the file system
/// is zero, and blocks past it are untouched.
pub open spec fn spec_created_block(
    total_blocks: u32,
    inode_bitmap_blocks: u32,
    id: int,
    before: Seq<u8>,
) -> Seq<u8> {
    if id == 0 {
        splice(
            zeros(BLOCK_SZ as nat),
            0,
            spec_created_super_block(total_blocks, inode_bitmap_blocks).spec_to_bytes(),
        )
    } else if id == 1 {
        set_bit_in(zeros(BLOCK_SZ as nat), 0)
    } else if id == 1 + inode_bitmap_blocks {
        splice(zeros(BLOCK_SZ as nat), 0, spec_initial_inode_bytes(DiskInodeType::Directory))
    } else if id < total_blocks {
        zeros(BLOCK_SZ as nat)
    } else {
        before
    }
}

/// The areas of a created file system follow each other and fill it: the
/// super block, the inode bitmap, the inode area, the data bitmap and the
/// data area add up to all its blocks, and the data bitmap has a bit for
/// every data block.
pub proof fn lemma_create_layout(total_blocks: u32, inode_bitmap_blocks: u32)
    requires
        create_accepts(total_blocks, inode_bitmap_blocks),
    ensures
        ({
            let ibb = inode_bitmap_blocks as int;
            let iab = spec_inode_area_blocks(inode_bitmap_blocks);
            let dbb = spec_data_bitmap_blocks(total_blocks, inode_bitmap_blocks);
            let dab = spec_data_area_blocks(total_blocks, inode_bitmap_blocks);
            &&& iab == ibb * 1024
            &&& 0 <= dbb
            &&& 0 <= dab
            &&& 1 + ibb + iab + dbb + dab == total_blocks
            &&& dbb * 4096 >= dab
        }),
{
    let ibb = inode_bitmap_blocks as int;
    lemma_fundamental_div_mod_converse(ibb * 4096 * 128 + 511, 512, ibb * 1024, 511);
    let d = spec_data_total_blocks(total_blocks, inode_bitmap_blocks);
    let dbb = spec_data_bitmap_blocks(total_blocks, inode_bitmap_blocks);
    assert(0 <= dbb);
    assert(dbb * 4097 <= d + 4096 < dbb * 4097 + 4097) by (nonlinear_arith)
        requires
            dbb == (d + 4096) / 4097,
            d >= 0,
    ;
    assert(dbb <= d) by (nonlinear_arith)
        requires
            dbb * 4097 <= d + 4096,
            d >= 0,
            dbb >= 0,
    ;
}

/// Creating a file system clears every one of its blocks but the super
/// block, the first inode bitmap block and the root directory's inode
/// block, whatever the device held before: each of them is `BLOCK_SZ` zero
/// bytes. The data bitmap lies among them, so every data block starts out
/// free.
pub proof fn lemma_created_blocks_zero(
    total_blocks: u32,
    inode_bitmap_blocks: u32,
    id: int,
    before: Seq<u8>,
)
    requires
        create_accepts(total_blocks, inode_bitmap_blocks),
        1 < id < total_blocks,
        id != 1 + inode_bitmap_blocks,
    ensures
        spec_created_block(total_blocks, inode_bitmap_blocks, id, before).len() == BLOCK_SZ,
        forall|k: int|
            0 <= k < BLOCK_SZ ==> #[trigger] spec_created_block(
                total_blocks,
                inode_bitmap_blocks,
                id,
                before,
            )[k] == 0u8,
{
}

/// The super block that creating a file system writes to block 0 holds its
/// fields as little-endian `u32`s at offsets 0, 4, 8, 12, 16 and 20: the
/// magic number, the total number of blocks, the inode bitmap's and the
/// inode area's sizes, then the data bitmap's and the data area's sizes.
pub proof fn lemma_created_super_block_bytes(
    total_blocks: u32,
    inode_bitmap_blocks: u32,
    before: Seq<u8>,
)
    requires
        create_accepts(total_blocks, inode_bitmap_blocks),
    ensures
        ({
            let b = spec_created_block(total_blocks, inode_bitmap_blocks, 0, before);
            &&& b.len() == BLOCK_SZ
            &&& b.subrange(0, 4) == spec_u32_to_le_bytes(EFS_MAGIC)
            &&& b.subrange(4, 8) == spec_u32_to_le_bytes(total_blocks)
            &&& b.subrange(8, 12) == spec_u32_to_le_bytes(inode_bitmap_blocks)
            &&& b.subrange(12, 16) == spec_u32_to_le_bytes(
                spec_inode_area_blocks(inode_bitmap_blocks) as u32,
            )
            &&& b.subrange(16, 20) == spec_u32_to_le_bytes(
                spec_data_bitmap_blocks(total_blocks, inode_bitmap_blocks) as u32,
            )
            &&& b.subrange(20, 24) == spec_u32_to_le_bytes(
                spec_data_area_blocks(total_blocks, inode_bitmap_blocks) as u32,
            )
        }),
{
    let sb = spec_created_super_block(total_blocks, inode_bitmap_blocks);
    sb.lemma_encoded_offsets();
    let t = sb.spec_to_bytes();
    let b = spec_created_block(total_blocks, inode_bitmap_blocks, 0, before);
    assert(b.subrange(0, 4) =~= t.subrange(0, 4));
    assert(b.subrange(4, 8) =~= t.subrange(4, 8));
    assert(b.subrange(8, 12) =~= t.subrange(8, 12));
    assert(b.subrange(12, 16) =~= t.subrange(12, 16));
    assert(b.subrange(16, 20) =~= t.subrange(16, 20));
    assert(b.subrange(20, 24) =~= t.subrange(20, 24));
}

/// Opening a freshly created file system succeeds and reads back the layout
/// that creating it chose: the super block that `create` writes to block 0
/// decodes to the fields `create` computed, its magic number is valid, and
/// the sums that `open` forms fit a `u32`.
pub proof fn lemma_open_after_create(total_blocks: u32, inode_bitmap_blocks: u32, before: Seq<u8>)
    requires
        create_accepts(total_blocks, inode_bitmap_blocks),
    ensures
        ({
            let sb = SuperBlock::spec_from_bytes(
                spec_created_block(total_blocks, inode_bitmap_blocks, 0, before),
            );
            &&& sb == spec_created_super_block(total_blocks, inode_bitmap_blocks)
            &&& sb.magic == EFS_MAGIC
            &&& 1 + sb.inode_bitmap_blocks + sb.inode_area_blocks + sb.data_bitmap_blocks
                <= u32::MAX
            &&& 1 + sb.inode_bitmap_blocks + sb.inode_area_blocks == 1 + spec_inode_total_blocks(
                inode_bitmap_blocks,
            )
            &&& 1 + sb.inode_bitmap_blocks + sb.inode_area_blocks + sb.data_bitmap_blocks == 1
                + spec_inode_total_blocks(inode_bitmap_blocks) + spec_data_bitmap_blocks(
                total_blocks,
                inode_bitmap_blocks,
            )
        }),
{
    lemma_create_layout(total_blocks, inode_bitmap_blocks);
    let sb = spec_created_super_block(total_blocks, inode_bitmap_blocks);
    sb.lemma_bytes_roundtrip(Seq::empty());
    let z = zeros(BLOCK_SZ as nat);
    let block = splice(z, 0, sb.spec_to_bytes());
    let rest = z.subrange(SUPER_BLOCK_SIZE as int, BLOCK_SZ as int);
    assert(block =~= sb.spec_to_bytes() + rest);
    sb.lemma_bytes_roundtrip(rest);
}

/// Two different inodes never share bytes on disk: they lie in different
/// blocks or at offsets at least an inode apart.
pub proof fn lemma_inode_pos_disjoint(inode_area_start: u32, a: u32, b: u32)
    requires
        a != b,
    ensures
        inode_area_start + a / 4 != inode_area_start + b / 4 || (a % 4) * 128 + 128 <= (b % 4)
            * 128 || (b % 4) * 128 + 128 <= (a % 4) * 128,
{
    assert(a == (a / 4) * 4 + a % 4) by (nonlinear_arith);
    assert(b == (b / 4) * 4 + b % 4) by (nonlinear_arith);
}

/// An easy file system: the super block in block 0, then the inode bitmap,
/// the inode area, the data bitmap and the data area.
///
/// It reaches its device through a block cache that its users hand in;
/// blocks modified through that cache reach the device when the cache
/// evicts them or writes everything back.
pub struct EasyFileSystem {
    /// The bitmap of used inodes.
    pub inode_bitmap: Bitmap,
    /// The bitmap of used data blocks.
    pub data_bitmap: Bitmap,
    /// The first block of the inode area.
    pub inode_area_start_block: u32,
    /// The first block of the data area.
    pub data_area_start_block: u32,
    /// The number of blocks of the data area.
    pub data_area_blocks: u32,
}

impl EasyFileSystem {
    /// The areas follow each other: the inode bitmap from block 1 on, the
    /// inode area right after it, the data bitmap after the inode area, and
    /// the data area right after the data bitmap.
    pub open spec fn layout_ok(&self) -> bool {
        &&& self.inode_bitmap.start() == 1
        &&& self.inode_area_start_block == 1 + self.inode_bitmap.len()
        &&& self.inode_area_start_block <= self.data_bitmap.start()
        &&& self.data_area_start_block == self.data_bitmap.start() + self.data_bitmap.len()
    }

    /// The layout that creating a file system of `total_blocks` blocks with
    /// `inode_bitmap_blocks` inode bitmap blocks chooses.
    pub open spec fn has_created_layout(&self, total_blocks: u32, inode_bitmap_blocks: u32) -> bool {
        &&& self.inode_bitmap.start() == 1
        &&& self.inode_bitmap.len() == inode_bitmap_blocks
        &&& self.data_bitmap.start() == 1 + spec_inode_total_blocks(inode_bitmap_blocks)
        &&& self.data_bitmap.len() == spec_data_bitmap_blocks(total_blocks, inode_bitmap_blocks)
        &&& self.inode_area_start_block == 1 + inode_bitmap_blocks
        &&& self.data_area_start_block == 1 + spec_inode_total_blocks(inode_bitmap_blocks)
            + spec_data_bitmap_blocks(total_blocks, inode_bitmap_blocks)
        &&& self.data_area_blocks == spec_data_area_blocks(total_blocks, inode_bitmap_blocks)
    }

    /// The layout that super block `sb` records.
    pub open spec fn has_opened_layout(&self, sb: SuperBlock) -> bool {
        &&& self.inode_bitmap.start() == 1
        &&& self.inode_bitmap.len() == sb.inode_bitmap_blocks
        &&& self.data_bitmap.start() == 1 + sb.inode_bitmap_blocks + sb.inode_area_blocks
        &&& self.data_bitmap.len() == sb.data_bitmap_blocks
        &&& self.inode_area_start_block == 1 + sb.inode_bitmap_blocks
        &&& self.data_area_start_block == 1 + sb.inode_bitmap_blocks + sb.inode_area_blocks
            + sb.data_bitmap_blocks
        &&& self.data_area_blocks == sb.data_area_blocks
    }

    /// Block number and byte offset of inode `inode_id`: four inodes to a
    /// block, from the start of the inode area on.
    pub fn get_disk_inode_pos(&self, inode_id: u32) -> (pos: (u32, usize))
        requires
            self.inode_area_start_block + inode_id / 4 <= u32::MAX,
        ensures
            pos.0 == self.inode_area_start_block + inode_id / 4,
            pos.1 == (inode_id % 4) * 128,
            pos.1 + DISK_INODE_SIZE <= BLOCK_SZ,
    {
        let inode_size = DISK_INODE_SIZE;
        let inodes_per_block = (BLOCK_SZ / inode_size) as u32;
        let block_id = self.inode_area_start_block + inode_id / inodes_per_block;
        (block_id, (inode_id % inodes_per_block) as usize * inode_size)
    }

    /// Device block number of data block `data_block_id`.
    pub fn get_data_block_id(&self, data_block_id: u32) -> (id: u32)
        requires
            self.data_area_start_block + data_block_id <= u32::MAX,
        ensures
            id == self.data_area_start_block + data_block_id,
    {
        self.data_area_start_block + data_block_id
    }

    /// Allocates the lowest free inode and returns its number, taken as a
    /// `u32`; only its bit in the inode bitmap changes.
    pub fn alloc_inode<D: BlockDevice>(&mut self, cache: &mut BlockCacheManager<D>) -> (inode_id: u32)
        requires
            old(cache).wf(),
            old(self).inode_bitmap.start() + old(self).inode_bitmap.len() <= usize::MAX + 1,
            old(self).inode_bitmap.len() * BLOCK_BITS <= usize::MAX + 1,
            !old(self).inode_bitmap.is_full(*old(cache)),
        ensures
            *final(self) == *old(self),
            final(cache).wf(),
            exists|b: int|
                {
                    &&& old(self).inode_bitmap.is_lowest_clear(*old(cache), b)
                    &&& inode_id == b as u32
                    &&& old(self).inode_bitmap.start() <= old(self).inode_bitmap.block_of(b)
                        < old(self).inode_bitmap.start() + old(self).inode_bitmap.len()
                    &&& forall|id: usize| #[trigger]
                        final(cache).logical(id) == if id == old(self).inode_bitmap.block_of(b) {
                            set_bit_in(old(cache).logical(id), b % 4096)
                        } else {
                            old(cache).logical(id)
                        }
                    &&& blocks_marked(
                        *final(cache),
                        old(self).inode_bitmap.start() as int,
                        b / 4096 + 1,
                    )
                    &&& dirty_only_within(
                        *final(cache),
                        *old(cache),
                        old(self).inode_bitmap.start() as int,
                        b / 4096 + 1,
                    )
                },
            old(self).layout_ok() ==> forall|id: usize|
                id >= old(self).inode_area_start_block ==> #[trigger] final(cache).logical(id)
                    == old(cache).logical(id),
    {
        let b = self.inode_bitmap.allocate(cache).unwrap();
        proof {
            self.inode_bitmap.lemma_block_of_in_range(b as int);
            assert(self.inode_bitmap.is_lowest_clear(*old(cache), b as int));
            assert(self.inode_bitmap.scanned_blocks(Some(b)) == b / 4096 + 1);
        }
        #[verifier::truncate]
        (b as u32)
    }

    /// Allocates the lowest free data block and returns its device block
    /// number, which lies in the data area; only its bit in the data bitmap
    /// changes.
    pub fn alloc_data<D: BlockDevice>(&mut self, cache: &mut BlockCacheManager<D>) -> (block_id: u32)
        requires
            old(cache).wf(),
            old(self).data_bitmap.start() + old(self).data_bitmap.len() <= usize::MAX + 1,
            old(self).data_bitmap.len() * BLOCK_BITS <= usize::MAX + 1,
            !old(self).data_bitmap.is_full(*old(cache)),
            forall|b: int|
                #[trigger] old(self).data_bitmap.is_lowest_clear(*old(cache), b) ==> b
                    < old(self).data_area_blocks && (b as u32) + old(self).data_area_start_block
                    <= u32::MAX,
        ensures
            *final(self) == *old(self),
            final(cache).wf(),
            old(self).data_area_start_block <= block_id < old(self).data_area_start_block + old(
                self,
            ).data_area_blocks,
            exists|b: int|
                {
                    &&& old(self).data_bitmap.is_lowest_clear(*old(cache), b)
                    &&& block_id == b + old(self).data_area_start_block
                    &&& old(self).data_bitmap.start() <= old(self).data_bitmap.block_of(b)
                        < old(self).data_bitmap.start() + old(self).data_bitmap.len()
                    &&& forall|id: usize| #[trigger]
                        final(cache).logical(id) == if id == old(self).data_bitmap.block_of(b) {
                            set_bit_in(old(cache).logical(id), b % 4096)
                        } else {
                            old(cache).logical(id)
                        }
                    &&& blocks_marked(
                        *final(cache),
                        old(self).data_bitmap.start() as int,
                        b / 4096 + 1,
                    )
                    &&& dirty_only_within(
                        *final(cache),
                        *old(cache),
                        old(self).data_bitmap.start() as int,
                        b / 4096 + 1,
                    )
                },
            old(self).layout_ok() ==> forall|id: usize|
                id < old(self).data_bitmap.start() || id >= old(self).data_area_start_block
                    ==> #[trigger] final(cache).logical(id) == old(cache).logical(id),
    {
        let b = self.data_bitmap.allocate(cache).unwrap();
        proof {
            self.data_bitmap.lemma_block_of_in_range(b as int);
            assert(self.data_bitmap.is_lowest_clear(*old(cache), b as int));
            assert(self.data_bitmap.scanned_blocks(Some(b)) == b / 4096 + 1);
        }
        b as u32 + self.data_area_start_block
    }

    /// Zeroes device block `block_id` and frees it in the data bitmap.
    pub fn dealloc_data<D: BlockDevice>(&mut self, cache: &mut BlockCacheManager<D>, block_id: u32)
        requires
            old(cache).wf(),
            old(self).layout_ok(),
            block_id >= old(self).data_area_start_block,
            old(self).data_bitmap.start() + (block_id - old(self).data_area_start_block) / 4096
                <= usize::MAX,
            old(self).data_bitmap.bit_set(
                *old(cache),
                block_id - old(self).data_area_start_block,
            ),
            old(self).data_bitmap.len() > 0 || block_id != old(self).data_area_start_block,
        ensures
            *final(self) == *old(self),
            final(cache).wf(),
            forall|id: usize| #[trigger]
                final(cache).logical(id) == if id == block_id {
                    zeros(BLOCK_SZ as nat)
                } else if id == old(self).data_bitmap.block_of(
                    block_id - old(self).data_area_start_block,
                ) {
                    clear_bit_in(
                        old(cache).logical(id),
                        (block_id - old(self).data_area_start_block) % 4096,
                    )
                } else {
                    old(cache).logical(id)
                },
    {
        let ghost bit = block_id - self.data_area_start_block;
        let ghost blk = self.data_bitmap.block_of(bit) as usize;
        proof {
            assert(bit / 4096 <= bit);
            assert(blk != block_id);
        }
        let zero_block = zeroed(BLOCK_SZ);
        cache.modify(block_id as usize, 0, zero_block.as_slice());
        proof {
            let s = old(cache).logical(block_id as usize);
            assert(splice(s, 0, zeros(BLOCK_SZ as nat)) =~= zeros(BLOCK_SZ as nat));
            assert(cache.logical(blk) == old(cache).logical(blk));
        }
        self.data_bitmap.dealloc(cache, (block_id - self.data_area_start_block) as usize);
    }

    /// Creates a file system of `total_blocks` blocks with
    /// `inode_bitmap_blocks` inode bitmap blocks on the device of `cache`:
    /// zeroes its blocks, writes the super block, allocates inode 0 as the
    /// root directory and writes everything back to the device.
    pub fn create<D: BlockDevice>(
        cache: &mut BlockCacheManager<D>,
        total_blocks: u32,
        inode_bitmap_blocks: u32,
    ) -> (efs: Self)
        requires
            old(cache).wf(),
            create_accepts(total_blocks, inode_bitmap_blocks),
        ensures
            final(cache).wf(),
            final(cache).all_clean(),
            efs.layout_ok(),
            efs.has_created_layout(total_blocks, inode_bitmap_blocks),
            efs.data_bitmap.len() * BLOCK_BITS >= efs.data_area_blocks,
            efs.data_area_start_block + efs.data_area_blocks == total_blocks,
            forall|id: usize| #[trigger]
                final(cache).device().block(id) == spec_created_block(
                    total_blocks,
                    inode_bitmap_blocks,
                    id as int,
                    old(cache).logical(id),
                ),
            forall|id: usize| #[trigger] final(cache).logical(id) == final(cache).device().block(id),
            forall|id: usize|
                1 < id < total_blocks && id != 1 + inode_bitmap_blocks ==> {
                    &&& (#[trigger] final(cache).device().block(id)).len() == BLOCK_SZ
                    &&& forall|k: int|
                        0 <= k < BLOCK_SZ ==> final(cache).device().block(id)[k] == 0u8
                },
            final(cache).device().block(0).subrange(0, 4) == spec_u32_to_le_bytes(EFS_MAGIC),
            final(cache).device().block(0).subrange(4, 8) == spec_u32_to_le_bytes(total_blocks),
            final(cache).device().block(0).subrange(8, 12) == spec_u32_to_le_bytes(
                inode_bitmap_blocks,
            ),
            final(cache).device().block(0).subrange(12, 16) == spec_u32_to_le_bytes(
                spec_inode_area_blocks(inode_bitmap_blocks) as u32,
            ),
            final(cache).device().block(0).subrange(16, 20) == spec_u32_to_le_bytes(
                spec_data_bitmap_blocks(total_blocks, inode_bitmap_blocks) as u32,
            ),
            final(cache).device().block(0).subrange(20, 24) == spec_u32_to_le_bytes(
                spec_data_area_blocks(total_blocks, inode_bitmap_blocks) as u32,
            ),
            efs.inode_bitmap.bit_set(*final(cache), 0),
            forall|b: int|
                0 < b < efs.inode_bitmap.len() * BLOCK_BITS ==> !#[trigger] efs.inode_bitmap.bit_set(
                    *final(cache),
                    b,
                ),
            forall|b: int|
                0 <= b < efs.data_bitmap.len() * BLOCK_BITS ==> !#[trigger] efs.data_bitmap.bit_set(
                    *final(cache),
                    b,
                ),
            efs.data_area_blocks > 0 ==> efs.data_bitmap.is_lowest_clear(*final(cache), 0),
    {
        proof {
            lemma_create_layout(total_blocks, inode_bitmap_blocks);
        }
        let ghost c_init = *cache;
        // calculate block size of areas & create bitmaps
        let inode_bitmap = Bitmap::new(1, inode_bitmap_blocks as usize);
        let inode_num = inode_bitmap.maximum();
        let inode_area_blocks = ((inode_num * DISK_INODE_SIZE + BLOCK_SZ - 1) / BLOCK_SZ) as u32;
        let inode_total_blocks = inode_bitmap_blocks + inode_area_blocks;
        let data_total_blocks = total_blocks - 1 - inode_total_blocks;
        let data_bitmap_blocks = (data_total_blocks + 4096) / 4097;
        let data_area_blocks = data_total_blocks - data_bitmap_blocks;
        let data_bitmap = Bitmap::new(
            (1 + inode_total_blocks) as usize,
            data_bitmap_blocks as usize,
        );
        // clear all blocks
        let zero_block = zeroed(BLOCK_SZ);
        let mut i: u32 = 0;
        while i < total_blocks
            invariant
                i <= total_blocks,
                cache.wf(),
                zero_block@ == zeros(BLOCK_SZ as nat),
                forall|id: usize| #[trigger]
                    cache.logical(id) == if id < i {
                        zeros(BLOCK_SZ as nat)
                    } else {
                        c_init.logical(id)
                    },
            decreases total_blocks - i,
        {
            let ghost c1 = *cache;
            cache.modify(i as usize, 0, zero_block.as_slice());
            proof {
                let s = c1.logical(i as usize);
                assert(splice(s, 0, zeros(BLOCK_SZ as nat)) =~= zeros(BLOCK_SZ as nat));
            }
            i = i + 1;
        }
        // initialize the super block
        let mut super_block = SuperBlock {
            magic: 0,
            total_blocks: 0,
            inode_bitmap_blocks: 0,
            inode_area_blocks: 0,
            data_bitmap_blocks: 0,
            data_area_blocks: 0,
        };
        super_block.initialize(
            total_blocks,
            inode_bitmap_blocks,
            inode_area_blocks,
            data_bitmap_blocks,
            data_area_blocks,
        );
        let sb_bytes = super_block.to_bytes();
        proof {
            super_block.lemma_bytes_roundtrip(Seq::empty());
        }
        cache.modify(0, 0, sb_bytes.as_slice());
        let ghost after_sb = *cache;
        let mut efs = Self {
            inode_bitmap,
            data_bitmap,
            inode_area_start_block: 1 + inode_bitmap_blocks,
            data_area_start_block: 1 + inode_total_blocks + data_bitmap_blocks,
            data_area_blocks,
        };
        // create an inode for the root directory "/"
        proof {
            assert(cache.logical(1) == zeros(BLOCK_SZ as nat));
            lemma_zeros_clear(0);
            assert(!efs.inode_bitmap.bit_set(*cache, 0));
            assert(efs.inode_bitmap.is_lowest_clear(*cache, 0));
        }
        let ghost before_alloc = *cache;
        let root_inode_id = efs.alloc_inode(cache);
        proof {
            let b = choose|b: int|
                {
                    &&& efs.inode_bitmap.is_lowest_clear(before_alloc, b)
                    &&& root_inode_id == b as u32
                    &&& efs.inode_bitmap.start() <= efs.inode_bitmap.block_of(b)
                        < efs.inode_bitmap.start() + efs.inode_bitmap.len()
                    &&& forall|id: usize| #[trigger]
                        cache.logical(id) == if id == efs.inode_bitmap.block_of(b) {
                            set_bit_in(before_alloc.logical(id), b % 4096)
                        } else {
                            before_alloc.logical(id)
                        }
                    &&& blocks_marked(*cache, efs.inode_bitmap.start() as int, b / 4096 + 1)
                    &&& dirty_only_within(
                        *cache,
                        before_alloc,
                        efs.inode_bitmap.start() as int,
                        b / 4096 + 1,
                    )
                };
            efs.inode_bitmap.lemma_lowest_clear_unique(before_alloc, b, 0);
            assert(root_inode_id == 0);
        }
        let (root_inode_block_id, root_inode_offset) = efs.get_disk_inode_pos(0);
        let root_bytes = initial_inode_bytes(DiskInodeType::Directory);
        let ghost before_root = *cache;
        cache.modify(root_inode_block_id as usize, root_inode_offset, root_bytes.as_slice());
        let ghost after_root = *cache;
        cache.sync_all();
        proof {
            let root_blk = (1 + inode_bitmap_blocks) as usize;
            assert(root_inode_block_id == root_blk);
            assert forall|id: usize| #[trigger]
                cache.device().block(id) == spec_created_block(
                    total_blocks,
                    inode_bitmap_blocks,
                    id as int,
                    c_init.logical(id),
                ) by {
                assert(cache.device().block(id) == after_root.logical(id));
                assert(before_alloc.logical(id) == after_sb.logical(id));
                if id == root_blk {
                    assert(after_root.logical(id) == splice(
                        before_root.logical(id),
                        0,
                        spec_initial_inode_bytes(DiskInodeType::Directory),
                    ));
                    assert(before_root.logical(id) == before_alloc.logical(id));
                } else {
                    assert(after_root.logical(id) == before_root.logical(id));
                    if id == 1 {
                        assert(before_root.logical(id) == set_bit_in(before_alloc.logical(id), 0));
                    } else {
                        assert(before_root.logical(id) == before_alloc.logical(id));
                    }
                }
            }
            let ghost fin = *cache;
            lemma_created_super_block_bytes(total_blocks, inode_bitmap_blocks, c_init.logical(0));
            assert forall|id: usize|
                1 < id < total_blocks && id != 1 + inode_bitmap_blocks implies {
                    &&& (#[trigger] fin.device().block(id)).len() == BLOCK_SZ
                    &&& forall|k: int| 0 <= k < BLOCK_SZ ==> fin.device().block(id)[k] == 0u8
                } by {
                lemma_created_blocks_zero(
                    total_blocks,
                    inode_bitmap_blocks,
                    id as int,
                    c_init.logical(id),
                );
            }
            let z = zeros(BLOCK_SZ as nat);
            lemma_zeros_clear(0);
            lemma_set_bit_then_clear(z, 0);
            assert(fin.logical(1) == set_bit_in(z, 0));
            assert forall|b: int|
                0 < b < efs.inode_bitmap.len() * BLOCK_BITS implies !#[trigger] efs.inode_bitmap.bit_set(
                    fin,
                    b,
                ) by {
                efs.inode_bitmap.lemma_block_of_in_range(b);
                let blk = efs.inode_bitmap.block_of(b) as usize;
                if blk == 1 {
                    assert(bit_in(set_bit_in(z, 0), b % 4096) == bit_in(z, b % 4096));
                    lemma_zeros_clear(b % 4096);
                } else {
                    assert(fin.logical(blk) == z);
                    lemma_zeros_clear(b % 4096);
                }
            }
            assert forall|b: int|
                0 <= b < efs.data_bitmap.len() * BLOCK_BITS implies !#[trigger] efs.data_bitmap.bit_set(
                    fin,
                    b,
                ) by {
                efs.data_bitmap.lemma_block_of_in_range(b);
                let blk = efs.data_bitmap.block_of(b) as usize;
                assert(fin.logical(blk) == z);
                lemma_zeros_clear(b % 4096);
            }
        }
        efs
    }

    /// Opens the file system on the device of `cache`: reads its super block
    /// and places the bitmaps and areas as it says.
    pub fn open<D: BlockDevice>(cache: &mut BlockCacheManager<D>) -> (efs: Self)
        requires
            old(cache).wf(),
            ({
                let sb = SuperBlock::spec_from_bytes(old(cache).logical(0));
                &&& sb.magic == EFS_MAGIC
                &&& 1 + sb.inode_bitmap_blocks + sb.inode_area_blocks + sb.data_bitmap_blocks
                    <= u32::MAX
            }),
        ensures
            final(cache).wf(),
            old(cache).lookup_effect(0, *final(cache)),
            forall|id: usize| #[trigger] final(cache).logical(id) == old(cache).logical(id),
            efs.layout_ok(),
            efs.has_opened_layout(SuperBlock::spec_from_bytes(old(cache).logical(0))),
            ({
                let s = old(cache).logical(0);
                let ibb = spec_u32_from_le_bytes(s.subrange(8, 12));
                let iab = spec_u32_from_le_bytes(s.subrange(12, 16));
                let dbb = spec_u32_from_le_bytes(s.subrange(16, 20));
                &&& efs.inode_bitmap.len() == ibb
                &&& efs.inode_area_start_block == 1 + ibb
                &&& efs.data_bitmap.start() == 1 + ibb + iab
                &&& efs.data_bitmap.len() == dbb
                &&& efs.data_area_start_block == 1 + ibb + iab + dbb
                &&& efs.data_area_blocks == spec_u32_from_le_bytes(s.subrange(20, 24))
            }),
    {
        proof {
            SuperBlock::lemma_decoded_offsets(old(cache).logical(0));
        }
        let bytes = cache.read(0, 0, SUPER_BLOCK_SIZE);
        let super_block = SuperBlock::from_bytes(bytes.as_slice());
        proof {
            let s = old(cache).logical(0);
            assert(bytes@ == s.subrange(0, 24));
            assert(bytes@.subrange(0, 4) =~= s.subrange(0, 4));
            assert(bytes@.subrange(4, 8) =~= s.subrange(4, 8));
            assert(bytes@.subrange(8, 12) =~= s.subrange(8, 12));
            assert(bytes@.subrange(12, 16) =~= s.subrange(12, 16));
            assert(bytes@.subrange(16, 20) =~= s.subrange(16, 20));
            assert(bytes@.subrange(20, 24) =~= s.subrange(20, 24));
            assert(super_block == SuperBlock::spec_from_bytes(s));
        }
        let valid = super_block.is_valid();
        assert(valid);
        let inode_total_blocks = super_block.inode_bitmap_blocks + super_block.inode_area_blocks;
        Self {
            inode_bitmap: Bitmap::new(1, super_block.inode_bitmap_blocks as usize),
            data_bitmap: Bitmap::new(
                (1 + inode_total_blocks) as usize,
                super_block.data_bitmap_blocks as usize,
            ),
            inode_area_start_block: 1 + super_block.inode_bitmap_blocks,
            data_area_start_block: 1 + inode_total_blocks + super_block.data_bitmap_blocks,
            data_area_blocks: super_block.data_area_blocks,
        }
    }
}

/// Opening a file system right after creating it gives the file system
/// that creating it gave.
pub proof fn lemma_open_gives_created_layout(
    total_blocks: u32,
    inode_bitmap_blocks: u32,
    before: Seq<u8>,
    created: EasyFileSystem,
    opened: EasyFileSystem,
)
    requires
        create_accepts(total_blocks, inode_bitmap_blocks),
        created.has_created_layout(total_blocks, inode_bitmap_blocks),
        opened.has_opened_layout(
            SuperBlock::spec_from_bytes(
                spec_created_block(total_blocks, inode_bitmap_blocks, 0, before),
            ),
        ),
    ensures
        created == opened,
{
    lemma_open_after_create(total_blocks, inode_bitmap_blocks, before);
    created.inode_bitmap.lemma_same_blocks(&opened.inode_bitmap);
    created.data_bitmap.lemma_same_blocks(&opened.data_bitmap);
}

/// Freeing the data block that `alloc_data` handed out gives back the data
/// bitmap as it was and leaves the block zeroed; no other block changes.
pub proof fn lemma_dealloc_data_undoes_alloc_data<D: BlockDevice>(
    efs: EasyFileSystem,
    before: BlockCacheManager<D>,
    allocated: BlockCacheManager<D>,
    freed: BlockCacheManager<D>,
    b: int,
)
    requires
        before.wf(),
        efs.layout_ok(),
        efs.data_bitmap.start() + efs.data_bitmap.len() <= usize::MAX + 1,
        0 <= b < efs.data_bitmap.len() * BLOCK_BITS,
        b + efs.data_area_start_block <= u32::MAX,
        !efs.data_bitmap.bit_set(before, b),
        forall|id: usize| #[trigger]
            allocated.logical(id) == if id == efs.data_bitmap.block_of(b) {
                set_bit_in(before.logical(id), b % 4096)
            } else {
                before.logical(id)
            },
        forall|id: usize| #[trigger]
            freed.logical(id) == if id == b + efs.data_area_start_block {
                zeros(BLOCK_SZ as nat)
            } else if id == efs.data_bitmap.block_of(b) {
                clear_bit_in(allocated.logical(id), b % 4096)
            } else {
                allocated.logical(id)
            },
    ensures
        freed.logical((b + efs.data_area_start_block) as usize) == zeros(BLOCK_SZ as nat),
        forall|id: usize|
            id != b + efs.data_area_start_block ==> #[trigger] freed.logical(id)
                == before.logical(id),
{
    efs.data_bitmap.lemma_block_of_in_range(b);
    let blk = efs.data_bitmap.block_of(b) as usize;
    let target = (b + efs.data_area_start_block) as usize;
    assert(freed.logical(target) == zeros(BLOCK_SZ as nat));
    before.lemma_logical_len(blk);
    lemma_set_bit_then_clear(before.logical(blk), b % 4096);
    assert forall|id: usize| id != b + efs.data_area_start_block implies #[trigger] freed.logical(id)
        == before.logical(id) by {
        assert(allocated.logical(id) == if id == efs.data_bitmap.block_of(b) {
            set_bit_in(before.logical(id), b % 4096)
        } else {
            before.logical(id)
        });
    }
}

} // verus!
