use vstd::prelude::*;
use vstd::bytes::{spec_u32_from_le_bytes, spec_u32_to_le_bytes, u32_from_le_bytes, u32_to_le_bytes};

verus! {

/// Magic number that marks a block as the super block of an easy file system.
pub const EFS_MAGIC: u32 = 0x3b800001;

/// Size in bytes of an inode on disk.
pub const DISK_INODE_SIZE: usize = 128;

/// Size in bytes of the super block's fields on disk.
pub const SUPER_BLOCK_SIZE: usize = 24;

/// Offset of the type field in an inode on disk: after the size, the
/// direct block numbers and the two indirect block numbers.
pub const DISK_INODE_TYPE_OFFSET: usize = 124;

/// The little-endian `u32` at `offset` of `s`.
pub open spec fn u32_at(s: Seq<u8>, offset: int) -> u32 {
    spec_u32_from_le_bytes(s.subrange(offset, offset + 4))
}

/// The layout of an easy file system, kept in its first block.
pub struct SuperBlock {
    pub magic: u32,
    pub total_blocks: u32,
    pub inode_bitmap_blocks: u32,
    pub inode_area_blocks: u32,
    pub data_bitmap_blocks: u32,
    pub data_area_blocks: u32,
}

impl SuperBlock {
    /// The bytes of the super block on disk: its six fields, little-endian,
    /// in order.
    pub open spec fn spec_to_bytes(&self) -> Seq<u8> {
        spec_u32_to_le_bytes(self.magic) + spec_u32_to_le_bytes(self.total_blocks)
            + spec_u32_to_le_bytes(self.inode_bitmap_blocks) + spec_u32_to_le_bytes(
            self.inode_area_blocks,
        ) + spec_u32_to_le_bytes(self.data_bitmap_blocks) + spec_u32_to_le_bytes(
            self.data_area_blocks,
        )
    }

    /// The super block whose fields are stored at the start of `s`.
    pub open spec fn spec_from_bytes(s: Seq<u8>) -> SuperBlock {
        SuperBlock {
            magic: u32_at(s, 0),
            total_blocks: u32_at(s, 4),
            inode_bitmap_blocks: u32_at(s, 8),
            inode_area_blocks: u32_at(s, 12),
            data_bitmap_blocks: u32_at(s, 16),
            data_area_blocks: u32_at(s, 20),
        }
    }

    /// Decoding the bytes of a super block gives it back, whatever follows
    /// them.
    pub proof fn lemma_bytes_roundtrip(&self, rest: Seq<u8>)
        ensures
            self.spec_to_bytes().len() == SUPER_BLOCK_SIZE,
            SuperBlock::spec_from_bytes(self.spec_to_bytes() + rest) == *self,
    {
        vstd::bytes::lemma_auto_spec_u32_to_from_le_bytes();
        let s = self.spec_to_bytes() + rest;
        assert(spec_u32_to_le_bytes(self.magic).len() == 4);
        assert(spec_u32_to_le_bytes(self.total_blocks).len() == 4);
        assert(spec_u32_to_le_bytes(self.inode_bitmap_blocks).len() == 4);
        assert(spec_u32_to_le_bytes(self.inode_area_blocks).len() == 4);
        assert(spec_u32_to_le_bytes(self.data_bitmap_blocks).len() == 4);
        assert(spec_u32_to_le_bytes(self.data_area_blocks).len() == 4);
        assert(s.subrange(0, 4) =~= spec_u32_to_le_bytes(self.magic));
        assert(s.subrange(4, 8) =~= spec_u32_to_le_bytes(self.total_blocks));
        assert(s.subrange(8, 12) =~= spec_u32_to_le_bytes(self.inode_bitmap_blocks));
        assert(s.subrange(12, 16) =~= spec_u32_to_le_bytes(self.inode_area_blocks));
        assert(s.subrange(16, 20) =~= spec_u32_to_le_bytes(self.data_bitmap_blocks));
        assert(s.subrange(20, 24) =~= spec_u32_to_le_bytes(self.data_area_blocks));
    }

    /// The on-disk layout of a super block: its six fields are stored as
    /// little-endian `u32`s in declaration order, at offsets 0, 4, 8, 12,
    /// 16 and 20.
    pub proof fn lemma_encoded_offsets(&self)
        ensures
            self.spec_to_bytes().len() == SUPER_BLOCK_SIZE,
            self.spec_to_bytes().subrange(0, 4) == spec_u32_to_le_bytes(self.magic),
            self.spec_to_bytes().subrange(4, 8) == spec_u32_to_le_bytes(self.total_blocks),
            self.spec_to_bytes().subrange(8, 12) == spec_u32_to_le_bytes(self.inode_bitmap_blocks),
            self.spec_to_bytes().subrange(12, 16) == spec_u32_to_le_bytes(self.inode_area_blocks),
            self.spec_to_bytes().subrange(16, 20) == spec_u32_to_le_bytes(self.data_bitmap_blocks),
            self.spec_to_bytes().subrange(20, 24) == spec_u32_to_le_bytes(self.data_area_blocks),
    {
        vstd::bytes::lemma_auto_spec_u32_to_from_le_bytes();
        let t = self.spec_to_bytes();
        assert(spec_u32_to_le_bytes(self.magic).len() == 4);
        assert(spec_u32_to_le_bytes(self.total_blocks).len() == 4);
        assert(spec_u32_to_le_bytes(self.inode_bitmap_blocks).len() == 4);
        assert(spec_u32_to_le_bytes(self.inode_area_blocks).len() == 4);
        assert(spec_u32_to_le_bytes(self.data_bitmap_blocks).len() == 4);
        assert(spec_u32_to_le_bytes(self.data_area_blocks).len() == 4);
        assert(t.subrange(0, 4) =~= spec_u32_to_le_bytes(self.magic));
        assert(t.subrange(4, 8) =~= spec_u32_to_le_bytes(self.total_blocks));
        assert(t.subrange(8, 12) =~= spec_u32_to_le_bytes(self.inode_bitmap_blocks));
        assert(t.subrange(12, 16) =~= spec_u32_to_le_bytes(self.inode_area_blocks));
        assert(t.subrange(16, 20) =~= spec_u32_to_le_bytes(self.data_bitmap_blocks));
        assert(t.subrange(20, 24) =~= spec_u32_to_le_bytes(self.data_area_blocks));
    }

    /// Decoding reads each field of a super block from its own offset: the
    /// little-endian `u32`s at 0, 4, 8, 12, 16 and 20 give the fields in
    /// declaration order.
    pub proof fn lemma_decoded_offsets(s: Seq<u8>)
        ensures
            SuperBlock::spec_from_bytes(s).magic == spec_u32_from_le_bytes(s.subrange(0, 4)),
            SuperBlock::spec_from_bytes(s).total_blocks == spec_u32_from_le_bytes(s.subrange(4, 8)),
            SuperBlock::spec_from_bytes(s).inode_bitmap_blocks == spec_u32_from_le_bytes(
                s.subrange(8, 12),
            ),
            SuperBlock::spec_from_bytes(s).inode_area_blocks == spec_u32_from_le_bytes(
                s.subrange(12, 16),
            ),
            SuperBlock::spec_from_bytes(s).data_bitmap_blocks == spec_u32_from_le_bytes(
                s.subrange(16, 20),
            ),
            SuperBlock::spec_from_bytes(s).data_area_blocks == spec_u32_from_le_bytes(
                s.subrange(20, 24),
            ),
    {
    }

    /// Sets every field, the magic number among them.
    pub fn initialize(
        &mut self,
        total_blocks: u32,
        inode_bitmap_blocks: u32,
        inode_area_blocks: u32,
        data_bitmap_blocks: u32,
        data_area_blocks: u32,
    )
        ensures
            *final(self) == (SuperBlock {
                magic: EFS_MAGIC,
                total_blocks,
                inode_bitmap_blocks,
                inode_area_blocks,
                data_bitmap_blocks,
                data_area_blocks,
            }),
    {
        *self = SuperBlock {
            magic: EFS_MAGIC,
            total_blocks,
            inode_bitmap_blocks,
            inode_area_blocks,
            data_bitmap_blocks,
            data_area_blocks,
        };
    }

    /// Whether the magic number marks an easy file system.
    pub fn is_valid(&self) -> (b: bool)
        ensures
            b == (self.magic == EFS_MAGIC),
    {
        self.magic == EFS_MAGIC
    }

    /// The bytes of the super block on disk.
    pub fn to_bytes(&self) -> (bytes: Vec<u8>)
        ensures
            bytes@ == self.spec_to_bytes(),
            bytes@.len() == SUPER_BLOCK_SIZE,
            bytes@.subrange(0, 4) == spec_u32_to_le_bytes(self.magic),
            bytes@.subrange(4, 8) == spec_u32_to_le_bytes(self.total_blocks),
            bytes@.subrange(8, 12) == spec_u32_to_le_bytes(self.inode_bitmap_blocks),
            bytes@.subrange(12, 16) == spec_u32_to_le_bytes(self.inode_area_blocks),
            bytes@.subrange(16, 20) == spec_u32_to_le_bytes(self.data_bitmap_blocks),
            bytes@.subrange(20, 24) == spec_u32_to_le_bytes(self.data_area_blocks),
    {
        proof {
            self.lemma_encoded_offsets();
        }
        let mut bytes = u32_to_le_bytes(self.magic);
        let mut b = u32_to_le_bytes(self.total_blocks);
        bytes.append(&mut b);
        let mut b = u32_to_le_bytes(self.inode_bitmap_blocks);
        bytes.append(&mut b);
        let mut b = u32_to_le_bytes(self.inode_area_blocks);
        bytes.append(&mut b);
        let mut b = u32_to_le_bytes(self.data_bitmap_blocks);
        bytes.append(&mut b);
        let mut b = u32_to_le_bytes(self.data_area_blocks);
        bytes.append(&mut b);
        bytes
    }

    /// The super block stored at the start of `bytes`.
    pub fn from_bytes(bytes: &[u8]) -> (sb: SuperBlock)
        requires
            bytes@.len() >= SUPER_BLOCK_SIZE,
        ensures
            sb == SuperBlock::spec_from_bytes(bytes@),
            sb.magic == spec_u32_from_le_bytes(bytes@.subrange(0, 4)),
            sb.total_blocks == spec_u32_from_le_bytes(bytes@.subrange(4, 8)),
            sb.inode_bitmap_blocks == spec_u32_from_le_bytes(bytes@.subrange(8, 12)),
            sb.inode_area_blocks == spec_u32_from_le_bytes(bytes@.subrange(12, 16)),
            sb.data_bitmap_blocks == spec_u32_from_le_bytes(bytes@.subrange(16, 20)),
            sb.data_area_blocks == spec_u32_from_le_bytes(bytes@.subrange(20, 24)),
    {
        proof {
            SuperBlock::lemma_decoded_offsets(bytes@);
        }
        SuperBlock {
            magic: u32_from_le_bytes(slice_range(bytes, 0).as_slice()),
            total_blocks: u32_from_le_bytes(slice_range(bytes, 4).as_slice()),
            inode_bitmap_blocks: u32_from_le_bytes(slice_range(bytes, 8).as_slice()),
            inode_area_blocks: u32_from_le_bytes(slice_range(bytes, 12).as_slice()),
            data_bitmap_blocks: u32_from_le_bytes(slice_range(bytes, 16).as_slice()),
            data_area_blocks: u32_from_le_bytes(slice_range(bytes, 20).as_slice()),
        }
    }
}

/// The four bytes of `bytes` that start at `offset`.
fn slice_range(bytes: &[u8], offset: usize) -> (r: Vec<u8>)
    requires
        offset + 4 <= bytes@.len(),
    ensures
        r@ == bytes@.subrange(offset as int, offset + 4),
{
    let n = bytes.len();
    let mut r: Vec<u8> = Vec::new();
    let mut i: usize = 0;
    while i < 4
        invariant
            i <= 4,
            n == bytes@.len(),
            offset + 4 <= n,
            r@ == bytes@.subrange(offset as int, offset + i),
        decreases 4 - i,
    {
        r.push(bytes[offset + i]);
        i = i + 1;
        assert(r@ =~= bytes@.subrange(offset as int, offset + i));
    }
    r
}

/// The kind of an inode.
#[derive(PartialEq, Eq, Structural, Clone, Copy)]
pub enum DiskInodeType {
    File,
    Directory,
}

/// The byte that stands for an inode's type on disk.
pub open spec fn spec_type_byte(type_: DiskInodeType) -> u8 {
    match type_ {
        DiskInodeType::File => 0u8,
        DiskInodeType::Directory => 1u8,
    }
}

/// The bytes that initializing an inode stores: size, direct and indirect
/// block numbers all zero, then the type. The padding after the type is
/// not written.
pub open spec fn spec_initial_inode_bytes(type_: DiskInodeType) -> Seq<u8> {
    Seq::new(DISK_INODE_TYPE_OFFSET as nat, |_i: int| 0u8).push(spec_type_byte(type_))
}

/// The bytes that initializing an inode of type `type_` stores.
pub fn initial_inode_bytes(type_: DiskInodeType) -> (bytes: Vec<u8>)
    ensures
        bytes@ == spec_initial_inode_bytes(type_),
{
    let mut bytes = zeroed(DISK_INODE_TYPE_OFFSET);
    let tag: u8 = match type_ {
        DiskInodeType::File => 0,
        DiskInodeType::Directory => 1,
    };
    bytes.push(tag);
    assert(bytes@ =~= spec_initial_inode_bytes(type_));
    bytes
}

/// `len` zero bytes.
pub open spec fn zeros(len: nat) -> Seq<u8> {
    Seq::new(len, |_i: int| 0u8)
}

/// A vector of `len` zero bytes.
pub fn zeroed(len: usize) -> (bytes: Vec<u8>)
    ensures
        bytes@ == zeros(len as nat),
{
    let mut bytes: Vec<u8> = Vec::new();
    let mut i: usize = 0;
    while i < len
        invariant
            i <= len,
            bytes@ == zeros(i as nat),
        decreases len - i,
    {
        bytes.push(0u8);
        i = i + 1;
        assert(bytes@ =~= zeros(i as nat));
    }
    bytes
}

} // verus!
