use vstd::prelude::*;
use std::collections::HashMap;

verus! {

/// Size of one block in bytes.
pub const BLOCK_SZ: usize = 512;

/// A device that reads and writes data in units of blocks.
///
/// Implementations describe their contents by `block`: the bytes that a
/// read of a block gives back. Every block holds `BLOCK_SZ` bytes, and a
/// read gives back what the last write of that block wrote.
pub trait BlockDevice {
    /// The bytes currently stored in block `block_id`.
    spec fn block(&self, block_id: usize) -> Seq<u8>;

    /// Every block holds `BLOCK_SZ` bytes.
    proof fn lemma_block_size(&self, block_id: usize)
        ensures
            self.block(block_id).len() == BLOCK_SZ,
    ;

    /// Reads block `block_id` into `buf`.
    fn read_block(&self, block_id: usize, buf: &mut [u8])
        requires
            old(buf)@.len() == BLOCK_SZ,
        ensures
            final(buf)@ == self.block(block_id),
    ;

    /// Writes `buf` to block `block_id`; no other block changes.
    fn write_block(&mut self, block_id: usize, buf: &[u8])
        requires
            buf@.len() == BLOCK_SZ,
        ensures
            forall|id: usize|
                #[trigger] final(self).block(id) == if id == block_id {
                    buf@
                } else {
                    old(self).block(id)
                },
    ;
}

/// A block device kept in memory. Blocks that were never written read as
/// zeros.
pub struct MemoryBlockDevice {
    blocks: HashMap<usize, Vec<u8>>,
}

impl MemoryBlockDevice {
    #[verifier::type_invariant]
    spec fn blocks_have_block_size(&self) -> bool {
        forall|id: usize| #[trigger]
            self.blocks@.contains_key(id) ==> self.blocks@[id]@.len() == BLOCK_SZ
    }

    /// A device whose blocks all read as zeros.
    pub fn new() -> (dev: Self)
        ensures
            forall|id: usize| #[trigger] dev.block(id) == Seq::new(BLOCK_SZ as nat, |_i: int| 0u8),
    {
        MemoryBlockDevice { blocks: HashMap::new() }
    }
}

impl BlockDevice for MemoryBlockDevice {
    closed spec fn block(&self, block_id: usize) -> Seq<u8> {
        if self.blocks@.contains_key(block_id) && self.blocks@[block_id]@.len() == BLOCK_SZ {
            self.blocks@[block_id]@
        } else {
            Seq::new(BLOCK_SZ as nat, |_i: int| 0u8)
        }
    }

    proof fn lemma_block_size(&self, block_id: usize) {
    }

    fn read_block(&self, block_id: usize, buf: &mut [u8]) {
        proof {
            use_type_invariant(self);
        }
        let stored = self.blocks.get(&block_id);
        let mut i: usize = 0;
        while i < buf.len()
            invariant
                buf@.len() == BLOCK_SZ,
                i <= BLOCK_SZ,
                match stored {
                    Some(v) => self.blocks@.contains_key(block_id) && self.blocks@[block_id] == *v,
                    None => !self.blocks@.contains_key(block_id),
                },
                self.blocks@.contains_key(block_id) ==> self.blocks@[block_id]@.len() == BLOCK_SZ,
                forall|k: int| 0 <= k < i ==> buf@[k] == self.block(block_id)[k],
                self.block(block_id).len() == BLOCK_SZ,
            decreases BLOCK_SZ - i,
        {
            match stored {
                Some(v) => {
                    buf[i] = v[i];
                },
                None => {
                    buf[i] = 0;
                },
            }
            i = i + 1;
        }
        assert(buf@ =~= self.block(block_id));
    }

    fn write_block(&mut self, block_id: usize, buf: &[u8]) {
        proof {
            use_type_invariant(&*self);
        }
        let mut v: Vec<u8> = Vec::new();
        let mut i: usize = 0;
        while i < buf.len()
            invariant
                buf@.len() == BLOCK_SZ,
                i <= BLOCK_SZ,
                v@ == buf@.subrange(0, i as int),
            decreases BLOCK_SZ - i,
        {
            v.push(buf[i]);
            i = i + 1;
            assert(v@ =~= buf@.subrange(0, i as int));
        }
        assert(v@ =~= buf@);
        let mut blocks: HashMap<usize, Vec<u8>> = HashMap::new();
        std::mem::swap(&mut blocks, &mut self.blocks);
        blocks.insert(block_id, v);
        self.blocks = blocks;
    }
}

} // verus!
