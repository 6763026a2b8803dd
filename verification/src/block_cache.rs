use vstd::prelude::*;
use std::collections::VecDeque;
use vstd::bytes::{spec_u64_from_le_bytes, spec_u64_to_le_bytes, u64_from_le_bytes, u64_to_le_bytes};
use crate::block_dev::{BlockDevice, BLOCK_SZ};

verus! {

/// `s` with the bytes from `offset` on replaced by `bytes`.
pub open spec fn splice(s: Seq<u8>, offset: int, bytes: Seq<u8>) -> Seq<u8> {
    s.subrange(0, offset) + bytes + s.subrange(offset + bytes.len(), s.len() as int)
}

/// The little-endian `u64` stored at `offset` in `s`.
pub open spec fn word_at(s: Seq<u8>, offset: int) -> u64 {
    spec_u64_from_le_bytes(s.subrange(offset, offset + 8))
}

/// `s` with the little-endian encoding of `w` stored at `offset`.
pub open spec fn with_word(s: Seq<u8>, offset: int, w: u64) -> Seq<u8> {
    splice(s, offset, spec_u64_to_le_bytes(w))
}

/// Reading back bytes written at an offset gives those bytes; bytes
/// elsewhere are as they were.
pub proof fn lemma_read_after_write(s: Seq<u8>, offset: int, bytes: Seq<u8>)
    requires
        0 <= offset,
        offset + bytes.len() <= s.len(),
    ensures
        splice(s, offset, bytes).len() == s.len(),
        splice(s, offset, bytes).subrange(offset, offset + bytes.len()) == bytes,
        forall|i: int|
            0 <= i < s.len() && !(offset <= i < offset + bytes.len()) ==> #[trigger] splice(
                s,
                offset,
                bytes,
            )[i] == s[i],
{
    assert(splice(s, offset, bytes).subrange(offset, offset + bytes.len()) =~= bytes);
}

/// Reading back a stored word gives the word; words elsewhere are untouched.
pub proof fn lemma_word_at_with_word(s: Seq<u8>, offset: int, w: u64, other: int)
    requires
        0 <= offset,
        offset + 8 <= s.len(),
        0 <= other,
        other + 8 <= s.len(),
        other == offset || other + 8 <= offset || offset + 8 <= other,
    ensures
        with_word(s, offset, w).len() == s.len(),
        word_at(with_word(s, offset, w), other) == if other == offset {
            w
        } else {
            word_at(s, other)
        },
{
    vstd::bytes::lemma_auto_spec_u64_to_from_le_bytes();
    let t = with_word(s, offset, w);
    let b = spec_u64_to_le_bytes(w);
    assert(b.len() == 8);
    if other == offset {
        assert(t.subrange(other, other + 8) =~= b);
    } else {
        assert(t.subrange(other, other + 8) =~= s.subrange(other, other + 8));
    }
}

/// Storing a word twice at one place keeps the second.
pub proof fn lemma_with_word_twice(s: Seq<u8>, offset: int, w1: u64, w2: u64)
    requires
        0 <= offset,
        offset + 8 <= s.len(),
    ensures
        with_word(with_word(s, offset, w1), offset, w2) == with_word(s, offset, w2),
{
    vstd::bytes::lemma_auto_spec_u64_to_from_le_bytes();
    assert(spec_u64_to_le_bytes(w1).len() == 8);
    assert(spec_u64_to_le_bytes(w2).len() == 8);
    assert(with_word(with_word(s, offset, w1), offset, w2) =~= with_word(s, offset, w2));
}

/// Storing the word that is already there changes nothing.
pub proof fn lemma_with_word_same(s: Seq<u8>, offset: int)
    requires
        0 <= offset,
        offset + 8 <= s.len(),
    ensures
        with_word(s, offset, word_at(s, offset)) == s,
{
    vstd::bytes::lemma_auto_spec_u64_to_from_le_bytes();
    let sub = s.subrange(offset, offset + 8);
    assert(spec_u64_to_le_bytes(spec_u64_from_le_bytes(sub)) == sub);
    assert(with_word(s, offset, word_at(s, offset)) =~= s);
}

/// A block held in memory: its bytes, its number on the device, and whether
/// it was changed since it was last written back.
///
/// A cache entry does not write itself back when it is dropped: call `sync`
/// first, or the changes are lost.
pub struct BlockCache {
    cache: [u8; BLOCK_SZ],
    block_id: usize,
    modified: bool,
}

impl BlockCache {
    /// The number of the cached block on its device.
    pub closed spec fn id(&self) -> usize {
        self.block_id
    }

    /// The cached bytes.
    pub closed spec fn data(&self) -> Seq<u8> {
        self.cache@
    }

    /// Whether the cached bytes were changed since they were last written back.
    pub closed spec fn is_modified(&self) -> bool {
        self.modified
    }

    /// Reads block `block_id` of `block_device` into a new cache entry.
    pub fn new<D: BlockDevice>(block_id: usize, block_device: &D) -> (c: Self)
        ensures
            c.id() == block_id,
            c.data() == block_device.block(block_id),
            c.data().len() == BLOCK_SZ,
            !c.is_modified(),
    {
        let mut cache = [0u8; BLOCK_SZ];
        block_device.read_block(block_id, &mut cache);
        BlockCache { cache, block_id, modified: false }
    }

    /// The `len` bytes that start at `offset`.
    pub fn read(&self, offset: usize, len: usize) -> (bytes: Vec<u8>)
        requires
            offset + len <= BLOCK_SZ,
        ensures
            bytes@ == self.data().subrange(offset as int, offset + len),
    {
        let mut bytes: Vec<u8> = Vec::new();
        let mut i: usize = 0;
        while i < len
            invariant
                i <= len,
                offset + len <= BLOCK_SZ,
                bytes@ == self.data().subrange(offset as int, offset + i),
            decreases len - i,
        {
            bytes.push(self.cache[offset + i]);
            i = i + 1;
            assert(bytes@ =~= self.data().subrange(offset as int, offset + i));
        }
        bytes
    }

    /// The little-endian `u64` stored at `offset`.
    pub fn read_u64(&self, offset: usize) -> (w: u64)
        requires
            offset + 8 <= BLOCK_SZ,
        ensures
            w == word_at(self.data(), offset as int),
    {
        let bytes = self.read(offset, 8);
        u64_from_le_bytes(bytes.as_slice())
    }

    /// Overwrites the bytes from `offset` on with `bytes` and marks the
    /// block as modified.
    pub fn modify(&mut self, offset: usize, bytes: &[u8])
        requires
            offset + bytes@.len() <= BLOCK_SZ,
        ensures
            final(self).id() == old(self).id(),
            final(self).is_modified(),
            final(self).data() == splice(old(self).data(), offset as int, bytes@),
    {
        let ghost old_data = self.cache@;
        self.modified = true;
        let mut i: usize = 0;
        while i < bytes.len()
            invariant
                i <= bytes@.len(),
                offset + bytes@.len() <= BLOCK_SZ,
                old_data.len() == BLOCK_SZ,
                self.cache@.len() == BLOCK_SZ,
                self.block_id == old(self).block_id,
                self.modified,
                forall|k: int|
                    0 <= k < BLOCK_SZ ==> #[trigger] self.cache@[k] == if offset <= k < offset + i {
                        bytes@[k - offset]
                    } else {
                        old_data[k]
                    },
            decreases bytes@.len() - i,
        {
            self.cache[offset + i] = bytes[i];
            i = i + 1;
        }
        assert(self.cache@ =~= splice(old_data, offset as int, bytes@));
    }

    /// Stores `w` little-endian at `offset` and marks the block as modified.
    pub fn modify_u64(&mut self, offset: usize, w: u64)
        requires
            offset + 8 <= BLOCK_SZ,
        ensures
            final(self).id() == old(self).id(),
            final(self).is_modified(),
            final(self).data() == with_word(old(self).data(), offset as int, w),
    {
        let bytes = u64_to_le_bytes(w);
        self.modify(offset, bytes.as_slice());
    }

    /// Writes the block back to `block_device` if it was modified.
    pub fn sync<D: BlockDevice>(&mut self, block_device: &mut D)
        ensures
            final(self).id() == old(self).id(),
            final(self).data() == old(self).data(),
            !final(self).is_modified(),
            forall|id: usize|
                #[trigger] final(block_device).block(id) == if old(self).is_modified() && id
                    == old(self).id() {
                    old(self).data()
                } else {
                    old(block_device).block(id)
                },
    {
        if self.modified {
            self.modified = false;
            block_device.write_block(self.block_id, &self.cache);
        }
    }
}

/// How many blocks a `BlockCacheManager` holds at most.
pub const BLOCK_CACHE_SIZE: usize = 16;

spec fn ids_unique(q: Seq<BlockCache>) -> bool {
    forall|i: int, j: int|
        #![trigger q[i], q[j]]
        0 <= i < q.len() && 0 <= j < q.len() && i != j ==> q[i].block_id != q[j].block_id
}

spec fn has_id(q: Seq<BlockCache>, id: usize) -> bool {
    exists|i: int| 0 <= i < q.len() && #[trigger] q[i].block_id == id
}

spec fn slot_of(q: Seq<BlockCache>, id: usize) -> int {
    choose|i: int| 0 <= i < q.len() && #[trigger] q[i].block_id == id
}

spec fn seq_logical<D: BlockDevice>(q: Seq<BlockCache>, dev: D, id: usize) -> Seq<u8> {
    if has_id(q, id) {
        q[slot_of(q, id)].cache@
    } else {
        dev.block(id)
    }
}

spec fn seq_dirty(q: Seq<BlockCache>, id: usize) -> bool {
    has_id(q, id) && q[slot_of(q, id)].modified
}

spec fn seq_coherent<D: BlockDevice>(q: Seq<BlockCache>, dev: D) -> bool {
    forall|i: int|
        0 <= i < q.len() && !q[i].modified ==> #[trigger] q[i].cache@ == dev.block(q[i].block_id)
}

proof fn lemma_slot(q: Seq<BlockCache>, i: int)
    requires
        ids_unique(q),
        0 <= i < q.len(),
    ensures
        has_id(q, q[i].block_id),
        slot_of(q, q[i].block_id) == i,
{
    let id = q[i].block_id;
    assert(0 <= i < q.len() && q[i].block_id == id);
    let j = slot_of(q, id);
    assert(0 <= j < q.len() && q[j].block_id == id);
}

/// Pushing a clean entry for an uncached block leaves the logical view and
/// the modified blocks as they were.
proof fn lemma_push_clean<D: BlockDevice>(q: Seq<BlockCache>, c: BlockCache, dev: D)
    requires
        ids_unique(q),
        seq_coherent(q, dev),
        !has_id(q, c.block_id),
        !c.modified,
        c.cache@ == dev.block(c.block_id),
    ensures
        ids_unique(q.push(c)),
        seq_coherent(q.push(c), dev),
        forall|id: usize| #[trigger] seq_logical(q.push(c), dev, id) == seq_logical(q, dev, id),
        forall|id: usize| #[trigger] seq_dirty(q.push(c), id) == seq_dirty(q, id),
{
    let q2 = q.push(c);
    assert forall|i: int, j: int|
        #![trigger q2[i], q2[j]]
        0 <= i < q2.len() && 0 <= j < q2.len() && i != j implies q2[i].block_id
        != q2[j].block_id by {
        if i < q.len() && j < q.len() {
            assert(q2[i] == q[i] && q2[j] == q[j]);
        } else if i < q.len() {
            assert(q2[i] == q[i] && q2[j] == c);
            assert(q[i].block_id != c.block_id);
        } else {
            assert(q2[j] == q[j] && q2[i] == c);
            assert(q[j].block_id != c.block_id);
        }
    }
    assert forall|id: usize|
        #![trigger seq_logical(q2, dev, id)]
        #![trigger seq_dirty(q2, id)]
        seq_logical(q2, dev, id) == seq_logical(q, dev, id) && seq_dirty(q2, id) == seq_dirty(
            q,
            id,
        ) by {
        if id == c.block_id {
            lemma_slot(q2, q.len() as int);
        } else if has_id(q, id) {
            let j = slot_of(q, id);
            assert(q2[j] == q[j]);
            lemma_slot(q2, j);
        } else if has_id(q2, id) {
            let k = slot_of(q2, id);
            assert(q2[k] == q[k]);
            assert(has_id(q, id));
        }
    }
}

/// Dropping the front entry after writing it back (when it was modified)
/// leaves the logical view as it was; the dropped block is no longer
/// modified.
proof fn lemma_drop_front<D: BlockDevice>(q: Seq<BlockCache>, dev0: D, dev1: D)
    requires
        ids_unique(q),
        seq_coherent(q, dev0),
        q.len() > 0,
        forall|id: usize|
            #[trigger] dev1.block(id) == if q[0].modified && id == q[0].block_id {
                q[0].cache@
            } else {
                dev0.block(id)
            },
    ensures
        ids_unique(q.drop_first()),
        seq_coherent(q.drop_first(), dev1),
        forall|id: usize| #[trigger]
            seq_logical(q.drop_first(), dev1, id) == seq_logical(q, dev0, id),
        forall|id: usize| #[trigger]
            seq_dirty(q.drop_first(), id) == (seq_dirty(q, id) && id != q[0].block_id),
{
    let q1 = q.drop_first();
    assert forall|i: int, j: int|
        #![trigger q1[i], q1[j]]
        0 <= i < q1.len() && 0 <= j < q1.len() && i != j implies q1[i].block_id
        != q1[j].block_id by {
        assert(q1[i] == q[i + 1] && q1[j] == q[j + 1]);
    }
    assert forall|i: int| 0 <= i < q1.len() && !q1[i].modified implies #[trigger] q1[i].cache@
        == dev1.block(q1[i].block_id) by {
        assert(q1[i] == q[i + 1]);
        assert(q[0].block_id != q[i + 1].block_id);
    }
    assert forall|id: usize|
        #![trigger seq_logical(q1, dev1, id)]
        #![trigger seq_dirty(q1, id)]
        seq_logical(q1, dev1, id) == seq_logical(q, dev0, id) && seq_dirty(q1, id) == (seq_dirty(
            q,
            id,
        ) && id != q[0].block_id) by {
        if has_id(q1, id) {
            let k = slot_of(q1, id);
            assert(q1[k] == q[k + 1]);
            assert(q[0].block_id != q[k + 1].block_id);
            lemma_slot(q, k + 1);
        } else if has_id(q, id) {
            let j = slot_of(q, id);
            if j > 0 {
                assert(q1[j - 1] == q[j]);
                assert(has_id(q1, id));
            }
            lemma_slot(q, 0);
        }
    }
}

/// Replacing one entry by a modified entry of the same block changes the
/// logical view of that block only, and makes that block modified.
proof fn lemma_update_entry<D: BlockDevice>(q: Seq<BlockCache>, i: int, c: BlockCache, dev: D)
    requires
        ids_unique(q),
        seq_coherent(q, dev),
        0 <= i < q.len(),
        c.block_id == q[i].block_id,
        c.modified,
    ensures
        ids_unique(q.update(i, c)),
        seq_coherent(q.update(i, c), dev),
        forall|id: usize| #[trigger]
            seq_logical(q.update(i, c), dev, id) == if id == c.block_id {
                c.cache@
            } else {
                seq_logical(q, dev, id)
            },
        forall|id: usize| #[trigger]
            seq_dirty(q.update(i, c), id) == (id == c.block_id || seq_dirty(q, id)),
        forall|id: usize| #[trigger] has_id(q.update(i, c), id) == has_id(q, id),
{
    let q2 = q.update(i, c);
    assert forall|a: int, b: int|
        #![trigger q2[a], q2[b]]
        0 <= a < q2.len() && 0 <= b < q2.len() && a != b implies q2[a].block_id
        != q2[b].block_id by {
        assert(q[a].block_id != q[b].block_id);
    }
    assert forall|id: usize|
        #![trigger seq_logical(q2, dev, id)]
        #![trigger seq_dirty(q2, id)]
        #![trigger has_id(q2, id)]
        seq_logical(q2, dev, id) == (if id == c.block_id {
            c.cache@
        } else {
            seq_logical(q, dev, id)
        }) && seq_dirty(q2, id) == (id == c.block_id || seq_dirty(q, id)) && has_id(q2, id)
            == has_id(q, id) by {
        if id == c.block_id {
            lemma_slot(q2, i);
            lemma_slot(q, i);
        } else if has_id(q, id) {
            let j = slot_of(q, id);
            assert(q2[j] == q[j]);
            lemma_slot(q2, j);
        } else if has_id(q2, id) {
            let k = slot_of(q2, id);
            assert(q2[k] == q[k]);
            assert(has_id(q, id));
        }
    }
}

/// The blocks of one device held in memory, oldest first.
///
/// The manager owns its device and stands between it and its users: every
/// read and write goes to a cached copy of the block, and a modified copy
/// reaches the device when it is written back. The manager's logical view
/// of a block is its cached copy where there is one, and the device's block
/// otherwise.
///
/// Cached blocks are handed out by position and never held outside the
/// manager, so every cached block can be evicted and a lookup always finds
/// room: the oldest block is the one evicted.
///
/// One manager serves a device for as long as the device is in use, and
/// file systems on the device work through it. It does not write its blocks
/// back when it is dropped: call `sync_all`, or take the device back with
/// `into_block_device`, which writes everything back.
pub struct BlockCacheManager<D: BlockDevice> {
    queue: VecDeque<BlockCache>,
    block_device: D,
}

impl<D: BlockDevice> BlockCacheManager<D> {
    /// The device, as it holds its blocks now.
    pub closed spec fn device(&self) -> D {
        self.block_device
    }

    /// The numbers of the cached blocks, oldest first.
    pub closed spec fn cached_ids(&self) -> Seq<usize> {
        self.queue@.map_values(|c: BlockCache| c.block_id)
    }

    /// At most `BLOCK_CACHE_SIZE` blocks are cached, each once, and every
    /// cached block that was not modified holds what the device holds.
    pub closed spec fn wf(&self) -> bool {
        &&& self.queue@.len() <= BLOCK_CACHE_SIZE
        &&& ids_unique(self.queue@)
        &&& seq_coherent(self.queue@, self.block_device)
    }

    /// Whether block `id` is cached.
    pub closed spec fn is_cached(&self, id: usize) -> bool {
        has_id(self.queue@, id)
    }

    /// Whether block `id` is cached and was modified since it was last
    /// written back.
    pub closed spec fn is_dirty(&self, id: usize) -> bool {
        seq_dirty(self.queue@, id)
    }

    /// Whether the oldest cached block was modified since it was written back.
    pub closed spec fn front_is_dirty(&self) -> bool {
        self.queue@.len() > 0 && self.queue@[0].modified
    }

    /// Whether no cached block waits to be written back.
    pub closed spec fn all_clean(&self) -> bool {
        forall|i: int| 0 <= i < self.queue@.len() ==> !(#[trigger] self.queue@[i]).modified
    }

    /// The bytes of block `id` as the users of the manager see them.
    pub closed spec fn logical(&self, id: usize) -> Seq<u8> {
        seq_logical(self.queue@, self.block_device, id)
    }

    /// The cached block numbers after block `block_id` is looked up: as they
    /// were on a hit; on a miss, the block is added as the newest, after the
    /// oldest left if the cache was full.
    pub open spec fn ids_after_lookup(&self, block_id: usize) -> Seq<usize> {
        if self.is_cached(block_id) {
            self.cached_ids()
        } else if self.cached_ids().len() == BLOCK_CACHE_SIZE {
            self.cached_ids().drop_first().push(block_id)
        } else {
            self.cached_ids().push(block_id)
        }
    }

    /// Block `id` of the device after block `block_id` is looked up: a miss
    /// in a full cache writes the oldest block back if it was modified;
    /// nothing else reaches the device.
    pub open spec fn device_after_lookup(&self, block_id: usize, id: usize) -> Seq<u8> {
        if !self.is_cached(block_id) && self.cached_ids().len() == BLOCK_CACHE_SIZE
            && self.front_is_dirty() && id == self.cached_ids()[0] {
            self.logical(id)
        } else {
            self.device().block(id)
        }
    }

    /// How looking up block `block_id` changes the cache and the device:
    /// which blocks stay cached, which was written back, and which cached
    /// blocks remain modified.
    pub open spec fn lookup_effect(&self, block_id: usize, after: Self) -> bool {
        &&& after.cached_ids() == self.ids_after_lookup(block_id)
        &&& forall|id: usize| #[trigger]
            after.device().block(id) == self.device_after_lookup(block_id, id)
        &&& forall|id: usize| #[trigger]
            after.is_dirty(id) == (self.is_dirty(id) && after.is_cached(id))
    }

    /// What the closed views of the cache mean: a block is cached when its
    /// number is among the cached ones; only cached blocks are modified; the
    /// oldest block is the first cached one; the cache is clean when no block
    /// is modified; a block that is not cached is seen as the device holds it.
    pub proof fn lemma_views(&self)
        requires
            self.wf(),
        ensures
            forall|id: usize| #[trigger] self.is_cached(id) == self.cached_ids().contains(id),
            forall|id: usize| #[trigger] self.is_dirty(id) ==> self.is_cached(id),
            self.front_is_dirty() == (self.cached_ids().len() > 0 && self.is_dirty(
                self.cached_ids()[0],
            )),
            self.all_clean() == (forall|id: usize| !#[trigger] self.is_dirty(id)),
            forall|id: usize|
                !self.is_cached(id) ==> #[trigger] self.logical(id) == self.device().block(id),
    {
        let q = self.queue@;
        assert forall|id: usize| #[trigger] self.is_cached(id) == self.cached_ids().contains(id) by {
            if has_id(q, id) {
                let k = slot_of(q, id);
                assert(self.cached_ids()[k] == id);
            }
            if self.cached_ids().contains(id) {
                let k = choose|k: int| 0 <= k < self.cached_ids().len() && self.cached_ids()[k] == id;
                assert(q[k].block_id == id);
            }
        }
        if q.len() > 0 {
            lemma_slot(q, 0);
        }
        if self.all_clean() {
            assert forall|id: usize| !#[trigger] self.is_dirty(id) by {
                if has_id(q, id) {
                    let k = slot_of(q, id);
                    assert(!q[k].modified);
                }
            }
        }
        if forall|id: usize| !#[trigger] self.is_dirty(id) {
            assert forall|i: int| 0 <= i < q.len() implies !(#[trigger] q[i]).modified by {
                lemma_slot(q, i);
                assert(!self.is_dirty(q[i].block_id));
            }
        }
    }

    /// Every block, cached or not, holds `BLOCK_SZ` bytes.
    pub proof fn lemma_logical_len(&self, id: usize)
        requires
            self.wf(),
        ensures
            self.logical(id).len() == BLOCK_SZ,
    {
        self.block_device.lemma_block_size(id);
    }

    /// An empty cache over `block_device`.
    pub fn new(block_device: D) -> (m: Self)
        ensures
            m.wf(),
            m.device() == block_device,
            m.cached_ids() == Seq::<usize>::empty(),
            forall|id: usize| !#[trigger] m.is_cached(id),
            forall|id: usize| #[trigger] m.logical(id) == block_device.block(id),
    {
        BlockCacheManager { queue: VecDeque::new(), block_device }
    }

    /// The device.
    pub fn block_device(&self) -> (dev: &D)
        ensures
            *dev == self.device(),
    {
        &self.block_device
    }

    /// Writes every modified block back and gives the device back.
    pub fn into_block_device(self) -> (dev: D)
        requires
            self.wf(),
        ensures
            forall|id: usize| #[trigger] dev.block(id) == self.logical(id),
    {
        let mut manager = self;
        manager.sync_all();
        assert forall|id: usize| #[trigger] manager.block_device.block(id) == self.logical(id) by {
            assert(manager.device().block(id) == self.logical(id));
        }
        manager.block_device
    }

    /// Makes block `block_id` cached and returns its position in the queue.
    ///
    /// On a miss with a full cache, the oldest block leaves it first and is
    /// written back if it was modified; the block is then read from the
    /// device and becomes the newest. What the users see of any block does
    /// not change.
    pub fn get_block_cache(&mut self, block_id: usize) -> (idx: usize)
        requires
            old(self).wf(),
        ensures
            final(self).wf(),
            idx < final(self).cached_ids().len(),
            final(self).cached_ids()[idx as int] == block_id,
            forall|id: usize| #[trigger] final(self).logical(id) == old(self).logical(id),
            old(self).is_cached(block_id) ==> *final(self) == *old(self),
            old(self).cached_ids().len() < BLOCK_CACHE_SIZE ==> final(self).device() == old(
                self,
            ).device(),
            old(self).lookup_effect(block_id, *final(self)),
    {
        let mut i: usize = 0;
        while i < self.queue.len()
            invariant
                *self == *old(self),
                old(self).wf(),
                i <= self.queue@.len(),
                forall|j: int| 0 <= j < i ==> (#[trigger] self.queue@[j]).block_id != block_id,
            decreases self.queue@.len() - i,
        {
            if self.queue[i].block_id == block_id {
                proof {
                    lemma_slot(self.queue@, i as int);
                }
                return i;
            }
            i = i + 1;
        }
        let ghost q0 = self.queue@;
        let ghost dev0 = self.block_device;
        assert(!has_id(q0, block_id));
        if self.queue.len() == BLOCK_CACHE_SIZE {
            let mut victim = self.queue.pop_front().unwrap();
            victim.sync(&mut self.block_device);
            proof {
                lemma_slot(q0, 0);
                assert(self.queue@ =~= q0.drop_first());
                lemma_drop_front(q0, dev0, self.block_device);
            }
        }
        let ghost q1 = self.queue@;
        let ghost dev1 = self.block_device;
        let cache = BlockCache::new(block_id, &self.block_device);
        proof {
            if has_id(q1, block_id) {
                let k = slot_of(q1, block_id);
                assert(q1[k] == q0[k + 1]);
                assert(has_id(q0, block_id));
            }
            lemma_push_clean(q1, cache, dev1);
        }
        self.queue.push_back(cache);
        proof {
            assert(self.queue@ == q1.push(cache));
            assert(self.cached_ids() =~= old(self).ids_after_lookup(block_id));
            assert forall|id: usize| #[trigger]
                self.block_device.block(id) == old(self).device_after_lookup(block_id, id) by {
                if q0.len() == BLOCK_CACHE_SIZE && q0[0].modified && id == q0[0].block_id {
                    lemma_slot(q0, 0);
                }
            }
            assert forall|id: usize| #[trigger]
                self.is_dirty(id) == (old(self).is_dirty(id) && self.is_cached(id)) by {
                if q0.len() == BLOCK_CACHE_SIZE && id == q0[0].block_id {
                    if has_id(self.queue@, id) {
                        let k = slot_of(self.queue@, id);
                        if k < q1.len() {
                            assert(q1[k] == q0[k + 1]);
                            lemma_slot(q0, 0);
                        }
                    }
                }
            }
        }
        self.queue.len() - 1
    }

    /// The `len` bytes of block `block_id` that start at `offset`, read
    /// through the cache.
    pub fn read(&mut self, block_id: usize, offset: usize, len: usize) -> (bytes: Vec<u8>)
        requires
            old(self).wf(),
            offset + len <= BLOCK_SZ,
        ensures
            final(self).wf(),
            old(self).logical(block_id).len() == BLOCK_SZ,
            bytes@ == old(self).logical(block_id).subrange(offset as int, offset + len),
            old(self).cached_ids().len() < BLOCK_CACHE_SIZE ==> final(self).device() == old(
                self,
            ).device(),
            old(self).lookup_effect(block_id, *final(self)),
            forall|id: usize| #[trigger] final(self).logical(id) == old(self).logical(id),
    {
        let idx = self.get_block_cache(block_id);
        proof {
            assert(self.queue@[idx as int].block_id == self.cached_ids()[idx as int]);
            lemma_slot(self.queue@, idx as int);
            assert(self.logical(block_id) == old(self).logical(block_id));
        }
        self.queue[idx].read(offset, len)
    }

    /// The little-endian `u64` at `offset` of block `block_id`, read through
    /// the cache.
    pub fn read_u64(&mut self, block_id: usize, offset: usize) -> (w: u64)
        requires
            old(self).wf(),
            offset + 8 <= BLOCK_SZ,
        ensures
            final(self).wf(),
            old(self).logical(block_id).len() == BLOCK_SZ,
            w == word_at(old(self).logical(block_id), offset as int),
            old(self).lookup_effect(block_id, *final(self)),
            forall|id: usize| #[trigger] final(self).logical(id) == old(self).logical(id),
    {
        let bytes = self.read(block_id, offset, 8);
        u64_from_le_bytes(bytes.as_slice())
    }

    /// Overwrites the bytes of block `block_id` from `offset` on with
    /// `bytes`, in the cache; the block becomes modified.
    pub fn modify(&mut self, block_id: usize, offset: usize, bytes: &[u8])
        requires
            old(self).wf(),
            offset + bytes@.len() <= BLOCK_SZ,
        ensures
            final(self).wf(),
            old(self).logical(block_id).len() == BLOCK_SZ,
            final(self).cached_ids() == old(self).ids_after_lookup(block_id),
            forall|id: usize| #[trigger]
                final(self).device().block(id) == old(self).device_after_lookup(block_id, id),
            forall|id: usize| #[trigger]
                final(self).is_dirty(id) == (id == block_id || (old(self).is_dirty(id)
                    && final(self).is_cached(id))),
            forall|id: usize| #[trigger]
                final(self).logical(id) == if id == block_id {
                    splice(old(self).logical(block_id), offset as int, bytes@)
                } else {
                    old(self).logical(id)
                },
    {
        let idx = self.get_block_cache(block_id);
        let ghost mid = *self;
        let ghost q = self.queue@;
        proof {
            assert(q[idx as int].block_id == self.cached_ids()[idx as int]);
            lemma_slot(q, idx as int);
            assert(self.logical(block_id) == old(self).logical(block_id));
        }
        let mut entry = self.queue.remove(idx).unwrap();
        entry.modify(offset, bytes);
        self.queue.insert(idx, entry);
        proof {
            assert(self.queue@ =~= q.update(idx as int, entry));
            lemma_update_entry(q, idx as int, entry, self.block_device);
            assert(self.cached_ids() =~= mid.cached_ids());
            assert forall|id: usize| #[trigger]
                self.device().block(id) == old(self).device_after_lookup(block_id, id) by {
                assert(mid.device().block(id) == old(self).device_after_lookup(block_id, id));
            }
            assert forall|id: usize| #[trigger]
                self.is_dirty(id) == (id == block_id || (old(self).is_dirty(id)
                    && self.is_cached(id))) by {
                assert(mid.is_dirty(id) == (old(self).is_dirty(id) && mid.is_cached(id)));
            }
            assert forall|id: usize| id != block_id implies #[trigger] self.logical(id)
                == old(self).logical(id) by {
                assert(mid.logical(id) == old(self).logical(id));
            }
        }
    }

    /// Stores `w` little-endian at `offset` of block `block_id`, in the
    /// cache; the block becomes modified.
    pub fn modify_u64(&mut self, block_id: usize, offset: usize, w: u64)
        requires
            old(self).wf(),
            offset + 8 <= BLOCK_SZ,
        ensures
            final(self).wf(),
            old(self).logical(block_id).len() == BLOCK_SZ,
            final(self).cached_ids() == old(self).ids_after_lookup(block_id),
            forall|id: usize| #[trigger]
                final(self).device().block(id) == old(self).device_after_lookup(block_id, id),
            forall|id: usize| #[trigger]
                final(self).is_dirty(id) == (id == block_id || (old(self).is_dirty(id)
                    && final(self).is_cached(id))),
            forall|id: usize| #[trigger]
                final(self).logical(id) == if id == block_id {
                    with_word(old(self).logical(block_id), offset as int, w)
                } else {
                    old(self).logical(id)
                },
    {
        let bytes = u64_to_le_bytes(w);
        self.modify(block_id, offset, bytes.as_slice());
    }

    /// Writes every modified block back to the device.
    pub fn sync_all(&mut self)
        requires
            old(self).wf(),
        ensures
            final(self).wf(),
            final(self).all_clean(),
            final(self).cached_ids() == old(self).cached_ids(),
            forall|id: usize| #[trigger] final(self).logical(id) == old(self).logical(id),
            forall|id: usize| #[trigger] final(self).device().block(id) == old(self).logical(id),
    {
        let ghost q0 = self.queue@;
        let ghost dev0 = self.block_device;
        let mut i: usize = 0;
        while i < self.queue.len()
            invariant
                i <= self.queue@.len(),
                self.queue@.len() == q0.len(),
                ids_unique(q0),
                seq_coherent(q0, dev0),
                q0.len() <= BLOCK_CACHE_SIZE,
                forall|j: int|
                    0 <= j < q0.len() ==> (#[trigger] self.queue@[j]).block_id == q0[j].block_id
                        && self.queue@[j].cache@ == q0[j].cache@,
                forall|j: int| 0 <= j < i ==> !(#[trigger] self.queue@[j]).modified,
                forall|j: int|
                    i <= j < q0.len() ==> (#[trigger] self.queue@[j]).modified == q0[j].modified,
                forall|id: usize| #[trigger]
                    self.block_device.block(id) == if has_id(q0, id) && slot_of(q0, id) < i {
                        q0[slot_of(q0, id)].cache@
                    } else {
                        dev0.block(id)
                    },
            decreases q0.len() - i,
        {
            let ghost qb = self.queue@;
            let mut entry = self.queue.remove(i).unwrap();
            entry.sync(&mut self.block_device);
            self.queue.insert(i, entry);
            proof {
                assert(self.queue@ =~= qb.update(i as int, entry));
                lemma_slot(q0, i as int);
                assert forall|id: usize| #[trigger]
                    self.block_device.block(id) == if has_id(q0, id) && slot_of(q0, id) < i + 1 {
                        q0[slot_of(q0, id)].cache@
                    } else {
                        dev0.block(id)
                    } by {
                    if id == q0[i as int].block_id {
                        if !qb[i as int].modified {
                            assert(!q0[i as int].modified);
                        }
                    }
                }
                assert forall|j: int| 0 <= j < q0.len() implies (#[trigger] self.queue@[j]).block_id
                    == q0[j].block_id && self.queue@[j].cache@ == q0[j].cache@ by {
                    assert(qb[j].block_id == q0[j].block_id);
                }
            }
            i = i + 1;
        }
        proof {
            assert forall|id: usize| #[trigger]
                self.block_device.block(id) == old(self).logical(id) by {
                if has_id(q0, id) {
                    let k = slot_of(q0, id);
                    assert(0 <= k < q0.len() && q0[k].block_id == id);
                }
            }
            assert forall|j: int| 0 <= j < self.queue@.len() && !self.queue@[j].modified implies
                #[trigger] self.queue@[j].cache@ == self.block_device.block(self.queue@[j].block_id) by {
                lemma_slot(q0, j);
            }
            assert forall|a: int, b: int|
                #![trigger self.queue@[a], self.queue@[b]]
                0 <= a < self.queue@.len() && 0 <= b < self.queue@.len() && a != b implies
                self.queue@[a].block_id != self.queue@[b].block_id by {
                assert(q0[a].block_id != q0[b].block_id);
            }
            assert forall|id: usize| #[trigger] self.logical(id) == old(self).logical(id) by {
                if has_id(q0, id) {
                    let k = slot_of(q0, id);
                    assert(0 <= k < q0.len() && q0[k].block_id == id);
                    assert(self.queue@[k].block_id == id);
                    lemma_slot(self.queue@, k);
                } else if has_id(self.queue@, id) {
                    let k = slot_of(self.queue@, id);
                    assert(q0[k].block_id == id);
                }
            }
            assert(self.cached_ids() =~= old(self).cached_ids());
        }
    }
}

/// Makes block `block_id` cached in `manager` and returns its position in
/// the queue.
pub fn get_block_cache<D: BlockDevice>(manager: &mut BlockCacheManager<D>, block_id: usize) -> (idx: usize)
    requires
        old(manager).wf(),
    ensures
        final(manager).wf(),
        idx < final(manager).cached_ids().len(),
        final(manager).cached_ids()[idx as int] == block_id,
        forall|id: usize| #[trigger] final(manager).logical(id) == old(manager).logical(id),
        old(manager).is_cached(block_id) ==> *final(manager) == *old(manager),
        old(manager).lookup_effect(block_id, *final(manager)),
{
    manager.get_block_cache(block_id)
}

/// Writes every modified block of `manager` back to its device.
pub fn block_cache_sync_all<D: BlockDevice>(manager: &mut BlockCacheManager<D>)
    requires
        old(manager).wf(),
    ensures
        final(manager).wf(),
        final(manager).all_clean(),
        final(manager).cached_ids() == old(manager).cached_ids(),
        forall|id: usize| #[trigger] final(manager).logical(id) == old(manager).logical(id),
        forall|id: usize| #[trigger] final(manager).device().block(id) == old(manager).logical(id),
{
    manager.sync_all()
}

} // verus!
