use vstd::prelude::*;
use vstd::arithmetic::div_mod::lemma_fundamental_div_mod_converse;
use crate::block_cache::{
    splice, BLOCK_CACHE_SIZE,
    lemma_with_word_same, lemma_with_word_twice, lemma_word_at_with_word, word_at, with_word,
    BlockCacheManager,
};
use crate::block_dev::{BlockDevice, BLOCK_SZ};
use crate::layout::zeros;
use vstd::bytes::spec_u64_to_le_bytes;

verus! {

/// Number of bits in a block.
pub const BLOCK_BITS: usize = 4096;

/// Number of 64-bit words in a bitmap block.
pub const WORDS_PER_BLOCK: usize = 64;

/// `s` with bit `bit` (counted from the start of the block, words stored
/// little-endian) set.
pub open spec fn set_bit_in(s: Seq<u8>, bit: int) -> Seq<u8> {
    let offset = (bit / 64) * 8;
    with_word(s, offset, word_at(s, offset) | (1u64 << ((bit % 64) as u64)))
}

/// `s` with bit `bit` (counted from the start of the block) taken away from
/// its word by subtraction.
pub open spec fn clear_bit_in(s: Seq<u8>, bit: int) -> Seq<u8> {
    let offset = (bit / 64) * 8;
    with_word(s, offset, (word_at(s, offset) - (1u64 << ((bit % 64) as u64))) as u64)
}

/// Whether bit `bit` of block contents `s` is set.
pub open spec fn bit_in(s: Seq<u8>, bit: int) -> bool {
    (word_at(s, (bit / 64) * 8) >> ((bit % 64) as u64)) & 1u64 == 1u64
}

proof fn lemma_index(blk: int, w: int, inner: int)
    requires
        0 <= blk,
        0 <= w < 64,
        0 <= inner < 64,
    ensures
        ({
            let b = blk * 4096 + w * 64 + inner;
            &&& b / 64 == blk * 64 + w
            &&& b % 64 == inner
            &&& (blk * 64 + w) / 64 == blk
            &&& (blk * 64 + w) % 64 == w
            &&& b / 4096 == blk
            &&& b % 4096 == w * 64 + inner
            &&& (b % 4096) / 64 == w
            &&& (b % 4096) % 64 == inner
        }),
{
    let b = blk * 4096 + w * 64 + inner;
    lemma_fundamental_div_mod_converse(b, 64, blk * 64 + w, inner);
    lemma_fundamental_div_mod_converse(blk * 64 + w, 64, blk, w);
    lemma_fundamental_div_mod_converse(b, 4096, blk, w * 64 + inner);
    lemma_fundamental_div_mod_converse(w * 64 + inner, 64, w, inner);
}

proof fn lemma_split(bit: int)
    requires
        0 <= bit,
    ensures
        bit / 64 / 64 == bit / 4096,
        (bit / 64) % 64 == (bit % 4096) / 64,
        bit % 64 == (bit % 4096) % 64,
        0 <= (bit % 4096) / 64 < 64,
        0 <= bit % 64 < 64,
        bit == (bit / 4096) * 4096 + ((bit % 4096) / 64) * 64 + bit % 64,
{
    let q = bit / 4096;
    let r = bit % 4096;
    let a = r / 64;
    let c = r % 64;
    assert(bit == q * 4096 + r) by (nonlinear_arith)
        requires q == bit / 4096, r == bit % 4096;
    assert(r == a * 64 + c) by (nonlinear_arith)
        requires a == r / 64, c == r % 64;
    assert(0 <= r < 4096);
    assert(0 <= a < 64) by (nonlinear_arith)
        requires a == r / 64, 0 <= r < 4096;
    lemma_index(q, a, c);
}

proof fn lemma_full_word(s: u64)
    requires
        s < 64,
    ensures
        (0xffff_ffff_ffff_ffffu64 >> s) & 1u64 == 1u64,
{
    assert(s < 64 ==> (0xffff_ffff_ffff_ffffu64 >> s) & 1u64 == 1u64) by (bit_vector);
}

proof fn lemma_set_clear_word(w: u64, i: u64)
    requires
        i < 64,
        (w >> i) & 1u64 == 0u64,
    ensures
        ((w | (1u64 << i)) >> i) & 1u64 == 1u64,
        (w | (1u64 << i)) >= (1u64 << i),
        ((w | (1u64 << i)) - (1u64 << i)) as u64 == w,
        forall|j: u64| j < 64 && j != i ==> #[trigger] (((w | (1u64 << i)) >> j) & 1u64) == (w >> j) & 1u64,
{
    assert(i < 64 && (w >> i) & 1u64 == 0u64 ==> ((w | (1u64 << i)) >> i) & 1u64 == 1u64) by (bit_vector);
    assert(i < 64 ==> (w | (1u64 << i)) >= (1u64 << i)) by (bit_vector);
    assert(i < 64 && (w >> i) & 1u64 == 0u64 ==> ((w | (1u64 << i)) - (1u64 << i)) as u64 == w) by (bit_vector);
    assert forall|j: u64| j < 64 && j != i implies #[trigger] (((w | (1u64 << i)) >> j) & 1u64) == (w >> j) & 1u64 by {
        assert(i < 64 && j < 64 && j != i ==> ((w | (1u64 << i)) >> j) & 1u64 == (w >> j) & 1u64) by (bit_vector);
    }
}

proof fn lemma_clear_word(w: u64, i: u64)
    requires
        i < 64,
        (w >> i) & 1u64 == 1u64,
    ensures
        w & (1u64 << i) > 0,
        w >= (1u64 << i),
        (((w - (1u64 << i)) as u64) >> i) & 1u64 == 0u64,
        forall|j: u64| j < 64 && j != i ==> #[trigger] ((((w - (1u64 << i)) as u64) >> j) & 1u64) == (w >> j) & 1u64,
{
    assert(i < 64 && (w >> i) & 1u64 == 1u64 ==> w & (1u64 << i) > 0) by (bit_vector);
    assert(i < 64 && (w >> i) & 1u64 == 1u64 ==> w >= (1u64 << i)) by (bit_vector);
    assert(i < 64 && (w >> i) & 1u64 == 1u64 ==> (((w - (1u64 << i)) as u64) >> i) & 1u64 == 0u64) by (bit_vector);
    assert forall|j: u64| j < 64 && j != i implies #[trigger] ((((w - (1u64 << i)) as u64) >> j) & 1u64) == (w >> j) & 1u64 by {
        assert(i < 64 && j < 64 && j != i && (w >> i) & 1u64 == 1u64 ==> (((w - (1u64 << i)) as u64) >> j) & 1u64 == (w >> j) & 1u64) by (bit_vector);
    }
}

proof fn lemma_offsets(x: int, y: int)
    requires
        0 <= x < 4096,
        0 <= y < 4096,
    ensures
        0 <= (x / 64) * 8,
        (x / 64) * 8 + 8 <= 512,
        (x / 64) * 8 == (y / 64) * 8 || (x / 64) * 8 + 8 <= (y / 64) * 8 || (y / 64) * 8 + 8
            <= (x / 64) * 8,
        (x / 64) * 8 == (y / 64) * 8 <==> x / 64 == y / 64,
        0 <= x % 64 < 64,
        x / 64 == y / 64 && x % 64 == y % 64 ==> x == y,
{
    assert(x == (x / 64) * 64 + x % 64) by (nonlinear_arith);
    assert(y == (y / 64) * 64 + y % 64) by (nonlinear_arith);
}

/// Setting a clear bit sets it and leaves every other bit as it was;
/// clearing it again gives back the block as it was before.
pub proof fn lemma_set_bit_then_clear(s: Seq<u8>, x: int)
    requires
        s.len() == BLOCK_SZ,
        0 <= x < 4096,
        !bit_in(s, x),
    ensures
        set_bit_in(s, x).len() == BLOCK_SZ,
        bit_in(set_bit_in(s, x), x),
        forall|y: int| 0 <= y < 4096 && y != x ==> #[trigger] bit_in(set_bit_in(s, x), y) == bit_in(s, y),
        clear_bit_in(set_bit_in(s, x), x) == s,
{
    lemma_offsets(x, x);
    let off = (x / 64) * 8;
    let w = word_at(s, off);
    let i = (x % 64) as u64;
    assert((w >> i) & 1u64 != 1u64 ==> (w >> i) & 1u64 == 0u64) by (bit_vector);
    lemma_set_clear_word(w, i);
    let t = set_bit_in(s, x);
    lemma_word_at_with_word(s, off, w | (1u64 << i), off);
    assert forall|y: int| 0 <= y < 4096 && y != x implies #[trigger] bit_in(t, y) == bit_in(s, y) by {
        lemma_offsets(x, y);
        let off2 = (y / 64) * 8;
        lemma_word_at_with_word(s, off, w | (1u64 << i), off2);
        if off2 == off {
            assert((y % 64) as u64 != i);
        }
    }
    lemma_with_word_twice(s, off, w | (1u64 << i), w);
    lemma_with_word_same(s, off);
}

/// Clearing a set bit clears it and leaves every other bit as it was.
pub proof fn lemma_clear_bit(s: Seq<u8>, x: int)
    requires
        s.len() == BLOCK_SZ,
        0 <= x < 4096,
        bit_in(s, x),
    ensures
        clear_bit_in(s, x).len() == BLOCK_SZ,
        !bit_in(clear_bit_in(s, x), x),
        forall|y: int| 0 <= y < 4096 && y != x ==> #[trigger] bit_in(clear_bit_in(s, x), y) == bit_in(s, y),
{
    lemma_offsets(x, x);
    let off = (x / 64) * 8;
    let w = word_at(s, off);
    let i = (x % 64) as u64;
    lemma_clear_word(w, i);
    let t = clear_bit_in(s, x);
    lemma_word_at_with_word(s, off, (w - (1u64 << i)) as u64, off);
    assert forall|y: int| 0 <= y < 4096 && y != x implies #[trigger] bit_in(t, y) == bit_in(s, y) by {
        lemma_offsets(x, y);
        let off2 = (y / 64) * 8;
        lemma_word_at_with_word(s, off, (w - (1u64 << i)) as u64, off2);
        if off2 == off {
            assert((y % 64) as u64 != i);
        }
    }
}

/// Every bit of a zeroed block is clear.
pub proof fn lemma_zeros_clear(x: int)
    requires
        0 <= x < 4096,
    ensures
        !bit_in(zeros(BLOCK_SZ as nat), x),
{
    lemma_offsets(x, x);
    let off = (x / 64) * 8;
    let z = zeros(BLOCK_SZ as nat);
    vstd::bytes::lemma_auto_spec_u64_to_from_le_bytes();
    vstd::bytes::spec_u64_to_le_bytes_to_open(0u64);
    assert(((0u64 & 0xff) as u8) == 0u8 && (((0u64 >> 8) & 0xff) as u8) == 0u8 && (((0u64 >> 16)
        & 0xff) as u8) == 0u8 && (((0u64 >> 24) & 0xff) as u8) == 0u8 && (((0u64 >> 32) & 0xff)
        as u8) == 0u8 && (((0u64 >> 40) & 0xff) as u8) == 0u8 && (((0u64 >> 48) & 0xff) as u8)
        == 0u8 && (((0u64 >> 56) & 0xff) as u8) == 0u8) by (bit_vector);
    assert(z.subrange(off, off + 8) =~= spec_u64_to_le_bytes(0u64));
    assert(word_at(z, off) == 0u64);
    let i = (x % 64) as u64;
    assert((0u64 >> i) & 1u64 == 0u64) by (bit_vector);
}

/// Every block from `first` on, `n` of them, that `cache` still holds is
/// marked as modified.
pub open spec fn blocks_marked<D: BlockDevice>(cache: BlockCacheManager<D>, first: int, n: int) -> bool {
    forall|k: int|
        0 <= k < n ==> #[trigger] cache.is_cached((first + k) as usize) ==> cache.is_dirty(
            (first + k) as usize,
        )
}

/// Every block that `cache` holds as modified was so in `before`, or lies
/// among the `n` blocks from `first` on.
pub open spec fn dirty_only_within<D: BlockDevice>(
    cache: BlockCacheManager<D>,
    before: BlockCacheManager<D>,
    first: int,
    n: int,
) -> bool {
    forall|id: usize| #[trigger]
        cache.is_dirty(id) ==> before.is_dirty(id) || first <= id < first + n
}

/// Looking up block `block` and, when `set` holds, marking it modified keeps
/// the marks of the blocks from `first` on: those still cached stay
/// modified, and no block outside them becomes modified.
proof fn lemma_marks_after_lookup<D: BlockDevice>(
    c: BlockCacheManager<D>,
    c2: BlockCacheManager<D>,
    c0: BlockCacheManager<D>,
    block: usize,
    set: bool,
    first: int,
    n: int,
)
    requires
        c.wf(),
        c2.wf(),
        c2.cached_ids() == c.ids_after_lookup(block),
        forall|id: usize| #[trigger]
            c2.is_dirty(id) == ((set && id == block) || (c.is_dirty(id) && c2.is_cached(id))),
        set || c.is_cached(block),
        set ==> first <= block < first + n,
        forall|k: int|
            0 <= k < n && (first + k) as usize != block ==> #[trigger] c.is_cached(
                (first + k) as usize,
            ) ==> c.is_dirty((first + k) as usize),
        !set ==> blocks_marked(c, first, n),
        dirty_only_within(c, c0, first, n),
    ensures
        blocks_marked(c2, first, n),
        dirty_only_within(c2, c0, first, n),
        c2.is_cached(block),
{
    c.lemma_views();
    c2.lemma_views();
    assert(c2.cached_ids().contains(block)) by {
        if !c.is_cached(block) {
            assert(c2.cached_ids().last() == block);
        }
    }
    assert forall|k: int| 0 <= k < n implies #[trigger] c2.is_cached((first + k) as usize)
        ==> c2.is_dirty((first + k) as usize) by {
        let x = (first + k) as usize;
        if c2.is_cached(x) && !(set && x == block) {
            if !c.is_cached(x) {
                assert(c2.cached_ids().contains(x));
                let j = choose|j: int| 0 <= j < c2.cached_ids().len() && c2.cached_ids()[j] == x;
                if !c.is_cached(block) {
                    if c.cached_ids().len() == BLOCK_CACHE_SIZE {
                        if j < c2.cached_ids().len() - 1 {
                            assert(c.cached_ids()[j + 1] == x);
                        }
                    } else {
                        if j < c2.cached_ids().len() - 1 {
                            assert(c.cached_ids()[j] == x);
                        }
                    }
                }
            }
        }
    }
}

/// Splits a bit number of a bitmap into its block, its word in that block
/// and its position in that word.
pub fn decomposition(bit: usize) -> (r: (usize, usize, usize))
    ensures
        r.0 == bit / 4096,
        r.1 == (bit % 4096) / 64,
        r.2 == (bit % 4096) % 64,
        r.2 == bit % 64,
        r.1 < 64,
        r.2 < 64,
        r.0 * 4096 + r.1 * 64 + r.2 == bit,
{
    proof {
        lemma_split(bit as int);
    }
    let block_pos = bit / BLOCK_BITS;
    let bit = bit % BLOCK_BITS;
    (block_pos, bit / 64, bit % 64)
}

/// A bitmap kept in `blocks` consecutive blocks of a device, from block
/// `start_block_id` on; bit `i` lives in bit `i % 64` of the little-endian
/// word `i / 64` of the bitmap.
pub struct Bitmap {
    start_block_id: usize,
    blocks: usize,
}

impl Bitmap {
    /// The first block of the bitmap.
    pub closed spec fn start(&self) -> usize {
        self.start_block_id
    }

    /// The number of blocks of the bitmap.
    pub closed spec fn len(&self) -> usize {
        self.blocks
    }

    /// The device block that holds bit `bit`.
    pub open spec fn block_of(&self, bit: int) -> int {
        self.start() + bit / 4096
    }

    /// Whether bit `bit` is set, as `cache` shows its device.
    pub open spec fn bit_set<D: BlockDevice>(&self, cache: BlockCacheManager<D>, bit: int) -> bool {
        bit_in(cache.logical(self.block_of(bit) as usize), bit % 4096)
    }

    /// Whether bit `bit` is the lowest clear bit of the bitmap.
    pub open spec fn is_lowest_clear<D: BlockDevice>(&self, cache: BlockCacheManager<D>, bit: int) -> bool {
        &&& 0 <= bit < self.len() * BLOCK_BITS
        &&& !self.bit_set(cache, bit)
        &&& forall|j: int| 0 <= j < bit ==> #[trigger] self.bit_set(cache, j)
    }

    /// Whether every bit of the bitmap is set.
    pub open spec fn is_full<D: BlockDevice>(&self, cache: BlockCacheManager<D>) -> bool {
        forall|b: int| 0 <= b < self.len() * BLOCK_BITS ==> #[trigger] self.bit_set(cache, b)
    }

    /// A bitmap has at most one lowest clear bit.
    pub proof fn lemma_lowest_clear_unique<D: BlockDevice>(&self, cache: BlockCacheManager<D>, a: int, b: int)
        requires
            self.is_lowest_clear(cache, a),
            self.is_lowest_clear(cache, b),
        ensures
            a == b,
    {
        if a < b {
            assert(self.bit_set(cache, a));
        } else if b < a {
            assert(self.bit_set(cache, b));
        }
    }

    /// How many of the bitmap's blocks an allocation that returned `pos`
    /// looked at: all of them when it found no clear bit, else those up to
    /// the one holding the bit it set.
    pub open spec fn scanned_blocks(&self, pos: Option<usize>) -> int {
        match pos {
            None => self.len() as int,
            Some(b) => b / 4096 + 1,
        }
    }

    /// Two bitmaps over the same blocks are the same.
    pub proof fn lemma_same_blocks(&self, other: &Bitmap)
        requires
            self.start() == other.start(),
            self.len() == other.len(),
        ensures
            *self == *other,
    {
    }

    /// Every bit of the bitmap lives in one of its blocks.
    pub proof fn lemma_block_of_in_range(&self, bit: int)
        requires
            0 <= bit < self.len() * BLOCK_BITS,
        ensures
            self.start() <= self.block_of(bit) < self.start() + self.len(),
    {
        assert(bit / 4096 < self.len()) by (nonlinear_arith)
            requires
                0 <= bit < self.len() * 4096,
        ;
    }

    /// A bitmap over `blocks` blocks from block `start_block_id` on.
    pub fn new(start_block_id: usize, blocks: usize) -> (b: Self)
        ensures
            b.start() == start_block_id,
            b.len() == blocks,
    {
        Self { start_block_id, blocks }
    }

    /// The number of bits of the bitmap.
    pub fn maximum(&self) -> (n: usize)
        requires
            self.len() * BLOCK_BITS <= usize::MAX,
        ensures
            n == self.len() * BLOCK_BITS,
    {
        self.blocks * BLOCK_BITS
    }

    /// Allocates the lowest clear bit of the bitmap: sets it and returns its
    /// number, or returns `None` when every bit is set. Every bitmap block it
    /// looks at is marked as modified, so it is written back later.
    pub fn allocate<D: BlockDevice>(&self, cache: &mut BlockCacheManager<D>) -> (pos:
        Option<usize>)
        requires
            old(cache).wf(),
            self.start() + self.len() <= usize::MAX + 1,
            self.len() * BLOCK_BITS <= usize::MAX + 1,
        ensures
            final(cache).wf(),
            blocks_marked(*final(cache), self.start() as int, self.scanned_blocks(pos)),
            dirty_only_within(
                *final(cache),
                *old(cache),
                self.start() as int,
                self.scanned_blocks(pos),
            ),
            match pos {
                None => {
                    &&& forall|b: int|
                        0 <= b < self.len() * BLOCK_BITS ==> #[trigger] self.bit_set(
                            *old(cache),
                            b,
                        )
                    &&& forall|id: usize| #[trigger]
                        final(cache).logical(id) == old(cache).logical(id,
                        )
                },
                Some(b) => {
                    &&& b < self.len() * BLOCK_BITS
                    &&& !self.bit_set(*old(cache), b as int)
                    &&& forall|j: int|
                        0 <= j < b ==> #[trigger] self.bit_set(*old(cache), j)
                    &&& forall|id: usize| #[trigger]
                        final(cache).logical(id) == if id == self.block_of(
                            b as int,
                        ) {
                            set_bit_in(old(cache).logical(id), (b % 4096) as int)
                        } else {
                            old(cache).logical(id)
                        }
                },
            },
    {
        let ghost c0 = *cache;
        let mut block_id: usize = 0;
        while block_id < self.blocks
            invariant
                block_id <= self.blocks,
                self.start() + self.len() <= usize::MAX + 1,
                self.len() * BLOCK_BITS <= usize::MAX + 1,
                c0 == *old(cache),
                cache.wf(),
                forall|id: usize| #[trigger]
                    cache.logical(id) == c0.logical(id),
                forall|j: int| 0 <= j < block_id * 4096 ==> #[trigger] self.bit_set(c0, j),
                blocks_marked(*cache, self.start() as int, block_id as int),
                dirty_only_within(*cache, c0, self.start() as int, block_id as int),
            decreases self.blocks - block_id,
        {
            let ghost cb = *cache;
            let ghost cur = (self.start() + block_id) as usize;
            let empty: Vec<u8> = Vec::new();
            cache.modify(self.start_block_id + block_id, 0, empty.as_slice());
            proof {
                assert forall|id: usize| #[trigger] cache.logical(id) == c0.logical(id) by {
                    if id == cur {
                        assert(splice(cb.logical(id), 0, empty@) =~= cb.logical(id));
                    }
                }
                lemma_marks_after_lookup(
                    cb,
                    *cache,
                    c0,
                    cur,
                    true,
                    self.start() as int,
                    block_id + 1,
                );
            }
            let mut w: usize = 0;
            while w < WORDS_PER_BLOCK
                invariant
                    block_id < self.blocks,
                    w <= 64,
                    self.start() + self.len() <= usize::MAX + 1,
                    self.len() * BLOCK_BITS <= usize::MAX + 1,
                    c0 == *old(cache),
                    cache.wf(),
                    forall|id: usize| #[trigger]
                        cache.logical(id) == c0.logical(id),
                    forall|j: int|
                        0 <= j < block_id * 4096 + w * 64 ==> #[trigger] self.bit_set(c0, j),
                    cur == (self.start() + block_id) as usize,
                    cache.is_cached(cur),
                    blocks_marked(*cache, self.start() as int, block_id + 1),
                    dirty_only_within(*cache, c0, self.start() as int, block_id + 1),
                decreases 64 - w,
            {
                let ghost blk = (self.start() + block_id) as usize;
                let ghost cr = *cache;
                let word = cache.read_u64(self.start_block_id + block_id, w * 8);
                proof {
                    lemma_marks_after_lookup(
                        cr,
                        *cache,
                        c0,
                        cur,
                        false,
                        self.start() as int,
                        block_id + 1,
                    );
                }
                assert(word == word_at(c0.logical(blk), w * 8));
                if word != u64::MAX {
                    let inner: u64 = word.trailing_ones() as u64;
                    assert(inner < 64);
                    let ghost b = block_id * 4096 + w * 64 + inner;
                    proof {
                        lemma_index(block_id as int, w as int, inner as int);
                        lemma_set_clear_word(word, inner);
                        assert forall|j: int| 0 <= j < b implies #[trigger] self.bit_set(c0, j) by {
                            if j >= block_id * 4096 + w * 64 {
                                let t = j - (block_id * 4096 + w * 64);
                                lemma_index(block_id as int, w as int, t);
                                assert((word >> (t as u64)) & 1u64 == 1u64);
                            }
                        }
                    }
                    let ghost cm = *cache;
                    cache.modify_u64(self.start_block_id + block_id, w * 8, word | (1u64 << inner));
                    proof {
                        lemma_marks_after_lookup(
                            cm,
                            *cache,
                            c0,
                            cur,
                            true,
                            self.start() as int,
                            block_id + 1,
                        );
                    }
                    return Some(block_id * BLOCK_BITS + w * 64 + inner as usize);
                }
                proof {
                    assert forall|j: int| 0 <= j < block_id * 4096 + (w + 1) * 64 implies #[trigger] self.bit_set(c0, j) by {
                        if j >= block_id * 4096 + w * 64 {
                            let t = j - (block_id * 4096 + w * 64);
                            lemma_index(block_id as int, w as int, t);
                            lemma_full_word(t as u64);
                        }
                    }
                }
                w = w + 1;
            }
            block_id = block_id + 1;
        }
        None
    }

    /// Clears bit `bit`, which must be set.
    pub fn dealloc<D: BlockDevice>(&self, cache: &mut BlockCacheManager<D>, bit: usize)
        requires
            old(cache).wf(),
            self.start() + bit / 4096 <= usize::MAX,
            self.bit_set(*old(cache), bit as int),
        ensures
            final(cache).wf(),
            forall|id: usize| #[trigger]
                final(cache).logical(id) == if id == self.block_of(bit as int) {
                    clear_bit_in(old(cache).logical(id), (bit % 4096) as int)
                } else {
                    old(cache).logical(id)
                },
    {
        let (block_pos, bits64_pos, inner_pos) = decomposition(bit);
        let word = cache.read_u64(block_pos + self.start_block_id, bits64_pos * 8);
        proof {
            lemma_clear_word(word, inner_pos as u64);
        }
        let mask: u64 = 1u64 << (inner_pos as u64);
        cache.modify_u64(block_pos + self.start_block_id, bits64_pos * 8, word - mask);
    }

    /// Successive allocations hand out strictly increasing bits: once
    /// `allocate` has set the lowest clear bit `p1`, the lowest clear bit
    /// left lies above it.
    pub proof fn lemma_allocations_increase<D: BlockDevice>(
        &self,
        before: BlockCacheManager<D>,
        after: BlockCacheManager<D>,
        p1: int,
        p2: int,
    )
        requires
            self.start() + self.len() <= usize::MAX + 1,
            before.wf(),
            self.is_lowest_clear(before, p1),
            forall|id: usize| #[trigger]
                after.logical(id) == if id == self.block_of(p1) {
                    set_bit_in(before.logical(id), p1 % 4096)
                } else {
                    before.logical(id)
                },
            self.is_lowest_clear(after, p2),
        ensures
            p1 < p2,
    {
        let blk = self.block_of(p1) as usize;
        before.lemma_logical_len(blk);
        lemma_set_bit_then_clear(before.logical(blk), p1 % 4096);
        if p2 <= p1 {
            let blk2 = self.block_of(p2) as usize;
            assert(after.logical(blk2) == if blk2 == self.block_of(p1) {
                set_bit_in(before.logical(blk2), p1 % 4096)
            } else {
                before.logical(blk2)
            });
            if p2 < p1 {
                assert(self.bit_set(before, p2));
                if self.block_of(p2) == self.block_of(p1) {
                    assert(p2 % 4096 != p1 % 4096);
                }
            }
            assert(self.bit_set(after, p2));
        }
    }

    /// Clearing the bit that `allocate` set gives back every block as its
    /// users saw it before the allocation.
    pub proof fn lemma_dealloc_undoes_allocate<D: BlockDevice>(
        &self,
        before: BlockCacheManager<D>,
        allocated: BlockCacheManager<D>,
        freed: BlockCacheManager<D>,
        p: int,
    )
        requires
            0 <= p,
            self.block_of(p) <= usize::MAX,
            before.wf(),
            !self.bit_set(before, p),
            forall|id: usize| #[trigger]
                allocated.logical(id) == if id == self.block_of(p) {
                    set_bit_in(before.logical(id), p % 4096)
                } else {
                    before.logical(id)
                },
            forall|id: usize| #[trigger]
                freed.logical(id) == if id == self.block_of(p) {
                    clear_bit_in(allocated.logical(id), p % 4096)
                } else {
                    allocated.logical(id)
                },
        ensures
            forall|id: usize| #[trigger] freed.logical(id) == before.logical(id),
    {
        let blk = self.block_of(p) as usize;
        before.lemma_logical_len(blk);
        lemma_set_bit_then_clear(before.logical(blk), p % 4096);
        assert forall|id: usize| #[trigger] freed.logical(id) == before.logical(id) by {
            assert(allocated.logical(id) == if id == self.block_of(p) {
                set_bit_in(before.logical(id), p % 4096)
            } else {
                before.logical(id)
            });
        }
    }
}

} // verus!
