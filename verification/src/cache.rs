//! The blocks seen lately, in a bounded cache that drops the least recently added.
use crate::types::{BlockHeader, BlockId};
use std::num::NonZeroUsize;
use vstd::prelude::*;

verus! {

/// A block that was seen, and whether it was reported as finalized.
#[derive(Clone, Copy)]
pub struct CachedBlock {
    pub header: BlockHeader,
    pub is_finalized: bool,
}

impl CachedBlock {
    /// A block that was seen and is not finalized yet.
    pub fn new(header: BlockHeader) -> (block: Self)
        ensures
            block.header == header,
            !block.is_finalized,
    {
        CachedBlock { header, is_finalized: false }
    }
}

/// The cache of the `lru` crate.
#[verifier::external_type_specification]
#[verifier::external_body]
#[verifier::reject_recursive_types(K)]
#[verifier::reject_recursive_types(V)]
#[verifier::reject_recursive_types(S)]
pub struct ExLruCache<K, V, S>(lru::LruCache<K, V, S>);

/// The hasher that `lru::LruCache` uses unless told otherwise.
#[verifier::external_type_specification]
#[verifier::external_body]
pub struct ExDefaultHasher(lru::DefaultHasher);

/// What a cache holds, the most recently put entry first.
pub uninterp spec fn lru_entries(cache: lru::LruCache<BlockId, CachedBlock>) -> Seq<
    (BlockId, CachedBlock),
>;

/// How many entries a cache can hold.
pub uninterp spec fn lru_capacity(cache: lru::LruCache<BlockId, CachedBlock>) -> nat;

/// Whether some entry has the key `id`.
pub open spec fn holds(entries: Seq<(BlockId, CachedBlock)>, id: BlockId) -> bool {
    exists|i: int| 0 <= i < entries.len() && (#[trigger] entries[i]).0 == id
}

/// Where the entry with the key `id` stands.
pub open spec fn place(entries: Seq<(BlockId, CachedBlock)>, id: BlockId) -> int {
    choose|i: int| 0 <= i < entries.len() && (#[trigger] entries[i]).0 == id
}

/// The entries after `id` was put with the value `block` into a cache of `capacity` entries:
/// the new entry stands first, and what leaves is the entry with the same key, or else the
/// last one if the cache was full.
pub open spec fn after_put(
    entries: Seq<(BlockId, CachedBlock)>,
    capacity: nat,
    id: BlockId,
    block: CachedBlock,
) -> Seq<(BlockId, CachedBlock)> {
    seq![(id, block)] + if holds(entries, id) {
        entries.remove(place(entries, id))
    } else if entries.len() == capacity {
        entries.drop_last()
    } else {
        entries
    }
}

/// Calls `lru::LruCache::new`: the new cache is empty and holds up to `capacity` entries.
///
/// The crate allocates its table for `capacity` entries at once; the upper bound keeps the
/// size of that table in range on every machine.
#[verifier::external_body]
fn lru_new(capacity: usize) -> (cache: lru::LruCache<BlockId, CachedBlock>)
    requires
        0 < capacity <= 65536,
    ensures
        lru_entries(cache) == Seq::<(BlockId, CachedBlock)>::empty(),
        lru_capacity(cache) == capacity,
{
    lru::LruCache::new(NonZeroUsize::new(capacity).unwrap())
}

/// Calls `lru::LruCache::contains`: whether some entry has this key.
#[verifier::external_body]
fn lru_contains(cache: &lru::LruCache<BlockId, CachedBlock>, id: &BlockId) -> (found: bool)
    ensures
        found == holds(lru_entries(*cache), *id),
{
    cache.contains(id)
}

/// Calls `lru::LruCache::peek`: the value of the entry with this key, if there is one. The
/// order of the entries does not change.
#[verifier::external_body]
fn lru_peek<'a>(cache: &'a lru::LruCache<BlockId, CachedBlock>, id: &BlockId) -> (found: Option<
    &'a CachedBlock,
>)
    ensures
        found is Some <==> holds(lru_entries(*cache), *id),
        found matches Some(block) ==> *block == lru_entries(*cache)[place(
            lru_entries(*cache),
            *id,
        )].1,
{
    cache.peek(id)
}

/// Calls `lru::LruCache::peek_mut`: the value of the entry with this key, if there is one, to
/// be changed in place. The order of the entries does not change, nor does any other entry.
#[verifier::external_body]
fn lru_peek_mut<'a>(
    cache: &'a mut lru::LruCache<BlockId, CachedBlock>,
    id: &BlockId,
) -> (found: Option<&'a mut CachedBlock>)
    ensures
        lru_capacity(*final(cache)) == lru_capacity(*old(cache)),
        found is Some <==> holds(lru_entries(*old(cache)), *id),
        match found {
            Some(block) => {
                let i = place(lru_entries(*old(cache)), *id);
                &&& *block == lru_entries(*old(cache))[i].1
                &&& lru_entries(*final(cache)) == lru_entries(*old(cache)).update(
                    i,
                    (*id, *final(block)),
                )
            },
            None => lru_entries(*final(cache)) == lru_entries(*old(cache)),
        },
{
    cache.peek_mut(id)
}

/// Calls `lru::LruCache::put`: the entry comes to stand first, in place of the one with the
/// same key, or else of the last one if the cache was full. The value that the key had before
/// comes back, and nothing if it had none, also where an entry was dropped.
#[verifier::external_body]
fn lru_put(
    cache: &mut lru::LruCache<BlockId, CachedBlock>,
    id: BlockId,
    block: CachedBlock,
) -> (replaced: Option<CachedBlock>)
    ensures
        lru_capacity(*final(cache)) == lru_capacity(*old(cache)),
        lru_entries(*final(cache)) == after_put(
            lru_entries(*old(cache)),
            lru_capacity(*old(cache)),
            id,
            block,
        ),
        replaced == if holds(lru_entries(*old(cache)), id) {
            Some(lru_entries(*old(cache))[place(lru_entries(*old(cache)), id)].1)
        } else {
            None
        },
{
    cache.put(id, block)
}

/// The entries as a map from keys to values.
pub open spec fn entry_map(entries: Seq<(BlockId, CachedBlock)>) -> Map<BlockId, CachedBlock> {
    Map::new(|id: BlockId| holds(entries, id), |id: BlockId| entries[place(entries, id)].1)
}

/// No key stands in two entries.
pub open spec fn distinct_keys(entries: Seq<(BlockId, CachedBlock)>) -> bool {
    forall|i: int, j: int|
        0 <= i < j < entries.len() ==> (#[trigger] entries[i]).0 != (#[trigger] entries[j]).0
}

/// Every block is held under the id of its header.
pub open spec fn keyed_by_header_id(entries: Seq<(BlockId, CachedBlock)>) -> bool {
    forall|i: int|
        0 <= i < entries.len() ==> (#[trigger] entries[i]).0 == entries[i].1.header.id
}

/// The blocks seen lately.
pub struct CachedBlocks {
    inner: lru::LruCache<BlockId, CachedBlock>,
}

impl CachedBlocks {
    /// The blocks by key, the one put last first.
    pub closed spec fn entries(&self) -> Seq<(BlockId, CachedBlock)> {
        lru_entries(self.inner)
    }

    /// How many blocks can be held.
    pub closed spec fn capacity(&self) -> nat {
        lru_capacity(self.inner)
    }

    /// The blocks as a map.
    pub open spec fn blocks(&self) -> Map<BlockId, CachedBlock> {
        entry_map(self.entries())
    }

    /// No key occurs twice, and no more blocks are held than there is room for.
    pub open spec fn wf(&self) -> bool {
        &&& distinct_keys(self.entries())
        &&& self.entries().len() <= self.capacity()
        &&& 0 < self.capacity()
    }

    /// An empty cache with room for `capacity` blocks.
    pub fn new(capacity: usize) -> (blocks: Self)
        requires
            0 < capacity <= 65536,
        ensures
            blocks.wf(),
            blocks.entries() == Seq::<(BlockId, CachedBlock)>::empty(),
            blocks.capacity() == capacity,
    {
        CachedBlocks { inner: lru_new(capacity) }
    }

    /// Whether the block `id` is held.
    pub fn contains(&self, id: &BlockId) -> (found: bool)
        ensures
            found == self.blocks().contains_key(*id),
    {
        lru_contains(&self.inner, id)
    }

    /// The block `id`, if it is held.
    pub fn peek(&self, id: &BlockId) -> (found: Option<&CachedBlock>)
        ensures
            match found {
                Some(block) => self.blocks().contains_key(*id) && *block == self.blocks()[*id],
                None => !self.blocks().contains_key(*id),
            },
    {
        lru_peek(&self.inner, id)
    }

    /// The block `id`, if it is held, to be changed in place.
    pub fn peek_mut(&mut self, id: &BlockId) -> (found: Option<&mut CachedBlock>)
        ensures
            final(self).capacity() == old(self).capacity(),
            match found {
                Some(block) => {
                    &&& old(self).blocks().contains_key(*id)
                    &&& *block == old(self).blocks()[*id]
                    &&& final(self).entries() == old(self).entries().update(
                        place(old(self).entries(), *id),
                        (*id, *final(block)),
                    )
                },
                None => {
                    &&& !old(self).blocks().contains_key(*id)
                    &&& final(self).entries() == old(self).entries()
                },
            },
    {
        lru_peek_mut(&mut self.inner, id)
    }

    /// Holds `block` under the key `id` from now on, in place of what was held under it. If
    /// nothing was and there is no room, the block put longest ago is dropped.
    pub fn put(&mut self, id: BlockId, block: CachedBlock) -> (replaced: Option<CachedBlock>)
        requires
            old(self).wf(),
        ensures
            final(self).wf(),
            final(self).capacity() == old(self).capacity(),
            final(self).entries() == after_put(
                old(self).entries(),
                old(self).capacity(),
                id,
                block,
            ),
            replaced == if old(self).blocks().contains_key(id) {
                Some(old(self).blocks()[id])
            } else {
                None
            },
    {
        let replaced = lru_put(&mut self.inner, id, block);
        proof {
            lemma_after_put(old(self).entries(), old(self).capacity(), id, block);
        }
        replaced
    }
}

/// Where no key occurs twice, the place of a key is the one at which it stands.
pub proof fn lemma_place(entries: Seq<(BlockId, CachedBlock)>, i: int)
    requires
        distinct_keys(entries),
        0 <= i < entries.len(),
    ensures
        holds(entries, entries[i].0),
        place(entries, entries[i].0) == i,
        entry_map(entries)[entries[i].0] == entries[i].1,
{
    let p = place(entries, entries[i].0);
    assert(entries[p].0 == entries[i].0);
    if p < i {
        assert(entries[p].0 != entries[i].0);
    }
}

proof fn lemma_after_put(
    entries: Seq<(BlockId, CachedBlock)>,
    capacity: nat,
    id: BlockId,
    block: CachedBlock,
)
    requires
        distinct_keys(entries),
        entries.len() <= capacity,
        0 < capacity,
    ensures
        distinct_keys(after_put(entries, capacity, id, block)),
        after_put(entries, capacity, id, block).len() <= capacity,
{
}

/// Whether `other` is the block that makes room when `id` is put: the cache is full, `id` is
/// not in it, and `other` was put longest ago.
pub open spec fn makes_room(
    entries: Seq<(BlockId, CachedBlock)>,
    capacity: nat,
    id: BlockId,
    other: BlockId,
) -> bool {
    !holds(entries, id) && entries.len() == capacity && entries.last().0 == other
}

/// A block that was put is held as it was put. Every other block stays as it was, but for the
/// one that makes room.
pub proof fn law_put_is_held(
    entries: Seq<(BlockId, CachedBlock)>,
    capacity: nat,
    id: BlockId,
    block: CachedBlock,
    other: BlockId,
)
    requires
        distinct_keys(entries),
        entries.len() <= capacity,
        0 < capacity,
        other != id,
    ensures
        ({
            let before = entry_map(entries);
            let after = entry_map(after_put(entries, capacity, id, block));
            &&& after.contains_key(id)
            &&& after[id] == block
            &&& after.contains_key(other) <==> before.contains_key(other) && !makes_room(
                entries,
                capacity,
                id,
                other,
            )
            &&& after.contains_key(other) ==> after[other] == before[other]
        }),
{
    let put = after_put(entries, capacity, id, block);
    lemma_after_put(entries, capacity, id, block);
    assert(put[0] == (id, block));
    lemma_place(put, 0);
    if holds(put, other) {
        let i = place(put, other);
        lemma_place(put, i);
        if holds(entries, id) {
            let gap = place(entries, id);
            if i - 1 < gap {
                assert(put[i] == entries[i - 1]);
                lemma_place(entries, i - 1);
            } else {
                assert(put[i] == entries[i]);
                lemma_place(entries, i);
            }
        } else {
            assert(put[i] == entries[i - 1]);
            lemma_place(entries, i - 1);
            if makes_room(entries, capacity, id, other) {
                assert(entries[i - 1].0 != entries[entries.len() - 1].0);
            }
        }
    }
    if holds(entries, other) && !makes_room(entries, capacity, id, other) {
        let j = place(entries, other);
        if holds(entries, id) {
            let gap = place(entries, id);
            if j < gap {
                assert(put[j + 1] == entries[j]);
            } else {
                assert(put[j] == entries[j]);
            }
        } else {
            assert(put[j + 1] == entries[j]);
        }
    }
}

/// A block is found under its key exactly if an entry has this key, and what is found is the
/// value of that entry. To look does not change anything.
pub proof fn law_lookup(
    blocks: &CachedBlocks,
    id: &BlockId,
    contained: bool,
    found: Option<&CachedBlock>,
    i: int,
)
    requires
        blocks.wf(),
        call_ensures(CachedBlocks::contains, (blocks, id), contained),
        call_ensures(CachedBlocks::peek, (blocks, id), found),
    ensures
        contained <==> exists|k: int|
            0 <= k < blocks.entries().len() && (#[trigger] blocks.entries()[k]).0 == *id,
        found is Some <==> contained,
        0 <= i < blocks.entries().len() && blocks.entries()[i].0 == *id ==> *found->0
            == blocks.entries()[i].1,
{
    if 0 <= i < blocks.entries().len() && blocks.entries()[i].0 == *id {
        lemma_place(blocks.entries(), i);
    }
}

/// A block can be changed in place under its key: the entry with this key gets what is written,
/// and no other entry changes or moves.
pub proof fn law_change_in_place(
    blocks: &mut CachedBlocks,
    id: &BlockId,
    found: Option<&mut CachedBlock>,
    i: int,
)
    requires
        old(blocks).wf(),
        call_ensures(CachedBlocks::peek_mut, (blocks, id), found),
        0 <= i < old(blocks).entries().len(),
    ensures
        final(blocks).capacity() == old(blocks).capacity(),
        final(blocks).entries().len() == old(blocks).entries().len(),
        old(blocks).entries()[i].0 == *id ==> found is Some && *found->0 == old(
            blocks,
        ).entries()[i].1 && final(blocks).entries()[i] == (*id, *final(found->0)),
        old(blocks).entries()[i].0 != *id ==> final(blocks).entries()[i] == old(
            blocks,
        ).entries()[i],
{
    let entries = old(blocks).entries();
    if entries[i].0 == *id {
        lemma_place(entries, i);
    } else if holds(entries, *id) {
        assert(entries[place(entries, *id)].0 == *id);
    }
}

/// A block that is put stands first. The others stay in their order, but for the one that was
/// held under the same key, which comes back, or else, where there was no room, the last one.
pub proof fn law_put(
    blocks: &mut CachedBlocks,
    id: BlockId,
    block: CachedBlock,
    replaced: Option<CachedBlock>,
    i: int,
)
    requires
        old(blocks).wf(),
        call_ensures(CachedBlocks::put, (blocks, id, block), replaced),
    ensures
        final(blocks).wf(),
        final(blocks).capacity() == old(blocks).capacity(),
        ({
            let before = old(blocks).entries();
            let after = final(blocks).entries();
            let held = exists|k: int| 0 <= k < before.len() && (#[trigger] before[k]).0 == id;
            &&& after.len() > 0
            &&& after[0] == (id, block)
            &&& 0 <= i < before.len() && before[i].0 == id ==> after.skip(1) == before.remove(i)
                && replaced == Some(before[i].1)
            &&& !held ==> replaced is None
            &&& !held && before.len() < old(blocks).capacity() ==> after.skip(1) == before
            &&& !held && before.len() == old(blocks).capacity() ==> after.skip(1)
                == before.drop_last()
        }),
{
    let before = old(blocks).entries();
    let after = final(blocks).entries();
    if 0 <= i < before.len() && before[i].0 == id {
        lemma_place(before, i);
        assert(after.skip(1) =~= before.remove(i));
    } else if !holds(before, id) {
        if before.len() < old(blocks).capacity() {
            assert(after.skip(1) =~= before);
        } else {
            assert(after.skip(1) =~= before.drop_last());
        }
    }
}

/// A block that was just seen has its header and is not final. A new cache is empty and has the
/// room that was asked for.
pub proof fn law_new_values(
    header: BlockHeader,
    block: CachedBlock,
    capacity: usize,
    blocks: CachedBlocks,
)
    requires
        0 < capacity <= 65536,
        call_ensures(CachedBlock::new, (header,), block),
        call_ensures(CachedBlocks::new, (capacity,), blocks),
    ensures
        block.header == header,
        !block.is_finalized,
        blocks.wf(),
        blocks.entries().len() == 0,
        blocks.capacity() == capacity,
{
}

} // verus!
