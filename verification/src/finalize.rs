//! Which blocks become final once a commit rule has fired.
use crate::cache::{
    distinct_keys, entry_map, holds, keyed_by_header_id, lemma_place, place, CachedBlock,
    CachedBlocks,
};
use crate::types::{BlockHeader, BlockId};
use vstd::prelude::*;

verus! {

/// The id at the place `i` of a path `ids` from `start` to ever older blocks: each block is the
/// parent of the one before.
pub open spec fn older_at(
    blocks: Map<BlockId, CachedBlock>,
    start: BlockId,
    ids: Seq<BlockId>,
    i: int,
) -> BlockId {
    if i == 0 {
        start
    } else {
        blocks[ids[i - 1]].header.parent_id
    }
}

/// Whether `ids` leads from `start` through parents, over blocks that are held and not final,
/// without coming to one of them twice.
pub open spec fn is_open_path(
    blocks: Map<BlockId, CachedBlock>,
    start: BlockId,
    ids: Seq<BlockId>,
) -> bool {
    &&& forall|i: int|
        0 <= i < ids.len() ==> blocks.contains_key(#[trigger] ids[i])
            && !blocks[ids[i]].is_finalized
    &&& forall|i: int| 0 <= i < ids.len() ==> ids[i] == #[trigger] older_at(blocks, start, ids, i)
    &&& ids.no_duplicates()
}

/// Whether the open path `ids` cannot be made longer: the next block is not held, is final
/// already, or lies on the path.
pub open spec fn is_open_chain(
    blocks: Map<BlockId, CachedBlock>,
    start: BlockId,
    ids: Seq<BlockId>,
) -> bool {
    let next = older_at(blocks, start, ids, ids.len() as int);
    &&& is_open_path(blocks, start, ids)
    &&& !blocks.contains_key(next) || blocks[next].is_finalized || ids.contains(next)
}

/// The blocks that become final with `start`, newest first.
pub open spec fn open_chain(blocks: Map<BlockId, CachedBlock>, start: BlockId) -> Seq<BlockId> {
    choose|ids: Seq<BlockId>| is_open_chain(blocks, start, ids)
}

/// The headers of the blocks `ids`, in the opposite order.
pub open spec fn headers_oldest_first(
    blocks: Map<BlockId, CachedBlock>,
    ids: Seq<BlockId>,
) -> Seq<BlockHeader> {
    Seq::new(ids.len(), |i: int| blocks[ids[ids.len() - 1 - i]].header)
}

/// The entries with the blocks `ids` marked as final and nothing else changed.
pub open spec fn marked_final(
    entries: Seq<(BlockId, CachedBlock)>,
    ids: Seq<BlockId>,
) -> Seq<(BlockId, CachedBlock)> {
    Seq::new(
        entries.len(),
        |i: int|
            (
                entries[i].0,
                CachedBlock {
                    header: entries[i].1.header,
                    is_finalized: entries[i].1.is_finalized || ids.contains(entries[i].0),
                },
            ),
    )
}

proof fn lemma_open_paths_agree(
    blocks: Map<BlockId, CachedBlock>,
    start: BlockId,
    a: Seq<BlockId>,
    b: Seq<BlockId>,
    i: int,
)
    requires
        is_open_path(blocks, start, a),
        is_open_path(blocks, start, b),
        0 <= i < a.len(),
        i < b.len(),
    ensures
        a[i] == b[i],
    decreases i,
{
    if i > 0 {
        lemma_open_paths_agree(blocks, start, a, b, i - 1);
    }
    assert(a[i] == older_at(blocks, start, a, i));
    assert(b[i] == older_at(blocks, start, b, i));
}

proof fn lemma_open_chain_not_shorter(
    blocks: Map<BlockId, CachedBlock>,
    start: BlockId,
    a: Seq<BlockId>,
    b: Seq<BlockId>,
)
    requires
        is_open_chain(blocks, start, a),
        is_open_path(blocks, start, b),
    ensures
        b.len() <= a.len(),
{
    if a.len() < b.len() {
        let n = a.len() as int;
        assert forall|i: int| 0 <= i < n implies a[i] == b[i] by {
            lemma_open_paths_agree(blocks, start, a, b, i);
        }
        assert(b[n] == older_at(blocks, start, b, n));
        assert(older_at(blocks, start, a, n) == b[n]);
        if a.contains(b[n]) {
            let k = choose|k: int| 0 <= k < a.len() && a[k] == b[n];
            assert(b[k] == b[n]);
        }
    }
}

/// There is at most one open chain from a block: `open_chain` is the only answer.
pub proof fn law_open_chain_is_unique(
    blocks: Map<BlockId, CachedBlock>,
    start: BlockId,
    ids: Seq<BlockId>,
)
    requires
        is_open_chain(blocks, start, ids),
    ensures
        open_chain(blocks, start) == ids,
{
    let other = open_chain(blocks, start);
    lemma_open_chain_not_shorter(blocks, start, ids, other);
    lemma_open_chain_not_shorter(blocks, start, other, ids);
    assert forall|i: int| 0 <= i < ids.len() implies ids[i] == other[i] by {
        lemma_open_paths_agree(blocks, start, ids, other, i);
    }
    assert(ids =~= other);
}

/// Marks the block `finalized_block_id` and its ancestors as final, up to the first that is
/// not held or is final already, and returns the headers of those it marked, oldest first.
pub fn finalize_block(
    blocks: &mut CachedBlocks,
    finalized_block_id: &BlockId,
) -> (finalized: Vec<BlockHeader>)
    requires
        old(blocks).wf(),
    ensures
        final(blocks).wf(),
        final(blocks).capacity() == old(blocks).capacity(),
        is_open_chain(
            old(blocks).blocks(),
            *finalized_block_id,
            open_chain(old(blocks).blocks(), *finalized_block_id),
        ),
        finalized@ == headers_oldest_first(
            old(blocks).blocks(),
            open_chain(old(blocks).blocks(), *finalized_block_id),
        ),
        final(blocks).entries() == marked_final(
            old(blocks).entries(),
            open_chain(old(blocks).blocks(), *finalized_block_id),
        ),
{
    let ghost before = blocks.entries();
    let ghost known = blocks.blocks();
    let ghost mut ids: Seq<BlockId> = Seq::empty();
    let mut next_id = *finalized_block_id;
    let mut newest_first: Vec<BlockHeader> = Vec::new();
    proof {
        assert(marked_final(before, ids) =~= before);
    }
    loop
        invariant
            distinct_keys(before),
            known == entry_map(before),
            blocks.capacity() == old(blocks).capacity(),
            blocks.entries() == marked_final(before, ids),
            next_id == older_at(known, *finalized_block_id, ids, ids.len() as int),
            is_open_path(known, *finalized_block_id, ids),
            newest_first@.len() == ids.len(),
            forall|i: int|
                0 <= i < ids.len() ==> (#[trigger] newest_first@[i]) == known[ids[i]].header,
        ensures
            is_open_chain(known, *finalized_block_id, ids),
        decreases before.len() - ids.len(),
    {
        proof {
            lemma_marked_final(before, ids, next_id);
        }
        match blocks.peek_mut(&next_id) {
            None => {
                break;
            },
            Some(block) => {
                if block.is_finalized {
                    // Already final, before this call or through it.
                    proof {
                        assert(blocks.entries() =~= marked_final(before, ids));
                    }
                    break;
                }
                block.is_finalized = true;
                newest_first.push(block.header);
                proof {
                    let longer = ids.push(next_id);
                    lemma_longer_path(known, *finalized_block_id, ids, next_id);
                    lemma_path_fits(before, *finalized_block_id, longer);
                    lemma_mark_one_more(before, ids, next_id);
                    ids = longer;
                }
                next_id = block.header.parent_id;
            },
        }
    }
    proof {
        law_open_chain_is_unique(known, *finalized_block_id, ids);
        lemma_marked_final(before, ids, next_id);
    }
    let mut oldest_first: Vec<BlockHeader> = Vec::new();
    let mut left: usize = newest_first.len();
    while left > 0
        invariant
            left + oldest_first@.len() == newest_first@.len(),
            forall|i: int|
                0 <= i < oldest_first@.len() ==> (#[trigger] oldest_first@[i])
                    == newest_first@[newest_first@.len() - 1 - i],
        decreases left,
    {
        left = left - 1;
        oldest_first.push(newest_first[left]);
    }
    assert(oldest_first@ =~= headers_oldest_first(known, ids));
    oldest_first
}

proof fn lemma_marked_final(entries: Seq<(BlockId, CachedBlock)>, ids: Seq<BlockId>, id: BlockId)
    requires
        distinct_keys(entries),
    ensures
        distinct_keys(marked_final(entries, ids)),
        holds(marked_final(entries, ids), id) == holds(entries, id),
        holds(entries, id) ==> {
            let i = place(entries, id);
            &&& 0 <= i < entries.len()
            &&& entries[i].0 == id
            &&& place(marked_final(entries, ids), id) == i
            &&& entry_map(entries)[id] == entries[i].1
            &&& entry_map(marked_final(entries, ids))[id] == marked_final(entries, ids)[i].1
        },
{
    let marked = marked_final(entries, ids);
    assert forall|i: int| 0 <= i < entries.len() implies (#[trigger] marked[i]).0
        == entries[i].0 by {}
    assert forall|i: int, j: int| 0 <= i < j < marked.len() implies (#[trigger] marked[i]).0 != (
    #[trigger] marked[j]).0 by {
        assert(entries[i].0 != entries[j].0);
    }
    if holds(entries, id) {
        let i = place(entries, id);
        assert(marked[i].0 == id);
        lemma_place(marked, i);
    }
    if holds(marked, id) {
        let i = place(marked, id);
        assert(entries[i].0 == id);
    }
}

proof fn lemma_mark_one_more(entries: Seq<(BlockId, CachedBlock)>, ids: Seq<BlockId>, id: BlockId)
    requires
        distinct_keys(entries),
        holds(entries, id),
    ensures
        ({
            let i = place(entries, id);
            let block = CachedBlock { header: entries[i].1.header, is_finalized: true };
            marked_final(entries, ids.push(id)) == marked_final(entries, ids).update(i, (id, block))
        }),
{
    let i = place(entries, id);
    let block = CachedBlock { header: entries[i].1.header, is_finalized: true };
    let marked = marked_final(entries, ids.push(id));
    let updated = marked_final(entries, ids).update(i, (id, block));
    assert(ids.push(id)[ids.len() as int] == id);
    assert forall|j: int| 0 <= j < entries.len() implies marked[j] == updated[j] by {
        if j != i {
            assert(entries[j].0 != entries[i].0);
            if ids.contains(entries[j].0) {
                let k = choose|k: int| 0 <= k < ids.len() && ids[k] == entries[j].0;
                assert(ids.push(id)[k] == entries[j].0);
            }
        }
    }
    assert(marked =~= updated);
}

proof fn lemma_longer_path(
    blocks: Map<BlockId, CachedBlock>,
    start: BlockId,
    ids: Seq<BlockId>,
    id: BlockId,
)
    requires
        is_open_path(blocks, start, ids),
        id == older_at(blocks, start, ids, ids.len() as int),
        blocks.contains_key(id),
        !blocks[id].is_finalized,
        !ids.contains(id),
    ensures
        is_open_path(blocks, start, ids.push(id)),
{
    let longer = ids.push(id);
    assert forall|i: int| 0 <= i < longer.len() implies longer[i] == #[trigger] older_at(
        blocks,
        start,
        longer,
        i,
    ) by {
        assert(older_at(blocks, start, longer, i) == older_at(blocks, start, ids, i));
    }
}

proof fn lemma_path_fits(entries: Seq<(BlockId, CachedBlock)>, start: BlockId, ids: Seq<BlockId>)
    requires
        is_open_path(entry_map(entries), start, ids),
    ensures
        ids.len() <= entries.len(),
{
    let keys = entries.map_values(|e: (BlockId, CachedBlock)| e.0);
    assert forall|id: BlockId| ids.to_set().contains(id) implies keys.to_set().contains(id) by {
        let k = choose|k: int| 0 <= k < ids.len() && ids[k] == id;
        assert(entry_map(entries).contains_key(ids[k]));
        assert(keys[place(entries, id)] == id);
    }
    keys.lemma_cardinality_of_set();
    ids.unique_seq_to_set();
    vstd::set_lib::lemma_len_subset(ids.to_set(), keys.to_set());
}

proof fn lemma_open_path_ends(
    entries: Seq<(BlockId, CachedBlock)>,
    start: BlockId,
    ids: Seq<BlockId>,
)
    requires
        is_open_path(entry_map(entries), start, ids),
    ensures
        is_open_chain(entry_map(entries), start, open_chain(entry_map(entries), start)),
    decreases entries.len() - ids.len(),
{
    let blocks = entry_map(entries);
    lemma_path_fits(entries, start, ids);
    if is_open_chain(blocks, start, ids) {
        law_open_chain_is_unique(blocks, start, ids);
    } else {
        let next = older_at(blocks, start, ids, ids.len() as int);
        lemma_longer_path(blocks, start, ids, next);
        lemma_path_fits(entries, start, ids.push(next));
        lemma_open_path_ends(entries, start, ids.push(next));
    }
}

/// From every block there is an open chain, if only the empty one.
pub proof fn law_open_chain_exists(entries: Seq<(BlockId, CachedBlock)>, start: BlockId)
    ensures
        is_open_chain(entry_map(entries), start, open_chain(entry_map(entries), start)),
{
    lemma_open_path_ends(entries, start, Seq::empty());
}

/// Blocks are reported oldest first: each one but the first names the one before it as its
/// parent, by the id under which that one is held, which is the id of its header where all
/// blocks are held so.
pub proof fn law_parents_come_first(
    entries: Seq<(BlockId, CachedBlock)>,
    start: BlockId,
    i: int,
)
    requires
        0 <= i < open_chain(entry_map(entries), start).len() - 1,
    ensures
        ({
            let ids = open_chain(entry_map(entries), start);
            let headers = headers_oldest_first(entry_map(entries), ids);
            &&& headers[i] == entry_map(entries)[ids[ids.len() - 1 - i]].header
            &&& headers[i + 1].parent_id == ids[ids.len() - 1 - i]
            &&& keyed_by_header_id(entries) ==> headers[i + 1].parent_id == headers[i].id
        }),
{
    let blocks = entry_map(entries);
    let ids = open_chain(blocks, start);
    law_open_chain_exists(entries, start);
    let k = ids.len() - 1 - i;
    assert(ids[k] == older_at(blocks, start, ids, k));
    assert(blocks.contains_key(ids[k]));
    assert(entries[place(entries, ids[k])].0 == ids[k]);
}

/// No block becomes final twice: what a second call marks, whichever block it starts from, the
/// first one did not.
pub proof fn law_no_block_becomes_final_twice(
    entries: Seq<(BlockId, CachedBlock)>,
    first: BlockId,
    second: BlockId,
)
    requires
        distinct_keys(entries),
    ensures
        ({
            let marked = marked_final(entries, open_chain(entry_map(entries), first));
            forall|id: BlockId|
                open_chain(entry_map(marked), second).contains(id) ==> !open_chain(
                    entry_map(entries),
                    first,
                ).contains(id)
        }),
{
    let ids = open_chain(entry_map(entries), first);
    let marked = marked_final(entries, ids);
    law_open_chain_exists(marked, second);
    assert forall|id: BlockId|
        open_chain(entry_map(marked), second).contains(id) implies !ids.contains(id) by {
        let again = open_chain(entry_map(marked), second);
        let k = choose|k: int| 0 <= k < again.len() && again[k] == id;
        assert(!entry_map(marked)[again[k]].is_finalized);
        lemma_marked_final(entries, ids, id);
    }
}

/// To finalize the same block again changes nothing and reports nothing.
pub proof fn law_finalizing_again_does_nothing(
    entries: Seq<(BlockId, CachedBlock)>,
    start: BlockId,
)
    requires
        distinct_keys(entries),
    ensures
        ({
            let marked = marked_final(entries, open_chain(entry_map(entries), start));
            let again = open_chain(entry_map(marked), start);
            &&& headers_oldest_first(entry_map(marked), again) == Seq::<BlockHeader>::empty()
            &&& marked_final(marked, again) == marked
        }),
{
    let ids = open_chain(entry_map(entries), start);
    let marked = marked_final(entries, ids);
    law_open_chain_exists(entries, start);
    lemma_marked_final(entries, ids, start);
    if ids.len() > 0 {
        assert(ids[0] == older_at(entry_map(entries), start, ids, 0));
    }
    let nothing = Seq::<BlockId>::empty();
    assert(is_open_chain(entry_map(marked), start, nothing));
    law_open_chain_is_unique(entry_map(marked), start, nothing);
    assert(marked_final(marked, nothing) =~= marked);
}

/// A block that is held is final once it was finalized, and reported last if it was not final
/// before. Every block stays held with its header, and final if it was.
pub proof fn law_finalized_block_is_final(
    entries: Seq<(BlockId, CachedBlock)>,
    start: BlockId,
    id: BlockId,
)
    requires
        distinct_keys(entries),
    ensures
        ({
            let before = entry_map(entries);
            let ids = open_chain(before, start);
            let after = entry_map(marked_final(entries, ids));
            let headers = headers_oldest_first(before, ids);
            &&& before.contains_key(start) ==> after[start].is_finalized
            &&& before.contains_key(start) && !before[start].is_finalized ==> headers.len() > 0
                && headers.last() == before[start].header
            &&& after.contains_key(id) == before.contains_key(id)
            &&& before.contains_key(id) ==> after[id].header == before[id].header
            &&& before.contains_key(id) && before[id].is_finalized ==> after[id].is_finalized
        }),
{
    let ids = open_chain(entry_map(entries), start);
    law_open_chain_exists(entries, start);
    lemma_marked_final(entries, ids, start);
    lemma_marked_final(entries, ids, id);
    if ids.len() > 0 {
        assert(ids[0] == older_at(entry_map(entries), start, ids, 0));
    }
}

/// Whether the parent of `id` is final, as far as both are held and `id` is.
pub open spec fn final_parent_is_final(blocks: Map<BlockId, CachedBlock>, id: BlockId) -> bool {
    let parent = blocks[id].header.parent_id;
    blocks.contains_key(id) && blocks[id].is_finalized && blocks.contains_key(parent)
        ==> blocks[parent].is_finalized
}

/// Finality is closed towards older blocks: where the parent of every final block is final, it
/// stays so when a block is finalized.
pub proof fn law_final_parents_stay_final(entries: Seq<(BlockId, CachedBlock)>, start: BlockId)
    requires
        distinct_keys(entries),
        forall|id: BlockId| #[trigger] final_parent_is_final(entry_map(entries), id),
    ensures
        forall|id: BlockId| #[trigger]
            final_parent_is_final(
                entry_map(marked_final(entries, open_chain(entry_map(entries), start))),
                id,
            ),
{
    let blocks = entry_map(entries);
    let ids = open_chain(blocks, start);
    let marked = entry_map(marked_final(entries, ids));
    law_open_chain_exists(entries, start);
    assert forall|id: BlockId| #[trigger] final_parent_is_final(marked, id) by {
        let parent = marked[id].header.parent_id;
        if marked.contains_key(id) && marked[id].is_finalized && marked.contains_key(parent) {
            lemma_marked_final(entries, ids, id);
            lemma_marked_final(entries, ids, parent);
            assert(final_parent_is_final(blocks, id));
            if ids.contains(id) {
                lemma_chain_goes_on(blocks, start, ids, id);
            }
        }
    }
}

proof fn lemma_chain_goes_on(
    blocks: Map<BlockId, CachedBlock>,
    start: BlockId,
    ids: Seq<BlockId>,
    id: BlockId,
)
    requires
        is_open_chain(blocks, start, ids),
        ids.contains(id),
    ensures
        ({
            let parent = blocks[id].header.parent_id;
            ids.contains(parent) || !blocks.contains_key(parent) || blocks[parent].is_finalized
        }),
{
    let k = choose|k: int| 0 <= k < ids.len() && ids[k] == id;
    if k + 1 < ids.len() {
        assert(ids[k + 1] == older_at(blocks, start, ids, k + 1));
    }
}

/// Every block on the chain from `start` lies in a set that holds `start` and, with each held
/// block that is not final, its parent.
proof fn lemma_chain_is_reached(
    entries: Seq<(BlockId, CachedBlock)>,
    start: BlockId,
    ids: Seq<BlockId>,
    reach: Set<BlockId>,
    i: int,
)
    requires
        distinct_keys(entries),
        is_open_path(entry_map(entries), start, ids),
        0 <= i < ids.len(),
        reach.contains(start),
        forall|k: int|
            0 <= k < entries.len() && reach.contains((#[trigger] entries[k]).0)
                && !entries[k].1.is_finalized ==> reach.contains(entries[k].1.header.parent_id),
    ensures
        reach.contains(ids[i]),
    decreases i,
{
    let blocks = entry_map(entries);
    assert(ids[i] == older_at(blocks, start, ids, i));
    if i > 0 {
        lemma_chain_is_reached(entries, start, ids, reach, i - 1);
        assert(blocks.contains_key(ids[i - 1]));
        let k = place(entries, ids[i - 1]);
        assert(entries[k].0 == ids[i - 1]);
    }
}

/// Where the blocks stand that become final with `start`, oldest first, and what is true of
/// them.
pub(crate) proof fn lemma_places_of_final(
    entries: Seq<(BlockId, CachedBlock)>,
    start: BlockId,
    reach: Set<BlockId>,
) -> (places: Seq<int>)
    requires
        distinct_keys(entries),
    ensures
        ({
            let ids = open_chain(entry_map(entries), start);
            let after = marked_final(entries, ids);
            let headers = headers_oldest_first(entry_map(entries), ids);
            &&& after.len() == entries.len()
            &&& forall|k: int|
                0 <= k < entries.len() ==> {
                    &&& (#[trigger] after[k]).0 == entries[k].0
                    &&& after[k].1.header == entries[k].1.header
                    &&& entries[k].1.is_finalized ==> after[k].1.is_finalized
                    &&& entries[k].0 == start ==> after[k].1.is_finalized
                    &&& after[k].1.is_finalized && !entries[k].1.is_finalized ==> places.contains(k)
                }
            &&& places.len() == headers.len()
            &&& places.no_duplicates()
            &&& forall|i: int|
                0 <= i < places.len() ==> {
                    &&& 0 <= #[trigger] places[i] < entries.len()
                    &&& !entries[places[i]].1.is_finalized
                    &&& after[places[i]].1.is_finalized
                    &&& headers[i] == entries[places[i]].1.header
                }
            &&& forall|i: int, j: int|
                0 <= i && j == i + 1 && j < places.len()
                    ==> entries[#[trigger] places[j]].1.header.parent_id == entries[#[trigger]
                places[i]].0
            &&& places.len() > 0 ==> entries[places.last()].0 == start
            &&& forall|k: int, m: int|
                0 <= k < entries.len() && 0 <= m < entries.len() && !entries[k].1.is_finalized
                    && (#[trigger] after[k]).1.is_finalized && entries[k].1.header.parent_id
                    == entries[m].0 ==> (#[trigger] after[m]).1.is_finalized
            &&& reach.contains(start) && (forall|k: int|
                0 <= k < entries.len() && reach.contains((#[trigger] entries[k]).0)
                    && !entries[k].1.is_finalized ==> reach.contains(entries[k].1.header.parent_id))
                ==> forall|i: int|
                0 <= i < places.len() ==> reach.contains(entries[#[trigger] places[i]].0)
        }),
{
    let blocks = entry_map(entries);
    let ids = open_chain(blocks, start);
    let n = ids.len() as int;
    let after = marked_final(entries, ids);
    let places = Seq::new(ids.len(), |i: int| place(entries, ids[n - 1 - i]));
    law_open_chain_exists(entries, start);
    assert forall|i: int| 0 <= i < n implies {
        &&& 0 <= #[trigger] places[i] < entries.len()
        &&& entries[places[i]].0 == ids[n - 1 - i]
        &&& blocks[ids[n - 1 - i]] == entries[places[i]].1
    } by {
        assert(blocks.contains_key(ids[n - 1 - i]));
    }
    assert forall|i: int, j: int| 0 <= i < n && 0 <= j < n && i != j implies places[i]
        != places[j] by {
        assert(ids[n - 1 - i] != ids[n - 1 - j]);
    }
    assert forall|k: int|
        0 <= k < entries.len() && !entries[k].1.is_finalized && after[k].1.is_finalized implies
        places.contains(k) by {
        let p = choose|p: int| 0 <= p < n && ids[p] == entries[k].0;
        lemma_place(entries, k);
        assert(places[n - 1 - p] == k);
    }
    assert forall|i: int, j: int| 0 <= i && j == i + 1 && j < n implies entries[#[trigger]
    places[j]].1.header.parent_id == entries[#[trigger] places[i]].0 by {
        assert(ids[n - 1 - i] == older_at(blocks, start, ids, n - 1 - i));
    }
    if n > 0 {
        assert(ids[0] == older_at(blocks, start, ids, 0));
        assert(ids.contains(ids[0]));
    }
    assert forall|k: int| 0 <= k < entries.len() && entries[k].0 == start implies (
    #[trigger] after[k]).1.is_finalized by {
        lemma_place(entries, k);
        law_finalized_block_is_final(entries, start, start);
        lemma_marked_final(entries, ids, start);
    }
    assert forall|k: int, m: int|
        0 <= k < entries.len() && 0 <= m < entries.len() && !entries[k].1.is_finalized && (
        #[trigger] after[k]).1.is_finalized && entries[k].1.header.parent_id
            == entries[m].0 implies (#[trigger] after[m]).1.is_finalized by {
        lemma_place(entries, k);
        lemma_place(entries, m);
        lemma_chain_goes_on(blocks, start, ids, entries[k].0);
    }
    if reach.contains(start) && (forall|k: int|
        0 <= k < entries.len() && reach.contains((#[trigger] entries[k]).0)
            && !entries[k].1.is_finalized ==> reach.contains(entries[k].1.header.parent_id)) {
        assert forall|i: int| 0 <= i < n implies reach.contains(
            entries[#[trigger] places[i]].0,
        ) by {
            lemma_chain_is_reached(entries, start, ids, reach, n - 1 - i);
        }
    }
    places
}

/// To finalize the block `start`: no block leaves or changes but by becoming final, and `start`
/// is final if it is held. The headers of the blocks that become final come back, each one once
/// and none else, with parents before their children and `start` last; `places` says where they
/// stand. A held parent of such a block is final as well, and no block becomes final that is not
/// in every set `reach` which holds `start` and, with each held block that is not final, its
/// parent.
pub proof fn law_finalize_block(
    blocks: &mut CachedBlocks,
    start: &BlockId,
    finalized: Vec<BlockHeader>,
    reach: Set<BlockId>,
) -> (places: Seq<int>)
    requires
        old(blocks).wf(),
        call_ensures(finalize_block, (blocks, start), finalized),
    ensures
        final(blocks).wf(),
        final(blocks).capacity() == old(blocks).capacity(),
        ({
            let before = old(blocks).entries();
            let after = final(blocks).entries();
            &&& after.len() == before.len()
            &&& forall|k: int|
                0 <= k < before.len() ==> {
                    &&& (#[trigger] after[k]).0 == before[k].0
                    &&& after[k].1.header == before[k].1.header
                    &&& before[k].1.is_finalized ==> after[k].1.is_finalized
                    &&& before[k].0 == *start ==> after[k].1.is_finalized
                    &&& after[k].1.is_finalized && !before[k].1.is_finalized ==> places.contains(k)
                }
            &&& places.len() == finalized@.len()
            &&& places.no_duplicates()
            &&& forall|n: int|
                0 <= n < places.len() ==> {
                    &&& 0 <= #[trigger] places[n] < before.len()
                    &&& !before[places[n]].1.is_finalized
                    &&& after[places[n]].1.is_finalized
                    &&& finalized@[n] == before[places[n]].1.header
                }
            &&& forall|n: int, m: int|
                0 <= n && m == n + 1 && m < places.len()
                    ==> before[#[trigger] places[m]].1.header.parent_id == before[#[trigger]
                places[n]].0
            &&& places.len() > 0 ==> before[places.last()].0 == *start
            &&& forall|k: int, m: int|
                0 <= k < before.len() && 0 <= m < before.len() && !before[k].1.is_finalized && (
                #[trigger] after[k]).1.is_finalized && before[k].1.header.parent_id == before[m].0
                    ==> (#[trigger] after[m]).1.is_finalized
            &&& reach.contains(*start) && (forall|k: int|
                0 <= k < before.len() && reach.contains((#[trigger] before[k]).0)
                    && !before[k].1.is_finalized ==> reach.contains(before[k].1.header.parent_id))
                ==> forall|n: int|
                0 <= n < places.len() ==> reach.contains(before[#[trigger] places[n]].0)
        }),
{
    lemma_places_of_final(old(blocks).entries(), *start, reach)
}

} // verus!
