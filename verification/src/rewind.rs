//! The walk to older blocks as a whole.
use crate::cache::CachedBlock;
use crate::monitor::{Propose, Rewind, MAX_REWIND_QUEUE_LEN};
use crate::types::{BlockHeader, BlockId};
use vstd::prelude::*;

verus! {

/// The queue with which a walk ends that has come to `next` with the queue `queue`, where the
/// headers on disk are `ledger` and the blocks seen before are `visited`.
pub open spec fn rewound(
    ledger: Map<BlockId, BlockHeader>,
    visited: Map<BlockId, CachedBlock>,
    next: BlockId,
    queue: Seq<BlockHeader>,
) -> Seq<BlockHeader>
    decreases MAX_REWIND_QUEUE_LEN + 1 - queue.len(),
{
    if visited.contains_key(next) || queue.len() > MAX_REWIND_QUEUE_LEN || !ledger.contains_key(
        next,
    ) {
        queue
    } else {
        rewound(ledger, visited, ledger[next].parent_id, queue.push(ledger[next]))
    }
}

/// The steps of a walk lead to `rewound`: a walk that ends has reached it, and one that goes on
/// stays on the way to it, whether there is a next header or not.
pub proof fn law_steps_lead_to_rewound(
    rewind: Rewind,
    ledger: Map<BlockId, BlockHeader>,
    visited: Map<BlockId, CachedBlock>,
)
    ensures
        ({
            let next = rewind.next_block_id;
            let queue = rewind.block_queue@;
            let goal = rewound(ledger, visited, next, queue);
            &&& rewind.ends(visited) ==> queue == goal
            &&& !rewind.ends(visited) && !ledger.contains_key(next) ==> queue == goal
            &&& !rewind.ends(visited) && ledger.contains_key(next) ==> rewound(
                ledger,
                visited,
                ledger[next].parent_id,
                queue.push(ledger[next]),
            ) == goal
        }),
{
}

/// The id under which the header at the place `i` of a queue was asked for.
pub open spec fn asked(start: BlockId, queue: Seq<BlockHeader>, i: int) -> BlockId {
    if i == 0 {
        start
    } else {
        queue[i - 1].parent_id
    }
}

/// Whether `queue` is a walk from `start`: each header was asked for as the parent of the one
/// before, is the one on disk, and belongs to a block that was not seen before.
pub open spec fn is_walk(
    ledger: Map<BlockId, BlockHeader>,
    visited: Map<BlockId, CachedBlock>,
    start: BlockId,
    queue: Seq<BlockHeader>,
) -> bool {
    &&& queue.len() <= MAX_REWIND_QUEUE_LEN + 1
    &&& forall|i: int|
        0 <= i < queue.len() ==> {
            &&& ledger.contains_key(#[trigger] asked(start, queue, i))
            &&& queue[i] == ledger[asked(start, queue, i)]
            &&& !visited.contains_key(asked(start, queue, i))
        }
}

/// A walk holds at most one header more than the limit, leads over blocks that were not seen
/// before, and ends only at a block that was seen, one that is not on disk, or the limit.
pub proof fn law_rewound_is_a_walk(
    ledger: Map<BlockId, BlockHeader>,
    visited: Map<BlockId, CachedBlock>,
    start: BlockId,
)
    ensures
        ({
            let queue = rewound(ledger, visited, start, Seq::empty());
            let next = asked(start, queue, queue.len() as int);
            &&& is_walk(ledger, visited, start, queue)
            &&& visited.contains_key(next) || !ledger.contains_key(next) || queue.len()
                == MAX_REWIND_QUEUE_LEN + 1
        }),
{
    lemma_rewound_is_a_walk(ledger, visited, start, Seq::empty());
}

proof fn lemma_rewound_is_a_walk(
    ledger: Map<BlockId, BlockHeader>,
    visited: Map<BlockId, CachedBlock>,
    start: BlockId,
    queue: Seq<BlockHeader>,
)
    requires
        is_walk(ledger, visited, start, queue),
    ensures
        ({
            let next = asked(start, queue, queue.len() as int);
            let end = rewound(ledger, visited, next, queue);
            let last = asked(start, end, end.len() as int);
            &&& is_walk(ledger, visited, start, end)
            &&& visited.contains_key(last) || !ledger.contains_key(last) || end.len()
                == MAX_REWIND_QUEUE_LEN + 1
        }),
    decreases MAX_REWIND_QUEUE_LEN + 1 - queue.len(),
{
    let next = asked(start, queue, queue.len() as int);
    if !visited.contains_key(next) && queue.len() <= MAX_REWIND_QUEUE_LEN && ledger.contains_key(
        next,
    ) {
        let longer = queue.push(ledger[next]);
        assert forall|i: int| 0 <= i < longer.len() implies {
            &&& ledger.contains_key(#[trigger] asked(start, longer, i))
            &&& longer[i] == ledger[asked(start, longer, i)]
            &&& !visited.contains_key(asked(start, longer, i))
        } by {
            assert(asked(start, longer, i) == asked(start, queue, i));
            if i < queue.len() {
                assert(queue[i] == ledger[asked(start, queue, i)]);
            }
        }
        assert(asked(start, longer, longer.len() as int) == ledger[next].parent_id);
        lemma_rewound_is_a_walk(ledger, visited, start, longer);
    }
}

/// The order in which the blocks of a queue are remembered, one after the other from its end.
pub open spec fn remembered(queue: Seq<BlockHeader>) -> Seq<BlockHeader>
    decreases queue.len(),
{
    if queue.len() == 0 {
        Seq::empty()
    } else {
        seq![queue.last()] + remembered(queue.drop_last())
    }
}

/// The steps that work off a queue remember its blocks in this order: the block that is taken
/// up comes first, and the queue that is left holds the others in their order.
pub proof fn law_steps_remember_in_order(propose: Propose)
    requires
        propose.block_queue@.len() > 0,
    ensures
        ({
            let queue = propose.block_queue@;
            &&& remembered(queue)[0] == queue.last()
            &&& remembered(queue.drop_last()) == remembered(queue).skip(1)
        }),
{
    let queue = propose.block_queue@;
    assert(remembered(queue).skip(1) =~= remembered(queue.drop_last()));
}

proof fn lemma_remembered(queue: Seq<BlockHeader>)
    ensures
        remembered(queue).len() == queue.len(),
        forall|i: int|
            0 <= i < queue.len() ==> #[trigger] remembered(queue)[i] == queue[queue.len() - 1 - i],
    decreases queue.len(),
{
    if queue.len() > 0 {
        lemma_remembered(queue.drop_last());
    }
}

/// Of the blocks of a walk, parents are remembered before their children: each one but the
/// first names the one before it as its parent.
pub proof fn law_parents_are_remembered_first(
    ledger: Map<BlockId, BlockHeader>,
    visited: Map<BlockId, CachedBlock>,
    start: BlockId,
    i: int,
)
    requires
        0 <= i < rewound(ledger, visited, start, Seq::empty()).len() - 1,
    ensures
        ({
            let blocks = remembered(rewound(ledger, visited, start, Seq::empty()));
            &&& blocks.len() == rewound(ledger, visited, start, Seq::empty()).len()
            &&& ledger.contains_key(blocks[i + 1].parent_id)
            &&& ledger[blocks[i + 1].parent_id] == blocks[i]
        }),
{
    let queue = rewound(ledger, visited, start, Seq::empty());
    law_rewound_is_a_walk(ledger, visited, start);
    lemma_remembered(queue);
    let k = queue.len() - 1 - i;
    assert(queue[k] == ledger[asked(start, queue, k)]);
}

} // verus!
