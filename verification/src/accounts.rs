//! What the way of the balls through the wall keeps in balance: every point is
//! paid for by a block that leaves, and so is every ball released.

use vstd::prelude::*;
use crate::block::BlockModel;
use crate::geometry::Region;
use crate::rules::{blocks_alive, Strike, Sweep, BLOCK_SCORE};

verus! {

/// How many of the blocks have lives left.
pub open spec fn alive_count(blocks: Seq<BlockModel>) -> nat
    decreases blocks.len(),
{
    if blocks.len() == 0 {
        0
    } else {
        alive_count(blocks.drop_last()) + if blocks.last().alive() {
            1nat
        } else {
            0nat
        }
    }
}

/// Whether `after` are the blocks `before` after some hits, at most `hits` on each:
/// as many blocks, each in its place and of its kind, with no more lives than
/// before and at most `hits` fewer.
pub open spec fn worn(before: Seq<BlockModel>, after: Seq<BlockModel>, hits: int) -> bool {
    &&& after.len() == before.len()
    &&& forall|j: int|
        0 <= j < before.len() ==> {
            &&& (#[trigger] after[j]).rect == before[j].rect
            &&& after[j].kind == before[j].kind
            &&& before[j].lives - hits <= after[j].lives <= before[j].lives
        }
}

/// No more blocks are alive than there are blocks.
pub proof fn lemma_alive_count_bound(blocks: Seq<BlockModel>)
    ensures
        alive_count(blocks) <= blocks.len(),
        (forall|j: int| 0 <= j < blocks.len() ==> (#[trigger] blocks[j]).alive()) ==> alive_count(blocks)
            == blocks.len(),
    decreases blocks.len(),
{
    if blocks.len() > 0 {
        lemma_alive_count_bound(blocks.drop_last());
    }
}

/// The blocks that have lives left are as many as were counted alive, and each of
/// them is one of the blocks.
pub proof fn lemma_alive_count_filter(blocks: Seq<BlockModel>)
    ensures
        blocks_alive(blocks).len() == alive_count(blocks),
        forall|i: int|
            0 <= i < blocks_alive(blocks).len() ==> (#[trigger] blocks_alive(blocks)[i]).alive()
                && blocks.contains(blocks_alive(blocks)[i]),
    decreases blocks.len(),
{
    reveal(Seq::filter);
    if blocks.len() > 0 {
        let rest = blocks.drop_last();
        lemma_alive_count_filter(rest);
        assert forall|i: int| 0 <= i < blocks_alive(blocks).len() implies blocks.contains(
            #[trigger] blocks_alive(blocks)[i],
        ) by {
            if i < blocks_alive(rest).len() {
                let b = blocks_alive(rest)[i];
                assert(rest.contains(b));
                let k = choose|k: int| 0 <= k < rest.len() && rest[k] == b;
                assert(blocks[k] == b);
            } else {
                assert(blocks[blocks.len() - 1] == blocks.last());
            }
        }
    }
}

/// Replacing one block changes the count of those alive by what that block brings.
pub proof fn lemma_alive_count_update(blocks: Seq<BlockModel>, j: int, b: BlockModel)
    requires
        0 <= j < blocks.len(),
    ensures
        alive_count(blocks.update(j, b)) + (if blocks[j].alive() {
            1nat
        } else {
            0nat
        }) == alive_count(blocks) + (if b.alive() {
            1nat
        } else {
            0nat
        }),
    decreases blocks.len(),
{
    let after = blocks.update(j, b);
    if j == blocks.len() - 1 {
        assert(after.drop_last() =~= blocks.drop_last());
    } else {
        lemma_alive_count_update(blocks.drop_last(), j, b);
        assert(after.drop_last() =~= blocks.drop_last().update(j, b));
    }
}

/// One meeting of a ball and a block touches no other block, takes at most one
/// life, scores exactly when a block ceases to be alive, and releases a ball only
/// then.
pub proof fn lemma_meet_accounts(s: Strike, j: int)
    requires
        0 <= j < s.blocks.len(),
    ensures
        worn(s.blocks, s.meet(j).blocks, 1),
        forall|i: int| 0 <= i < s.blocks.len() && i != j ==> s.meet(j).blocks[i] == s.blocks[i],
        s.meet(j).score + BLOCK_SCORE * alive_count(s.meet(j).blocks) == s.score + BLOCK_SCORE
            * alive_count(s.blocks),
        s.meet(j).spawns.len() + alive_count(s.meet(j).blocks) <= s.spawns.len() + alive_count(
            s.blocks,
        ),
        s.meet(j).spawns.len() >= s.spawns.len(),
        s.meet(j).score >= s.score,
{
    if s.ball.rect.overlaps(s.blocks[j].rect) {
        lemma_alive_count_update(s.blocks, j, s.blocks[j].hit());
    }
}

/// The way of one ball through the first `n` blocks takes at most one life of
/// each, leaves the others alone, and keeps the balance of points and balls.
pub proof fn lemma_strike_accounts(s: Strike, n: nat)
    requires
        n <= s.blocks.len(),
    ensures
        worn(s.blocks, s.through(n).blocks, 1),
        forall|i: int| n <= i < s.blocks.len() ==> s.through(n).blocks[i] == s.blocks[i],
        s.through(n).score + BLOCK_SCORE * alive_count(s.through(n).blocks) == s.score + BLOCK_SCORE
            * alive_count(s.blocks),
        s.through(n).spawns.len() + alive_count(s.through(n).blocks) <= s.spawns.len() + alive_count(
            s.blocks,
        ),
        s.through(n).spawns.len() >= s.spawns.len(),
        s.through(n).score >= s.score,
    decreases n,
{
    if n > 0 {
        let before = s.through((n - 1) as nat);
        lemma_strike_accounts(s, (n - 1) as nat);
        lemma_meet_accounts(before, n - 1);
    }
}

/// The way of the first `m` balls through the paddle and the wall keeps the number
/// of balls, takes at most `m` lives of each block, and keeps the balance of
/// points and balls.
pub proof fn lemma_sweep_accounts(s: Sweep, player: Region, m: nat)
    requires
        m <= s.balls.len(),
    ensures
        s.through(player, m).balls.len() == s.balls.len(),
        forall|i: int| m <= i < s.balls.len() ==> s.through(player, m).balls[i] == s.balls[i],
        worn(s.blocks, s.through(player, m).blocks, m as int),
        s.through(player, m).score + BLOCK_SCORE * alive_count(s.through(player, m).blocks) == s.score
            + BLOCK_SCORE * alive_count(s.blocks),
        s.through(player, m).spawns.len() + alive_count(s.through(player, m).blocks)
            <= s.spawns.len() + alive_count(s.blocks),
        s.through(player, m).spawns.len() >= s.spawns.len(),
        s.through(player, m).score >= s.score,
    decreases m,
{
    if m > 0 {
        let before = s.through(player, (m - 1) as nat);
        lemma_sweep_accounts(s, player, (m - 1) as nat);
        let start = Strike {
            ball: before.balls[m - 1].bounced(player),
            blocks: before.blocks,
            score: before.score,
            spawns: before.spawns,
        };
        lemma_strike_accounts(start, before.blocks.len());
    }
}

} // verus!
