//! The wall at the start of a level: six rows of six blocks, three of which are
//! picked at random to release a ball.

use vstd::prelude::*;
use crate::block::{block_models, Block, BlockModel, BlockType, BLOCK_LIVES};
use crate::geometry::{Vec2, Vector};
use crate::random::{random_below, MAX_RANGE};
use crate::units::MAX_FIELD;

verus! {

/// Blocks in a row of the wall.
pub const WALL_COLUMNS: usize = 6;

/// Blocks of the wall.
pub const WALL_BLOCKS: usize = 36;

/// Picks of a block that releases a ball.
pub const SPECIAL_PICKS: usize = 3;

/// From the left edge of a block to that of its right neighbour: the block's width
/// and 5 pixels.
pub const CELL_WIDTH: i64 = 105_000_000_000;

/// From the top edge of a block to that of the block below: the block's height
/// and 5 pixels.
pub const CELL_HEIGHT: i64 = 45_000_000_000;

/// Half the width of six cells.
pub const HALF_WALL_WIDTH: i64 = 315_000_000_000;

/// From the top of the field to the top of the wall: 50 pixels.
pub const WALL_TOP: i64 = 50_000_000_000;

/// The top-left corner of the wall's block number `i`, counted row by row, in a
/// field of width `field_w`. The wall is centred.
pub open spec fn slot(i: int, field_w: int) -> Vector {
    Vector {
        x: field_w / 2 - HALF_WALL_WIDTH + (i % 6) * CELL_WIDTH,
        y: WALL_TOP + (i / 6) * CELL_HEIGHT,
    }
}

/// The wall before any block is picked: regular blocks, each in its slot.
pub open spec fn plain_wall(field_w: int) -> Seq<BlockModel> {
    Seq::new(WALL_BLOCKS as nat, |i: int| BlockModel::at(slot(i, field_w), BlockType::Regular))
}

/// The blocks with number `i` made one that releases a ball.
pub open spec fn marked(blocks: Seq<BlockModel>, i: int) -> Seq<BlockModel> {
    blocks.update(i, BlockModel { kind: BlockType::SpawnBallOnDeath, ..blocks[i] })
}

/// The index that a pick settles on: the number drawn, or, where that repeats the
/// pick before, a number drawn anew, which is taken as it comes.
pub open spec fn settled_pick(last: int, drawn: int, redrawn: int) -> int {
    if drawn == last {
        redrawn
    } else {
        drawn
    }
}

/// How many of the blocks release a ball.
pub open spec fn special_count(blocks: Seq<BlockModel>) -> nat
    decreases blocks.len(),
{
    if blocks.len() == 0 {
        0
    } else {
        special_count(blocks.drop_last()) + if blocks.last().kind == BlockType::SpawnBallOnDeath {
            1nat
        } else {
            0nat
        }
    }
}

/// The top-left corner of the wall's block number `i` in a field of width `field_w`.
pub fn slot_of(i: usize, field_w: i64) -> (pos: Vec2)
    requires
        i < WALL_BLOCKS,
        0 <= field_w <= MAX_FIELD,
    ensures
        pos@ == slot(i as int, field_w as int),
        -HALF_WALL_WIDTH <= pos.x <= MAX_FIELD,
        WALL_TOP <= pos.y <= MAX_FIELD,
{
    let column: i64 = (i % WALL_COLUMNS) as i64;
    let row: i64 = (i / WALL_COLUMNS) as i64;
    Vec2 { x: field_w / 2 - HALF_WALL_WIDTH + column * CELL_WIDTH, y: WALL_TOP + row * CELL_HEIGHT }
}

/// Appends the plain wall for a field of width `field_w`.
pub fn build_wall(blocks: &mut Vec<Block>, field_w: i64)
    requires
        0 <= field_w <= MAX_FIELD,
    ensures
        block_models(final(blocks)@) == block_models(old(blocks)@) + plain_wall(field_w as int),
{
    let ghost before = block_models(blocks@);
    let mut i: usize = 0;
    while i < WALL_BLOCKS
        invariant
            i <= WALL_BLOCKS,
            0 <= field_w <= MAX_FIELD,
            block_models(blocks@) == before + plain_wall(field_w as int).take(i as int),
        decreases WALL_BLOCKS - i,
    {
        let ghost shorter = blocks@;
        let block = Block::new(slot_of(i, field_w), BlockType::Regular);
        blocks.push(block);
        assert(block_models(blocks@) =~= block_models(shorter).push(block@));
        assert(block@ == plain_wall(field_w as int)[i as int]);
        assert(block_models(blocks@) =~= before + plain_wall(field_w as int).take(i + 1));
        i = i + 1;
    }
    assert(plain_wall(field_w as int).take(WALL_BLOCKS as int) =~= plain_wall(field_w as int));
}

/// Makes block number `index` one that releases a ball.
pub fn mark_special(blocks: &mut Vec<Block>, index: usize)
    requires
        index < old(blocks).len(),
    ensures
        block_models(final(blocks)@) == marked(block_models(old(blocks)@), index as int),
{
    let mut block = blocks[index];
    block.block_type = BlockType::SpawnBallOnDeath;
    blocks.set(index, block);
    assert(block_models(blocks@) =~= marked(block_models(old(blocks)@), index as int));
}

/// Whether a number drawn repeats the pick before, so that another is drawn.
pub fn repeats(last: usize, drawn: usize) -> (again: bool)
    ensures
        again == (drawn == last),
        forall|redrawn: int| settled_pick(last as int, drawn as int, redrawn) == if again {
            redrawn
        } else {
            drawn as int
        },
{
    drawn == last
}

/// Picks one of `count` blocks at random, where `last` was picked before: draws
/// once, and once more where the first draw repeats `last`.
pub fn pick_special(count: usize, last: usize) -> (chosen: usize)
    requires
        0 < count <= MAX_RANGE,
    ensures
        chosen < count,
        exists|drawn: int, redrawn: int|
            0 <= drawn < count && 0 <= redrawn < count && chosen == #[trigger] settled_pick(
                last as int,
                drawn,
                redrawn,
            ),
{
    let drawn = random_below(0, count);
    if repeats(last, drawn) {
        let redrawn = random_below(0, count);
        assert(redrawn == settled_pick(last as int, drawn as int, redrawn as int));
        redrawn
    } else {
        assert(drawn == settled_pick(last as int, drawn as int, drawn as int));
        drawn
    }
}

/// Appends the wall for a field of width `field_w` and picks three times a block
/// to release a ball. The picks may fall on the same block.
pub fn init_blocks(blocks: &mut Vec<Block>, field_w: i64)
    requires
        old(blocks).len() <= MAX_RANGE - WALL_BLOCKS,
        0 <= field_w <= MAX_FIELD,
    ensures
        is_wall_with_picks(
            block_models(final(blocks)@),
            block_models(old(blocks)@) + plain_wall(field_w as int),
        ),
{
    build_wall(blocks, field_w);
    let ghost plain = block_models(blocks@);
    assert(plain.len() == blocks@.len());
    assert(block_models(old(blocks)@).len() == old(blocks)@.len());
    assert(plain_wall(field_w as int).len() == WALL_BLOCKS);
    assert(plain.len() == old(blocks)@.len() + WALL_BLOCKS);
    let ghost mut picks: Seq<int> = Seq::empty();
    let mut last: usize = WALL_BLOCKS;
    let mut k: usize = 0;
    while k < SPECIAL_PICKS
        invariant
            k <= SPECIAL_PICKS,
            0 < blocks.len() <= MAX_RANGE,
            blocks.len() == plain.len(),
            picks.len() == k,
            forall|j: int| 0 <= j < picks.len() ==> 0 <= #[trigger] picks[j] < plain.len(),
            block_models(blocks@) == marked_all(plain, picks),
        decreases SPECIAL_PICKS - k,
    {
        let chosen = pick_special(blocks.len(), last);
        last = chosen;
        mark_special(blocks, chosen);
        assert(block_models(blocks@).len() == blocks.len());
        proof {
            let longer = picks.push(chosen as int);
            assert(longer.drop_last() =~= picks);
            picks = longer;
        }
        k = k + 1;
    }
}

/// The blocks with each of `picks` made one that releases a ball.
pub open spec fn marked_all(blocks: Seq<BlockModel>, picks: Seq<int>) -> Seq<BlockModel>
    decreases picks.len(),
{
    if picks.len() == 0 {
        blocks
    } else {
        marked(marked_all(blocks, picks.drop_last()), picks.last())
    }
}

/// Whether `blocks` is `plain` after three picks of a block to release a ball.
pub open spec fn is_wall_with_picks(blocks: Seq<BlockModel>, plain: Seq<BlockModel>) -> bool {
    exists|picks: Seq<int>|
        {
            &&& picks.len() == SPECIAL_PICKS
            &&& forall|j: int| 0 <= j < picks.len() ==> 0 <= #[trigger] picks[j] < plain.len()
            &&& blocks == #[trigger] marked_all(plain, picks)
        }
}

/// Marking a block changes at most its kind.
pub proof fn lemma_marked_all_keeps(blocks: Seq<BlockModel>, picks: Seq<int>)
    requires
        forall|j: int| 0 <= j < picks.len() ==> 0 <= #[trigger] picks[j] < blocks.len(),
    ensures
        marked_all(blocks, picks).len() == blocks.len(),
        forall|i: int|
            0 <= i < blocks.len() ==> {
                &&& (#[trigger] marked_all(blocks, picks)[i]).rect == blocks[i].rect
                &&& marked_all(blocks, picks)[i].lives == blocks[i].lives
                &&& marked_all(blocks, picks)[i].kind == if picks.contains(i) {
                    BlockType::SpawnBallOnDeath
                } else {
                    blocks[i].kind
                }
            },
    decreases picks.len(),
{
    if picks.len() > 0 {
        let before = picks.drop_last();
        lemma_marked_all_keeps(blocks, before);
        assert forall|i: int| 0 <= i < blocks.len() implies picks.contains(i) == (before.contains(i)
            || i == picks.last()) by {
            if before.contains(i) {
                let j = choose|j: int| 0 <= j < before.len() && before[j] == i;
                assert(picks[j] == i);
            }
            if picks.contains(i) {
                let j = choose|j: int| 0 <= j < picks.len() && picks[j] == i;
                if j < before.len() {
                    assert(before[j] == i);
                }
            }
            if i == picks.last() {
                assert(picks[picks.len() - 1] == i);
            }
        }
    } else {
        assert forall|i: int| 0 <= i < blocks.len() implies !picks.contains(i) by {}
    }
}

/// Marking a block adds one to the number of those that release a ball, unless it
/// was one already.
pub proof fn lemma_marked_count(blocks: Seq<BlockModel>, i: int)
    requires
        0 <= i < blocks.len(),
    ensures
        special_count(marked(blocks, i)) == special_count(blocks) + if blocks[i].kind
            == BlockType::SpawnBallOnDeath {
            0nat
        } else {
            1nat
        },
    decreases blocks.len(),
{
    let after = marked(blocks, i);
    if i == blocks.len() - 1 {
        assert(after.drop_last() =~= blocks.drop_last());
    } else {
        lemma_marked_count(blocks.drop_last(), i);
        assert(after.drop_last() =~= marked(blocks.drop_last(), i));
    }
}

/// Where no block releases a ball, the count is zero.
pub proof fn lemma_regular_count(blocks: Seq<BlockModel>)
    requires
        forall|i: int| 0 <= i < blocks.len() ==> (#[trigger] blocks[i]).kind == BlockType::Regular,
    ensures
        special_count(blocks) == 0,
    decreases blocks.len(),
{
    if blocks.len() > 0 {
        lemma_regular_count(blocks.drop_last());
    }
}

/// After the three picks on a wall of regular blocks, at least one block and at
/// most three release a ball; exactly three do where the picks fell on three
/// different blocks.
pub proof fn lemma_special_count(plain: Seq<BlockModel>, picks: Seq<int>)
    requires
        picks.len() == SPECIAL_PICKS,
        forall|j: int| 0 <= j < picks.len() ==> 0 <= #[trigger] picks[j] < plain.len(),
        forall|i: int| 0 <= i < plain.len() ==> (#[trigger] plain[i]).kind == BlockType::Regular,
    ensures
        1 <= special_count(marked_all(plain, picks)) <= 3,
        picks[0] != picks[1] && picks[0] != picks[2] && picks[1] != picks[2] ==> special_count(
            marked_all(plain, picks),
        ) == 3,
{
    let none = picks.take(0);
    let one = picks.take(1);
    let two = picks.take(2);
    assert(picks.drop_last() =~= two);
    assert(two.drop_last() =~= one);
    assert(one.drop_last() =~= none);
    let first = marked_all(plain, one);
    let second = marked_all(plain, two);
    let third = marked_all(plain, picks);
    assert(marked_all(plain, none) == plain);
    assert(first == marked(plain, picks[0]));
    assert(second == marked(first, picks[1]));
    assert(third == marked(second, picks[2]));
    lemma_regular_count(plain);
    lemma_marked_count(plain, picks[0]);
    lemma_marked_count(first, picks[1]);
    lemma_marked_count(second, picks[2]);
}

/// The wall that the level builder leaves in a field of width `field_w` has 36
/// blocks with two lives each, every one in its slot, and between one and three of
/// them release a ball.
pub proof fn lemma_wall_with_picks(blocks: Seq<BlockModel>, field_w: int)
    requires
        is_wall_with_picks(blocks, plain_wall(field_w)),
    ensures
        blocks.len() == WALL_BLOCKS,
        forall|i: int|
            0 <= i < WALL_BLOCKS ==> (#[trigger] blocks[i]).rect == BlockModel::at(
                slot(i, field_w),
                BlockType::Regular,
            ).rect && blocks[i].lives == BLOCK_LIVES,
        1 <= special_count(blocks) <= 3,
{
    let plain = plain_wall(field_w);
    let picks = choose|picks: Seq<int>|
        {
            &&& picks.len() == SPECIAL_PICKS
            &&& forall|j: int| 0 <= j < picks.len() ==> 0 <= #[trigger] picks[j] < plain.len()
            &&& blocks == #[trigger] marked_all(plain, picks)
        };
    lemma_marked_all_keeps(plain, picks);
    lemma_special_count(plain, picks);
}

} // verus!
