//! What follows from the rules for every game.

use vstd::prelude::*;
use crate::accounts::lemma_sweep_accounts;
use crate::ball::{lemma_travel_bounds, BallModel};
use crate::block::{BlockModel, BLOCK_LIVES};
use crate::collision::lemma_bounce_from_above;
use crate::geometry::magnitude;
use crate::level::{lemma_wall_with_picks, slot, WALL_BLOCKS};
use crate::player::{player_start, serve_position};
use crate::rules::{
    balls_in_field, blocks_alive, flown, is_fresh, moved_player, places_in_field, simulate, step, swept,
    Field, GameModel, GameState, Input, Strike, Sweep, BLOCK_SCORE, START_LIVES,
};
use crate::units::MAX_DT;

verus! {

/// A ball that lies across the top of a block, within the block's width and with
/// its centre above the block's, is lifted and leaves with a direction that does
/// not point down: its next update takes it no closer to the block. Nothing
/// changes along x. Where the ball did not reach below the block, it comes to
/// rest on the block's top edge.
pub proof fn lemma_ball_leaves_block_upward(ball: BallModel, block: BlockModel, dt: int, field_w: int)
    requires
        ball.shaped(),
        block.placed(),
        block.rect.left() <= ball.rect.left(),
        ball.rect.right() <= block.rect.right(),
        ball.rect.overlaps(block.rect),
        ball.rect.double_center().y < block.rect.double_center().y,
        0 <= dt <= MAX_DT,
    ensures
        ball.bounced(block.rect).vel.y == -magnitude(ball.vel.y),
        ball.bounced(block.rect).vel.y <= 0,
        ball.bounced(block.rect).vel.x == ball.vel.x,
        ball.bounced(block.rect).rect.x == ball.rect.x,
        ball.bounced(block.rect).rect.y <= ball.rect.y,
        ball.rect.bottom() <= block.rect.bottom() ==> ball.bounced(block.rect).rect.bottom()
            == block.rect.top(),
        ball.bounced(block.rect).after(dt, field_w).rect.y <= ball.bounced(block.rect).rect.y,
{
    lemma_bounce_from_above(ball.rect, ball.vel, block.rect);
    lemma_travel_bounds(ball.bounced(block.rect).vel.y, dt);
}

/// In play, a tick never adds a life and takes at most one, and never takes
/// points.
pub proof fn lemma_tick_is_monotone(g: GameModel, input: Input, field: Field)
    ensures
        g.player_lives - 1 <= simulate(g, input, field).game.player_lives <= g.player_lives,
        simulate(g, input, field).game.score >= g.score,
{
    let player = moved_player(g, input, field);
    let start = Sweep {
        balls: flown(g.balls, input.dt as int, field.width as int),
        blocks: g.blocks,
        score: g.score,
        spawns: Seq::empty(),
    };
    lemma_sweep_accounts(start, player, g.balls.len());
}

/// Where the only ball of a game has passed the bottom after it has moved and
/// met the paddle and the wall, and no ball released in this tick stays, the tick
/// leaves no ball of the old ones and takes exactly one life. With a life left one
/// ball is served above the paddle. With none left no ball is served, and the
/// player is dead unless the wall is gone as well.
pub proof fn lemma_life_loss(g: GameModel, input: Input, field: Field)
    requires
        g.state == GameState::Game,
        g.balls.len() == 1,
        swept(g, input, field).balls[0].fallen(field.height as int),
        places_in_field(swept(g, input, field).spawns, field.height as int).len() == 0,
    ensures
        simulate(g, input, field).game.balls.len() == 0,
        simulate(g, input, field).game.player_lives == g.player_lives - 1,
        g.player_lives >= 2 ==> simulate(g, input, field).launches == seq![
            serve_position(moved_player(g, input, field)),
        ],
        g.player_lives <= 1 ==> simulate(g, input, field).launches.len() == 0,
        g.player_lives <= 1 ==> simulate(g, input, field).game.state != GameState::Game,
        g.player_lives <= 1 && simulate(g, input, field).game.blocks.len() > 0 ==> simulate(g, input, field).game.state
            == GameState::Dead,
{
    let player = moved_player(g, input, field);
    let start = Sweep {
        balls: flown(g.balls, input.dt as int, field.width as int),
        blocks: g.blocks,
        score: g.score,
        spawns: Seq::empty(),
    };
    let swept = swept(g, input, field);
    lemma_sweep_accounts(start, player, 1);
    reveal(Seq::filter);
    assert(swept.balls.drop_last().len() == 0);
    assert(balls_in_field(swept.balls.drop_last(), field.height as int).len() == 0);
    assert(balls_in_field(swept.balls, field.height as int).len() == 0);
}

/// Where the wall is down to one block with one life, and the only ball touches
/// that block after it has moved and met the paddle, the tick scores the block,
/// leaves no block and completes the level.
pub proof fn lemma_level_complete(g: GameModel, input: Input, field: Field)
    requires
        g.state == GameState::Game,
        g.balls.len() == 1,
        g.blocks.len() == 1,
        g.blocks[0].lives == 1,
        g.balls[0].after(input.dt as int, field.width as int).bounced(
            moved_player(g, input, field),
        ).rect.overlaps(g.blocks[0].rect),
    ensures
        simulate(g, input, field).game.blocks.len() == 0,
        simulate(g, input, field).game.state == GameState::LevelCompleted,
        simulate(g, input, field).game.score == g.score + BLOCK_SCORE,
{
    let player = moved_player(g, input, field);
    let start = Sweep {
        balls: flown(g.balls, input.dt as int, field.width as int),
        blocks: g.blocks,
        score: g.score,
        spawns: Seq::empty(),
    };
    let none = start.through(player, 0);
    let swept = start.through(player, 1);
    assert(none == start);
    assert(swept == none.send(player, 0));
    let first = Strike {
        ball: start.balls[0].bounced(player),
        blocks: start.blocks,
        score: start.score,
        spawns: start.spawns,
    };
    assert(first.through(0) == first);
    assert(first.through(1) == first.through(0).meet(0));
    assert(swept.blocks == first.through(1).blocks);
    assert(swept.blocks.len() == 1);
    assert(swept.blocks[0].lives == 0);
    reveal(Seq::filter);
    assert(swept.blocks.drop_last().len() == 0);
    assert(blocks_alive(swept.blocks.drop_last()).len() == 0);
    assert(blocks_alive(swept.blocks).len() == 0);
}

/// A reset leaves the same game whatever the game was before: in the menu, with
/// no points, three lives, no ball, the paddle at its centred starting place, and
/// 36 blocks of two lives, each in its slot. Only which blocks release a ball is
/// left to chance.
pub proof fn lemma_reset_is_the_same(
    one: GameModel,
    other: GameModel,
    input: Input,
    field: Field,
    after_one: GameModel,
    after_other: GameModel,
)
    requires
        one.state == GameState::Dead || one.state == GameState::LevelCompleted,
        other.state == GameState::Dead || other.state == GameState::LevelCompleted,
        input.start,
        step(one, input, field, after_one),
        step(other, input, field, after_other),
    ensures
        after_one.state == GameState::Menu,
        after_one.score == 0,
        after_one.player_lives == START_LIVES,
        after_one.balls.len() == 0,
        after_one.blocks.len() == WALL_BLOCKS,
        after_one.player == player_start(field.width as int, field.height as int),
        after_other.state == after_one.state,
        after_other.score == after_one.score,
        after_other.player_lives == after_one.player_lives,
        after_other.player == after_one.player,
        after_other.balls == after_one.balls,
        after_other.blocks.len() == after_one.blocks.len(),
        forall|i: int|
            0 <= i < WALL_BLOCKS ==> (#[trigger] after_other.blocks[i]).rect == after_one.blocks[i].rect
                && after_other.blocks[i].lives == after_one.blocks[i].lives
                && after_one.blocks[i].lives == BLOCK_LIVES
                && after_one.blocks[i].rect.point() == slot(i, field.width as int),
{
    assert(is_fresh(after_one, field));
    assert(is_fresh(after_other, field));
    lemma_wall_with_picks(after_one.blocks, field.width as int);
    lemma_wall_with_picks(after_other.blocks, field.width as int);
    assert(after_one.balls =~= after_other.balls);
}

} // verus!
