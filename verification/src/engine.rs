//! The steps of one tick, on the entities themselves.

use vstd::prelude::*;
use crate::accounts::{alive_count, lemma_meet_accounts, lemma_strike_accounts, lemma_sweep_accounts};
use crate::ball::{
    ball_models, is_bias, lemma_bounce_keeps_flight, lemma_update_keeps_flight, within_reach, Ball, BallModel,
};
use crate::block::{block_models, Block, BlockType};
use crate::collision::resolve_collision;
use crate::geometry::{places, Vec2};
use crate::player::Player;
use crate::rules::{balls_in_field, blocks_alive, flown, places_in_field, Strike, Sweep, BLOCK_SCORE};
use crate::units::{MAX_DT, MAX_FIELD};

verus! {

/// One ball on its way through the wall, as the rules see it.
pub open spec fn strike_of(ball: Ball, blocks: Seq<Block>, score: i32, spawns: Seq<Vec2>) -> Strike {
    Strike { ball: ball@, blocks: block_models(blocks), score: score as int, spawns: places(spawns) }
}

/// All balls on their way through the paddle and the wall, as the rules see it.
pub open spec fn sweep_of(balls: Seq<Ball>, blocks: Seq<Block>, score: i32, spawns: Seq<Vec2>) -> Sweep {
    Sweep {
        balls: ball_models(balls),
        blocks: block_models(blocks),
        score: score as int,
        spawns: places(spawns),
    }
}

/// Lets the ball meet every block of the wall in turn. A block that is touched
/// loses a life; with its last life it adds to the score, and if it is of that
/// kind the place of the ball is noted in `spawns`.
pub fn strike_blocks(ball: &mut Ball, blocks: &mut Vec<Block>, score: &mut i32, spawns: &mut Vec<Vec2>)
    requires
        old(ball)@.in_flight(),
        forall|j: int|
            0 <= j < old(blocks).len() ==> (#[trigger] old(blocks)[j])@.placed() && old(blocks)[j].lives
                > i32::MIN,
        *old(score) + BLOCK_SCORE * alive_count(block_models(old(blocks)@)) <= i32::MAX,
        forall|k: int| 0 <= k < old(spawns).len() ==> within_reach((#[trigger] old(spawns)[k])@),
    ensures
        strike_of(*final(ball), final(blocks)@, *final(score), final(spawns)@) == strike_of(
            *old(ball),
            old(blocks)@,
            *old(score),
            old(spawns)@,
        ).through(old(blocks).len() as nat),
        final(ball)@.in_flight(),
        forall|k: int| 0 <= k < final(spawns).len() ==> within_reach((#[trigger] final(spawns)[k])@),
{
    let ghost start = strike_of(*ball, blocks@, *score, spawns@);
    let n = blocks.len();
    let mut j: usize = 0;
    while j < n
        invariant
            j <= n,
            n == blocks.len(),
            n == start.blocks.len(),
            strike_of(*ball, blocks@, *score, spawns@) == start.through(j as nat),
            ball@.in_flight(),
            forall|i: int| 0 <= i < n ==> (#[trigger] blocks[i])@.placed(),
            forall|i: int| j <= i < n ==> (#[trigger] blocks[i]).lives > i32::MIN,
            *score + BLOCK_SCORE * alive_count(block_models(blocks@)) <= i32::MAX,
            forall|k: int| 0 <= k < spawns.len() ==> within_reach((#[trigger] spawns[k])@),
        decreases n - j,
    {
        let ghost before = strike_of(*ball, blocks@, *score, spawns@);
        let ghost shorter = spawns@;
        let ghost others = blocks@;
        proof {
            lemma_meet_accounts(before, j as int);
            lemma_bounce_keeps_flight(ball@, blocks[j as int]@.rect);
            assert(before.blocks[j as int] == blocks[j as int]@);
        }
        let mut block = blocks[j];
        let hit = resolve_collision(&mut ball.rect, &mut ball.vel, &block.rect);
        if hit {
            let last = block.hit();
            blocks.set(j, block);
            assert(block_models(blocks@) =~= before.blocks.update(j as int, block@));
            if last {
                *score = *score + BLOCK_SCORE;
                if block.block_type == BlockType::SpawnBallOnDeath {
                    spawns.push(ball.rect.point());
                    assert(places(spawns@) =~= places(shorter).push(ball@.rect.point()));
                }
            }
        }
        assert(strike_of(*ball, blocks@, *score, spawns@) == before.meet(j as int));
        j = j + 1;
    }
}

/// Lets every ball meet the paddle and then the wall, one ball after the other.
pub fn sweep_balls(
    balls: &mut Vec<Ball>,
    player: &Player,
    blocks: &mut Vec<Block>,
    score: &mut i32,
    spawns: &mut Vec<Vec2>,
)
    requires
        forall|i: int| 0 <= i < old(balls).len() ==> (#[trigger] old(balls)[i])@.in_flight(),
        player.wf(),
        forall|j: int|
            0 <= j < old(blocks).len() ==> (#[trigger] old(blocks)[j])@.placed() && old(blocks)[j].lives
                - old(balls).len() > i32::MIN,
        *old(score) + BLOCK_SCORE * alive_count(block_models(old(blocks)@)) <= i32::MAX,
        forall|k: int| 0 <= k < old(spawns).len() ==> within_reach((#[trigger] old(spawns)[k])@),
    ensures
        sweep_of(final(balls)@, final(blocks)@, *final(score), final(spawns)@) == sweep_of(
            old(balls)@,
            old(blocks)@,
            *old(score),
            old(spawns)@,
        ).through(player@, old(balls).len() as nat),
        final(balls).len() == old(balls).len(),
        forall|i: int| 0 <= i < final(balls).len() ==> (#[trigger] final(balls)[i])@.in_flight(),
        forall|k: int| 0 <= k < final(spawns).len() ==> within_reach((#[trigger] final(spawns)[k])@),
{
    let ghost start = sweep_of(balls@, blocks@, *score, spawns@);
    let m = balls.len();
    let mut i: usize = 0;
    while i < m
        invariant
            i <= m,
            m == balls.len(),
            m == start.balls.len(),
            blocks.len() == start.blocks.len(),
            player.wf(),
            sweep_of(balls@, blocks@, *score, spawns@) == start.through(player@, i as nat),
            forall|k: int| 0 <= k < m ==> (#[trigger] balls[k])@.in_flight(),
            forall|j: int| 0 <= j < blocks.len() ==> (#[trigger] blocks[j])@.placed(),
            forall|j: int| 0 <= j < blocks.len() ==> (#[trigger] start.blocks[j]).lives - m > i32::MIN,
            start.score + BLOCK_SCORE * alive_count(start.blocks) <= i32::MAX,
            forall|k: int| 0 <= k < spawns.len() ==> within_reach((#[trigger] spawns[k])@),
        decreases m - i,
    {
        let ghost before = sweep_of(balls@, blocks@, *score, spawns@);
        proof {
            lemma_sweep_accounts(start, player@, i as nat);
            lemma_bounce_keeps_flight(balls[i as int]@, player@);
            assert(before.balls[i as int] == balls[i as int]@);
            assert forall|j: int| 0 <= j < blocks.len() implies (#[trigger] blocks[j]).lives
                > i32::MIN by {
                assert(before.blocks[j] == blocks[j]@);
            }
        }
        let mut ball = balls[i];
        resolve_collision(&mut ball.rect, &mut ball.vel, &player.rect);
        strike_blocks(&mut ball, blocks, score, spawns);
        balls.set(i, ball);
        proof {
            assert(ball_models(balls@) =~= before.balls.update(i as int, ball@));
            assert(sweep_of(balls@, blocks@, *score, spawns@) == before.send(player@, i as int));
            lemma_strike_accounts(
                Strike {
                    ball: before.balls[i as int].bounced(player@),
                    blocks: before.blocks,
                    score: before.score,
                    spawns: before.spawns,
                },
                before.blocks.len(),
            );
            assert forall|j: int| 0 <= j < blocks.len() implies (#[trigger] blocks[j])@.placed() by {
                assert(block_models(blocks@)[j] == blocks[j]@);
            }
        }
        i = i + 1;
    }
}

/// Moves every ball for `dt` microseconds in a field of width `field_w`.
pub fn update_balls(balls: &mut Vec<Ball>, dt: i64, field_w: i64)
    requires
        forall|i: int| 0 <= i < old(balls).len() ==> (#[trigger] old(balls)[i])@.settled(),
        0 <= dt <= MAX_DT,
        0 <= field_w <= MAX_FIELD,
    ensures
        ball_models(final(balls)@) == flown(ball_models(old(balls)@), dt as int, field_w as int),
        final(balls).len() == old(balls).len(),
        forall|i: int| 0 <= i < final(balls).len() ==> (#[trigger] final(balls)[i])@.in_flight(),
{
    let m = balls.len();
    let mut i: usize = 0;
    while i < m
        invariant
            i <= m,
            m == balls.len(),
            m == old(balls).len(),
            0 <= dt <= MAX_DT,
            0 <= field_w <= MAX_FIELD,
            forall|k: int| 0 <= k < i ==> (#[trigger] balls[k])@ == old(balls)[k]@.after(dt as int, field_w as int),
            forall|k: int| 0 <= k < i ==> (#[trigger] balls[k])@.in_flight(),
            forall|k: int| i <= k < m ==> (#[trigger] balls[k]) == old(balls)[k],
            forall|k: int| i <= k < m ==> (#[trigger] balls[k])@.settled(),
        decreases m - i,
    {
        proof {
            lemma_update_keeps_flight(balls[i as int]@, dt as int, field_w as int);
        }
        let mut ball = balls[i];
        ball.update(dt, field_w);
        balls.set(i, ball);
        i = i + 1;
    }
    assert(ball_models(balls@) =~= flown(ball_models(old(balls)@), dt as int, field_w as int));
}

/// Removes the balls that have passed the bottom of a field of height `field_h`.
/// Returns how many left.
pub fn remove_fallen(balls: &mut Vec<Ball>, field_h: i64) -> (removed: usize)
    ensures
        ball_models(final(balls)@) == balls_in_field(ball_models(old(balls)@), field_h as int),
        removed == old(balls).len() - final(balls).len(),
        forall|i: int|
            0 <= i < final(balls).len() ==> !(#[trigger] final(balls)[i])@.fallen(field_h as int)
                && old(balls)@.contains(final(balls)[i]),
{
    let ghost all = ball_models(balls@);
    let mut kept: Vec<Ball> = Vec::new();
    let mut removed: usize = 0;
    let m = balls.len();
    let mut i: usize = 0;
    assert(all.take(0) =~= Seq::empty());
    proof {
        reveal(Seq::filter);
    }
    while i < m
        invariant
            i <= m,
            m == balls.len(),
            balls@ == old(balls)@,
            all == ball_models(balls@),
            ball_models(kept@) == balls_in_field(all.take(i as int), field_h as int),
            kept.len() + removed == i,
            forall|k: int|
                0 <= k < kept.len() ==> !(#[trigger] kept[k])@.fallen(field_h as int) && balls@.contains(
                    kept[k],
                ),
        decreases m - i,
    {
        let ghost shorter = kept@;
        let ball = balls[i];
        proof {
            reveal(Seq::filter);
            assert(all.take(i + 1).drop_last() =~= all.take(i as int));
            assert(all.take(i + 1).last() == ball@);
        }
        if ball.fallen(field_h) {
            removed = removed + 1;
        } else {
            kept.push(ball);
            assert(ball_models(kept@) =~= ball_models(shorter).push(ball@));
        }
        i = i + 1;
    }
    assert(all.take(m as int) =~= all);
    *balls = kept;
    removed
}

/// Removes the blocks that have no lives left.
pub fn remove_destroyed(blocks: &mut Vec<Block>)
    ensures
        block_models(final(blocks)@) == blocks_alive(block_models(old(blocks)@)),
        forall|i: int|
            0 <= i < final(blocks).len() ==> (#[trigger] final(blocks)[i])@.alive()
                && old(blocks)@.contains(final(blocks)[i]),
{
    let ghost all = block_models(blocks@);
    let mut kept: Vec<Block> = Vec::new();
    let m = blocks.len();
    let mut i: usize = 0;
    assert(all.take(0) =~= Seq::empty());
    proof {
        reveal(Seq::filter);
    }
    while i < m
        invariant
            i <= m,
            m == blocks.len(),
            blocks@ == old(blocks)@,
            all == block_models(blocks@),
            block_models(kept@) == blocks_alive(all.take(i as int)),
            forall|k: int|
                0 <= k < kept.len() ==> (#[trigger] kept[k])@.alive() && blocks@.contains(kept[k]),
        decreases m - i,
    {
        let ghost shorter = kept@;
        let block = blocks[i];
        proof {
            reveal(Seq::filter);
            assert(all.take(i + 1).drop_last() =~= all.take(i as int));
            assert(all.take(i + 1).last() == block@);
        }
        if !block.destroyed() {
            kept.push(block);
            assert(block_models(kept@) =~= block_models(shorter).push(block@));
        }
        i = i + 1;
    }
    assert(all.take(m as int) =~= all);
    *blocks = kept;
}

/// Creates a ball at each of the places and adds those that have not passed the
/// bottom of a field of height `field_h`. Returns how many were left out.
pub fn release_balls(balls: &mut Vec<Ball>, spawns: &Vec<Vec2>, field_h: i64) -> (removed: usize)
    ensures
        final(balls).len() == old(balls).len() + places_in_field(places(spawns@), field_h as int).len(),
        final(balls)@.take(old(balls).len() as int) == old(balls)@,
        forall|k: int|
            0 <= k < places_in_field(places(spawns@), field_h as int).len() ==> (
            #[trigger] final(balls)[old(balls).len() + k])@.is_launch(
                places_in_field(places(spawns@), field_h as int)[k],
            ),
        removed == spawns.len() - places_in_field(places(spawns@), field_h as int).len(),
{
    let ghost all = places(spawns@);
    let ghost first = balls@;
    let mut removed: usize = 0;
    let n = spawns.len();
    let mut k: usize = 0;
    assert(all.take(0) =~= Seq::empty());
    proof {
        reveal(Seq::filter);
    }
    while k < n
        invariant
            k <= n,
            n == spawns.len(),
            all == places(spawns@),
            first == old(balls)@,
            balls.len() == first.len() + places_in_field(all.take(k as int), field_h as int).len(),
            balls@.take(first.len() as int) == first,
            forall|i: int|
                0 <= i < places_in_field(all.take(k as int), field_h as int).len() ==> (#[trigger] balls[first.len()
                    + i])@.is_launch(places_in_field(all.take(k as int), field_h as int)[i]),
            removed + places_in_field(all.take(k as int), field_h as int).len() == k,
        decreases n - k,
    {
        let ghost shorter = balls@;
        let ghost released = places_in_field(all.take(k as int), field_h as int);
        proof {
            reveal(Seq::filter);
            assert(all.take(k + 1).drop_last() =~= all.take(k as int));
            assert(all.take(k + 1).last() == spawns[k as int]@);
        }
        let ball = Ball::new(spawns[k]);
        proof {
            let bias = choose|bias: int|
                is_bias(bias) && ball@ == #[trigger] BallModel::launched(spawns[k as int]@, bias);
            assert(ball@.rect.y == spawns[k as int]@.y);
        }
        if ball.fallen(field_h) {
            removed = removed + 1;
        } else {
            balls.push(ball);
            assert(balls@.take(first.len() as int) =~= shorter.take(first.len() as int));
            assert forall|i: int|
                0 <= i < places_in_field(all.take(k + 1), field_h as int).len() implies (#[trigger] balls[first.len()
                + i])@.is_launch(places_in_field(all.take(k + 1), field_h as int)[i]) by {
                if i < released.len() {
                    assert(balls[first.len() + i] == shorter[first.len() + i]);
                }
            }
        }
        k = k + 1;
    }
    assert(all.take(n as int) =~= all);
    removed
}

} // verus!
