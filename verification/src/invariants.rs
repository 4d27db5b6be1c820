//! Every frame leaves the game well formed.

use vstd::prelude::*;
use crate::accounts::{
    lemma_alive_count_bound, lemma_alive_count_filter, lemma_strike_accounts, lemma_sweep_accounts,
};
use crate::ball::{
    lemma_bounce_keeps_flight, lemma_launch_is_settled, lemma_update_keeps_flight, within_reach, BallModel,
};
use crate::geometry::{Region, Vector};
use crate::level::{lemma_wall_with_picks, plain_wall};
use crate::player::{lemma_player_stays_placed, player_placed, serve_position};
use crate::rules::{
    balls_in_field, blocks_alive, flown, follows, is_fresh, moved_player, places_in_field, simulate,
    started, step, swept, Field, GameModel, GameState, Input, Strike, Sweep,
};

verus! {

/// The way of a ball in flight through placed blocks leaves it in flight, and
/// every place noted lies within reach.
pub proof fn lemma_strike_flight(s: Strike, n: nat)
    requires
        n <= s.blocks.len(),
        s.ball.in_flight(),
        forall|j: int| 0 <= j < s.blocks.len() ==> (#[trigger] s.blocks[j]).placed(),
        forall|k: int| 0 <= k < s.spawns.len() ==> within_reach(#[trigger] s.spawns[k]),
    ensures
        s.through(n).ball.in_flight(),
        forall|k: int| 0 <= k < s.through(n).spawns.len() ==> within_reach(#[trigger] s.through(n).spawns[k]),
    decreases n,
{
    if n > 0 {
        let before = s.through((n - 1) as nat);
        lemma_strike_flight(s, (n - 1) as nat);
        lemma_strike_accounts(s, (n - 1) as nat);
        lemma_bounce_keeps_flight(before.ball, before.blocks[n - 1].rect);
    }
}

/// The way of balls in flight through a placed paddle and placed blocks leaves
/// them in flight, and every place noted lies within reach.
pub proof fn lemma_sweep_flight(s: Sweep, player: Region, m: nat)
    requires
        m <= s.balls.len(),
        player_placed(player),
        forall|i: int| 0 <= i < s.balls.len() ==> (#[trigger] s.balls[i]).in_flight(),
        forall|j: int| 0 <= j < s.blocks.len() ==> (#[trigger] s.blocks[j]).placed(),
        forall|k: int| 0 <= k < s.spawns.len() ==> within_reach(#[trigger] s.spawns[k]),
    ensures
        forall|i: int|
            0 <= i < s.balls.len() ==> (#[trigger] s.through(player, m).balls[i]).in_flight(),
        forall|k: int|
            0 <= k < s.through(player, m).spawns.len() ==> within_reach(
                #[trigger] s.through(player, m).spawns[k],
            ),
    decreases m,
{
    if m > 0 {
        let before = s.through(player, (m - 1) as nat);
        lemma_sweep_flight(s, player, (m - 1) as nat);
        lemma_sweep_accounts(s, player, (m - 1) as nat);
        lemma_bounce_keeps_flight(before.balls[m - 1], player);
        let start = Strike {
            ball: before.balls[m - 1].bounced(player),
            blocks: before.blocks,
            score: before.score,
            spawns: before.spawns,
        };
        lemma_strike_flight(start, before.blocks.len());
    }
}

/// The balls that stay are balls that have not passed the bottom.
pub proof fn lemma_balls_in_field(balls: Seq<BallModel>, field_h: int)
    ensures
        balls_in_field(balls, field_h).len() <= balls.len(),
        forall|i: int|
            0 <= i < balls_in_field(balls, field_h).len() ==> !(#[trigger] balls_in_field(
                balls,
                field_h,
            )[i]).fallen(field_h) && balls.contains(balls_in_field(balls, field_h)[i]),
    decreases balls.len(),
{
    reveal(Seq::filter);
    if balls.len() > 0 {
        let rest = balls.drop_last();
        lemma_balls_in_field(rest, field_h);
        assert forall|i: int| 0 <= i < balls_in_field(balls, field_h).len() implies balls.contains(
            #[trigger] balls_in_field(balls, field_h)[i],
        ) by {
            if i < balls_in_field(rest, field_h).len() {
                let b = balls_in_field(rest, field_h)[i];
                assert(rest.contains(b));
                let k = choose|k: int| 0 <= k < rest.len() && rest[k] == b;
                assert(balls[k] == b);
            } else {
                assert(balls[balls.len() - 1] == balls.last());
            }
        }
    }
}

/// The places that stay are places above the bottom.
pub proof fn lemma_places_in_field(places: Seq<Vector>, field_h: int)
    ensures
        places_in_field(places, field_h).len() <= places.len(),
        forall|i: int|
            0 <= i < places_in_field(places, field_h).len() ==> (#[trigger] places_in_field(
                places,
                field_h,
            )[i]).y < field_h && places.contains(places_in_field(places, field_h)[i]),
    decreases places.len(),
{
    reveal(Seq::filter);
    if places.len() > 0 {
        let rest = places.drop_last();
        lemma_places_in_field(rest, field_h);
        assert forall|i: int| 0 <= i < places_in_field(places, field_h).len() implies places.contains(
            #[trigger] places_in_field(places, field_h)[i],
        ) by {
            if i < places_in_field(rest, field_h).len() {
                let p = places_in_field(rest, field_h)[i];
                assert(rest.contains(p));
                let k = choose|k: int| 0 <= k < rest.len() && rest[k] == p;
                assert(places[k] == p);
            } else {
                assert(places[places.len() - 1] == places.last());
            }
        }
    }
}

/// A tick of the simulation leaves a well-formed game well formed.
pub proof fn lemma_simulate_keeps_wf(g: GameModel, input: Input, field: Field, after: GameModel)
    requires
        g.wf(),
        g.state == GameState::Game,
        input.fits(),
        field.fits(),
        follows(after, simulate(g, input, field)),
    ensures
        after.wf(),
{
    let dt = input.dt as int;
    let w = field.width as int;
    let h = field.height as int;
    let player = moved_player(g, input, field);
    lemma_player_stays_placed(g.player, dt, input.left, input.right, w);
    let flying = flown(g.balls, dt, w);
    assert forall|i: int| 0 <= i < flying.len() implies (#[trigger] flying[i]).in_flight() by {
        lemma_update_keeps_flight(g.balls[i], dt, w);
    }
    let start = Sweep { balls: flying, blocks: g.blocks, score: g.score, spawns: Seq::empty() };
    let swept = swept(g, input, field);
    lemma_sweep_flight(start, player, g.balls.len());
    lemma_sweep_accounts(start, player, g.balls.len());
    lemma_alive_count_bound(g.blocks);
    let kept = balls_in_field(swept.balls, h);
    let released = places_in_field(swept.spawns, h);
    let blocks = blocks_alive(swept.blocks);
    lemma_balls_in_field(swept.balls, h);
    lemma_places_in_field(swept.spawns, h);
    lemma_alive_count_filter(swept.blocks);
    let tick = simulate(g, input, field);
    assert(tick.game.balls == kept);
    assert(tick.game.blocks == blocks);
    assert forall|j: int| 0 <= j < after.blocks.len() implies (#[trigger] after.blocks[j]).standing() by {
        let b = blocks[j];
        assert(swept.blocks.contains(b));
        let k = choose|k: int| 0 <= k < swept.blocks.len() && swept.blocks[k] == b;
        assert(g.blocks[k].standing());
    }
    assert forall|k: int| 0 <= k < tick.launches.len() implies within_reach(
        #[trigger] tick.launches[k],
    ) by {
        if tick.launches == released {
            let p = released[k];
            assert(swept.spawns.contains(p));
        }
    }
    assert forall|i: int| 0 <= i < after.balls.len() implies (#[trigger] after.balls[i]).settled() by {
        if i < kept.len() {
            assert(after.balls.take(kept.len() as int)[i] == kept[i]);
            let b = kept[i];
            assert(swept.balls.contains(b));
            let k = choose|k: int| 0 <= k < swept.balls.len() && swept.balls[k] == b;
            assert(swept.balls[k].in_flight());
        } else {
            let k = i - kept.len();
            assert(after.balls[kept.len() + k].is_launch(tick.launches[k]));
            lemma_launch_is_settled(after.balls[i], tick.launches[k]);
        }
    }
}

/// The start of play leaves a well-formed game well formed.
pub proof fn lemma_start_keeps_wf(g: GameModel, after: GameModel)
    requires
        g.wf(),
        g.state == GameState::Menu,
        follows(after, started(g)),
    ensures
        after.wf(),
{
    assert(after.balls[started(g).game.balls.len() + 0int].is_launch(started(g).launches[0]));
    lemma_launch_is_settled(after.balls[0], serve_position(g.player));
}

/// A fresh game is well formed.
pub proof fn lemma_fresh_is_wf(g: GameModel, field: Field)
    requires
        field.fits(),
        is_fresh(g, field),
    ensures
        g.wf(),
{
    lemma_wall_with_picks(g.blocks, field.width as int);
    assert forall|j: int| 0 <= j < g.blocks.len() implies (#[trigger] g.blocks[j]).standing() by {
        assert(plain_wall(field.width as int)[j].rect == g.blocks[j].rect);
    }
}

/// Whatever the state and the input, a frame leaves a well-formed game well formed.
pub proof fn lemma_step_keeps_wf(before: GameModel, input: Input, field: Field, after: GameModel)
    requires
        before.wf(),
        input.fits(),
        field.fits(),
        step(before, input, field, after),
    ensures
        after.wf(),
{
    match before.state {
        GameState::Menu => {
            if input.start {
                lemma_start_keeps_wf(before, after);
            }
        },
        GameState::Game => {
            lemma_simulate_keeps_wf(before, input, field, after);
        },
        _ => {
            if input.start {
                lemma_fresh_is_wf(after, field);
            }
        },
    }
}

} // verus!
