//! The game as a whole: its state, one frame at a time.

use vstd::prelude::*;
use crate::ball::{ball_models, Ball};
use crate::block::{block_models, Block, BlockModel};
use crate::accounts::lemma_alive_count_bound;
use crate::engine::{
    release_balls, remove_destroyed, remove_fallen, sweep_balls, sweep_of, update_balls,
};
use crate::geometry::{places, Vec2};
use crate::invariants::{lemma_fresh_is_wf, lemma_simulate_keeps_wf, lemma_start_keeps_wf};
use crate::level::{init_blocks, plain_wall, WALL_BLOCKS};
use crate::player::Player;
use crate::rules::{
    balls_in_field, follows, is_fresh, places_in_field, simulate, started, step, Field, GameModel,
    GameState, Input, BLOCK_SCORE, MAX_ENTITIES, MAX_SCORE, START_LIVES,
};

verus! {

/// A game: its state, the points and lives of the player, and its entities.
pub struct Game {
    pub state: GameState,
    pub score: i32,
    pub player_lives: i32,
    pub player: Player,
    pub blocks: Vec<Block>,
    pub balls: Vec<Ball>,
}

impl View for Game {
    type V = GameModel;

    open spec fn view(&self) -> GameModel {
        GameModel {
            state: self.state,
            score: self.score as int,
            player_lives: self.player_lives as int,
            player: self.player@,
            blocks: block_models(self.blocks@),
            balls: ball_models(self.balls@),
        }
    }
}

/// Resets everything for a new game in the given field: no points, all lives, the
/// paddle at its starting place, no ball, and a new wall.
pub fn reset_game(
    score: &mut i32,
    player_lives: &mut i32,
    blocks: &mut Vec<Block>,
    balls: &mut Vec<Ball>,
    player: &mut Player,
    field: Field,
)
    requires
        field.fits(),
    ensures
        is_fresh(
            GameModel {
                state: GameState::Menu,
                score: *final(score) as int,
                player_lives: *final(player_lives) as int,
                player: final(player)@,
                blocks: block_models(final(blocks)@),
                balls: ball_models(final(balls)@),
            },
            field,
        ),
{
    *player = Player::new(field.width, field.height);
    *score = 0;
    *player_lives = START_LIVES;
    balls.clear();
    blocks.clear();
    assert(block_models(blocks@) =~= Seq::empty());
    init_blocks(blocks, field.width);
    assert(Seq::<BlockModel>::empty() + plain_wall(field.width as int) =~= plain_wall(
        field.width as int,
    ));
}

impl Game {
    /// What holds of a game at all times: see `GameModel::wf`.
    pub open spec fn wf(&self) -> bool {
        self@.wf()
    }

    /// Whether the game is well formed.
    pub fn is_well_formed(&self) -> (ok: bool)
        ensures
            ok == self.wf(),
    {
        let ghost g = self@;
        if !self.player.is_placed() {
            return false;
        }
        let blocks = self.blocks.len();
        let balls = self.balls.len();
        if blocks > WALL_BLOCKS || balls > MAX_ENTITIES - blocks {
            return false;
        }
        let mut j: usize = 0;
        while j < blocks
            invariant
                j <= blocks,
                blocks == self.blocks.len(),
                g == self@,
                forall|k: int| 0 <= k < j ==> (#[trigger] g.blocks[k]).standing(),
            decreases blocks - j,
        {
            assert(g.blocks[j as int] == self.blocks[j as int]@);
            if !self.blocks[j].is_standing() {
                return false;
            }
            j = j + 1;
        }
        let mut i: usize = 0;
        while i < balls
            invariant
                i <= balls,
                balls == self.balls.len(),
                g == self@,
                forall|k: int| 0 <= k < i ==> (#[trigger] g.balls[k]).settled(),
            decreases balls - i,
        {
            assert(g.balls[i as int] == self.balls[i as int]@);
            if !self.balls[i].is_settled() {
                return false;
            }
            i = i + 1;
        }
        if self.score < 0 || self.score > MAX_SCORE - BLOCK_SCORE * (blocks as i32) {
            return false;
        }
        if self.player_lives < 0 || self.player_lives > START_LIVES {
            return false;
        }
        match self.state {
            GameState::Menu => self.score == 0 && self.player_lives == START_LIVES && blocks
                == WALL_BLOCKS && balls == 0,
            GameState::Game => self.player_lives >= 1 && balls >= 1,
            GameState::Dead => self.player_lives == 0,
            GameState::LevelCompleted => true,
        }
    }

    /// A new game in the given field, in the menu.
    pub fn new(field: Field) -> (g: Game)
        requires
            field.fits(),
        ensures
            is_fresh(g@, field),
            g.wf(),
    {
        let mut g = Game {
            state: GameState::Menu,
            score: 0,
            player_lives: START_LIVES,
            player: Player::new(field.width, field.height),
            blocks: Vec::new(),
            balls: Vec::new(),
        };
        reset_game(&mut g.score, &mut g.player_lives, &mut g.blocks, &mut g.balls, &mut g.player, field);
        proof {
            lemma_fresh_is_wf(g@, field);
        }
        g
    }

    /// Starts play from the menu: serves the first ball.
    pub fn start(&mut self)
        requires
            old(self).wf(),
            old(self).state == GameState::Menu,
        ensures
            follows(final(self)@, started(old(self)@)),
            final(self).wf(),
    {
        let ghost before = self.balls@;
        self.state = GameState::Game;
        let ball = Ball::new(self.player.serve_position());
        self.balls.push(ball);
        proof {
            assert(ball_models(self.balls@) =~= ball_models(before).push(ball@));
            assert(ball_models(self.balls@).take(before.len() as int) =~= ball_models(before));
            assert(self@.balls[started(old(self)@).game.balls.len() + 0int] == ball@);
            lemma_start_keeps_wf(old(self)@, self@);
        }
    }

    /// Resets the game for the given field and returns to the menu.
    pub fn restart(&mut self, field: Field)
        requires
            field.fits(),
        ensures
            is_fresh(final(self)@, field),
            final(self).wf(),
    {
        self.state = GameState::Menu;
        reset_game(
            &mut self.score,
            &mut self.player_lives,
            &mut self.blocks,
            &mut self.balls,
            &mut self.player,
            field,
        );
        proof {
            lemma_fresh_is_wf(self@, field);
        }
    }

    /// Runs one tick of the simulation.
    pub fn simulate(&mut self, input: Input, field: Field)
        requires
            old(self).wf(),
            old(self).state == GameState::Game,
            input.fits(),
            field.fits(),
        ensures
            follows(final(self)@, simulate(old(self)@, input, field)),
            final(self).wf(),
    {
        let ghost g = self@;
        proof {
            assert forall|i: int| 0 <= i < self.balls.len() implies (#[trigger] self.balls[i])@.settled() by {
                assert(g.balls[i] == self.balls[i]@);
            }
            assert forall|j: int| 0 <= j < self.blocks.len() implies (#[trigger] self.blocks[j])@.standing() by {
                assert(g.blocks[j] == self.blocks[j]@);
            }
            lemma_alive_count_bound(g.blocks);
        }
        self.player.update(input.dt, input.left, input.right, field.width);
        update_balls(&mut self.balls, input.dt, field.width);
        let mut spawns: Vec<Vec2> = Vec::new();
        assert(places(spawns@) =~= Seq::empty());
        sweep_balls(&mut self.balls, &self.player, &mut self.blocks, &mut self.score, &mut spawns);
        let ghost swept = sweep_of(self.balls@, self.blocks@, self.score, spawns@);
        assert(swept == crate::rules::swept(g, input, field));
        let fallen = remove_fallen(&mut self.balls, field.height);
        let ghost kept = self.balls@;
        let unreleased = release_balls(&mut self.balls, &spawns, field.height);
        let ghost released = places_in_field(swept.spawns, field.height as int);
        proof {
            assert(ball_models(kept) == balls_in_field(swept.balls, field.height as int));
            assert(ball_models(self.balls@).take(kept.len() as int) =~= ball_models(kept));
            assert forall|i: int| 0 <= i < released.len() implies (#[trigger] ball_models(
                self.balls@,
            )[kept.len() + i]).is_launch(released[i]) by {
                assert(ball_models(self.balls@)[kept.len() + i] == self.balls[kept.len() + i]@);
            }
        }
        if (fallen > 0 || unreleased > 0) && self.balls.len() == 0 {
            self.player_lives = self.player_lives - 1;
            if self.player_lives >= 1 {
                let ball = Ball::new(self.player.serve_position());
                self.balls.push(ball);
                assert(ball_models(self.balls@) =~= seq![ball@]);
                assert(ball_models(self.balls@).take(0) =~= ball_models(kept));
                assert(ball_models(self.balls@)[kept.len() + 0int] == ball@);
            }
            if self.player_lives <= 0 {
                self.state = GameState::Dead;
            }
        }
        remove_destroyed(&mut self.blocks);
        if self.blocks.len() == 0 {
            self.state = GameState::LevelCompleted;
        }
        proof {
            lemma_simulate_keeps_wf(old(self)@, input, field, self@);
        }
    }

    /// Runs one frame: starts play, simulates, or resets, as the state and the
    /// input ask.
    pub fn tick(&mut self, input: Input, field: Field)
        requires
            old(self).wf(),
            input.fits(),
            field.fits(),
        ensures
            step(old(self)@, input, field, final(self)@),
            final(self).wf(),
    {
        match self.state {
            GameState::Menu => {
                if input.start {
                    self.start();
                }
            },
            GameState::Game => {
                self.simulate(input, field);
            },
            GameState::LevelCompleted | GameState::Dead => {
                if input.start {
                    self.restart(field);
                }
            },
        }
    }
}

} // verus!
