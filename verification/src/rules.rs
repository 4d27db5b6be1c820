//! The rules of the game, stated over the models of its entities: what one tick
//! of the simulation makes of a game, and what the game does between its states.

use vstd::prelude::*;
use crate::ball::BallModel;
use crate::block::{BlockModel, BlockType};
use crate::geometry::{Region, Vector};
use crate::level::{is_wall_with_picks, plain_wall, WALL_BLOCKS};
use crate::player::{player_after, player_placed, player_start, serve_position};
use crate::units::{MAX_DT, MAX_FIELD};

verus! {

/// Points for a destroyed block.
pub const BLOCK_SCORE: i32 = 10;

/// Lives at the start of a game.
pub const START_LIVES: i32 = 3;

/// Most balls and blocks that a game holds together.
pub const MAX_ENTITIES: usize = 37;

/// Most points that a game can hold: those of a whole wall.
pub const MAX_SCORE: i32 = 360;

/// Where the game stands.
#[derive(Clone, Copy, Debug, PartialEq, Eq, Structural)]
pub enum GameState {
    Menu,
    Game,
    LevelCompleted,
    Dead,
}

/// The size of the play field.
#[derive(Clone, Copy, Debug, PartialEq, Eq, Structural)]
pub struct Field {
    pub width: i64,
    pub height: i64,
}

impl Field {
    /// Neither side is negative or exceeds `MAX_FIELD`.
    pub open spec fn fits(&self) -> bool {
        0 <= self.width <= MAX_FIELD && 0 <= self.height <= MAX_FIELD
    }

    /// Whether the field fits.
    pub fn in_range(&self) -> (ok: bool)
        ensures
            ok == self.fits(),
    {
        0 <= self.width && self.width <= MAX_FIELD && 0 <= self.height && self.height <= MAX_FIELD
    }
}

/// What the outside world reports for one frame: the time since the last one in
/// microseconds, which keys are held, and whether the start key was pressed.
#[derive(Clone, Copy, Debug, PartialEq, Eq, Structural)]
pub struct Input {
    pub dt: i64,
    pub left: bool,
    pub right: bool,
    pub start: bool,
}

impl Input {
    /// The frame time is not negative and does not exceed `MAX_DT`.
    pub open spec fn fits(&self) -> bool {
        0 <= self.dt <= MAX_DT
    }

    /// Whether the input fits.
    pub fn in_range(&self) -> (ok: bool)
        ensures
            ok == self.fits(),
    {
        0 <= self.dt && self.dt <= MAX_DT
    }
}

/// A game: its state, the points and lives of the player, and its entities.
pub struct GameModel {
    pub state: GameState,
    pub score: int,
    pub player_lives: int,
    pub player: Region,
    pub blocks: Seq<BlockModel>,
    pub balls: Seq<BallModel>,
}

impl GameModel {
    /// What holds of a game at all times.
    ///
    /// The paddle is placed, the blocks are standing and the balls settled. Balls
    /// and blocks together are at most `MAX_ENTITIES`, the blocks at most a wall.
    /// The points and ten for each block do not exceed `MAX_SCORE`. The lives are
    /// between none and `START_LIVES`. In the menu the game is untouched: no
    /// points, all lives, a whole wall, no ball. In play there is a life and a
    /// ball. A dead player has no life.
    pub open spec fn wf(self) -> bool {
        &&& player_placed(self.player)
        &&& forall|j: int| 0 <= j < self.blocks.len() ==> (#[trigger] self.blocks[j]).standing()
        &&& forall|i: int| 0 <= i < self.balls.len() ==> (#[trigger] self.balls[i]).settled()
        &&& self.blocks.len() <= WALL_BLOCKS
        &&& self.balls.len() + self.blocks.len() <= MAX_ENTITIES
        &&& 0 <= self.score
        &&& self.score + BLOCK_SCORE * self.blocks.len() <= MAX_SCORE
        &&& 0 <= self.player_lives <= START_LIVES
        &&& self.state == GameState::Menu ==> {
            &&& self.score == 0
            &&& self.player_lives == START_LIVES
            &&& self.blocks.len() == WALL_BLOCKS
            &&& self.balls.len() == 0
        }
        &&& self.state == GameState::Game ==> self.player_lives >= 1 && self.balls.len() >= 1
        &&& self.state == GameState::Dead ==> self.player_lives == 0
    }
}

/// The balls after `dt` microseconds of flight in a field of width `field_w`.
pub open spec fn flown(balls: Seq<BallModel>, dt: int, field_w: int) -> Seq<BallModel> {
    Seq::new(balls.len(), |i: int| balls[i].after(dt, field_w))
}

/// One ball on its way through the wall: the ball, the blocks, the points, and the
/// places where destroyed blocks release a ball.
pub struct Strike {
    pub ball: BallModel,
    pub blocks: Seq<BlockModel>,
    pub score: int,
    pub spawns: Seq<Vector>,
}

impl Strike {
    /// The ball meets block number `j`. Where they touch, the ball bounces and the
    /// block loses a life; where that was its last, the block scores, and releases
    /// a ball at the place of the bounced ball if it is of that kind.
    pub open spec fn meet(self, j: int) -> Strike {
        let target = self.blocks[j];
        if self.ball.rect.overlaps(target.rect) {
            let ball = self.ball.bounced(target.rect);
            let block = target.hit();
            Strike {
                ball,
                blocks: self.blocks.update(j, block),
                score: if block.lives == 0 {
                    self.score + BLOCK_SCORE
                } else {
                    self.score
                },
                spawns: if block.lives == 0 && block.kind == BlockType::SpawnBallOnDeath {
                    self.spawns.push(ball.rect.point())
                } else {
                    self.spawns
                },
            }
        } else {
            self
        }
    }

    /// The ball meets the first `n` blocks, one after the other.
    pub open spec fn through(self, n: nat) -> Strike
        decreases n,
    {
        if n == 0 {
            self
        } else {
            self.through((n - 1) as nat).meet(n - 1)
        }
    }
}

/// All balls on their way through the paddle and the wall.
pub struct Sweep {
    pub balls: Seq<BallModel>,
    pub blocks: Seq<BlockModel>,
    pub score: int,
    pub spawns: Seq<Vector>,
}

impl Sweep {
    /// Ball number `i` meets the paddle and then every block of the wall.
    pub open spec fn send(self, player: Region, i: int) -> Sweep {
        let done = Strike {
            ball: self.balls[i].bounced(player),
            blocks: self.blocks,
            score: self.score,
            spawns: self.spawns,
        }.through(self.blocks.len());
        Sweep {
            balls: self.balls.update(i, done.ball),
            blocks: done.blocks,
            score: done.score,
            spawns: done.spawns,
        }
    }

    /// The first `m` balls meet the paddle and the wall, one after the other.
    pub open spec fn through(self, player: Region, m: nat) -> Sweep
        decreases m,
    {
        if m == 0 {
            self
        } else {
            self.through(player, (m - 1) as nat).send(player, m - 1)
        }
    }
}

/// The balls that have not passed the bottom of a field of height `field_h`.
pub open spec fn balls_in_field(balls: Seq<BallModel>, field_h: int) -> Seq<BallModel> {
    balls.filter(|b: BallModel| !b.fallen(field_h))
}

/// The places that are not below the bottom of a field of height `field_h`.
pub open spec fn places_in_field(places: Seq<Vector>, field_h: int) -> Seq<Vector> {
    places.filter(|p: Vector| p.y < field_h)
}

/// The blocks that have lives left.
pub open spec fn blocks_alive(blocks: Seq<BlockModel>) -> Seq<BlockModel> {
    blocks.filter(|b: BlockModel| b.alive())
}

/// What a tick leaves: the game with the balls that stay, and the places at
/// which new balls set out. Only the bias of a new ball is left to chance.
pub struct Tick {
    pub game: GameModel,
    pub launches: Seq<Vector>,
}

/// The paddle after it has moved in this tick.
pub open spec fn moved_player(g: GameModel, input: Input, field: Field) -> Region {
    player_after(g.player, input.dt as int, input.left, input.right, field.width as int)
}

/// The balls, the blocks, the points and the places of release after the paddle
/// and the balls have moved and every ball has met the paddle and the wall.
pub open spec fn swept(g: GameModel, input: Input, field: Field) -> Sweep {
    Sweep {
        balls: flown(g.balls, input.dt as int, field.width as int),
        blocks: g.blocks,
        score: g.score,
        spawns: Seq::empty(),
    }.through(moved_player(g, input, field), g.balls.len())
}

/// One tick of the simulation: the paddle and the balls move; each ball meets the
/// paddle and the wall; destroyed blocks score and may release a ball; balls that
/// have passed the bottom leave; where that leaves no ball a life is lost, and a
/// ball is served if lives remain; destroyed blocks leave. With no block left the
/// level is completed; else with no life left the player is dead.
pub open spec fn simulate(g: GameModel, input: Input, field: Field) -> Tick {
    let player = moved_player(g, input, field);
    let swept = swept(g, input, field);
    let kept = balls_in_field(swept.balls, field.height as int);
    let released = places_in_field(swept.spawns, field.height as int);
    let removed = (swept.balls.len() - kept.len()) + (swept.spawns.len() - released.len());
    let lost = removed > 0 && kept.len() == 0 && released.len() == 0;
    let player_lives = if lost {
        g.player_lives - 1
    } else {
        g.player_lives
    };
    let blocks = blocks_alive(swept.blocks);
    Tick {
        game: GameModel {
            state: if blocks.len() == 0 {
                GameState::LevelCompleted
            } else if lost && player_lives <= 0 {
                GameState::Dead
            } else {
                GameState::Game
            },
            score: swept.score,
            player_lives,
            player,
            blocks,
            balls: kept,
        },
        launches: if lost && player_lives >= 1 {
            seq![serve_position(player)]
        } else {
            released
        },
    }
}

/// Whether `after` is what `tick` leaves: the game of `tick`, with one new ball at
/// each of its launch places behind the balls that stay.
pub open spec fn follows(after: GameModel, tick: Tick) -> bool {
    &&& after.state == tick.game.state
    &&& after.score == tick.game.score
    &&& after.player_lives == tick.game.player_lives
    &&& after.player == tick.game.player
    &&& after.blocks == tick.game.blocks
    &&& after.balls.len() == tick.game.balls.len() + tick.launches.len()
    &&& after.balls.take(tick.game.balls.len() as int) == tick.game.balls
    &&& forall|i: int|
        0 <= i < tick.launches.len() ==> (#[trigger] after.balls[tick.game.balls.len() + i]).is_launch(
            tick.launches[i],
        )
}

/// The start of play: the game goes on in state `Game` with a ball served.
pub open spec fn started(g: GameModel) -> Tick {
    Tick { game: GameModel { state: GameState::Game, ..g }, launches: seq![serve_position(g.player)] }
}

/// Whether `g` is a game as a full reset leaves it in the given field: in the
/// menu, with no points, three lives, the paddle at its starting place, no ball,
/// and the wall of the level builder.
pub open spec fn is_fresh(g: GameModel, field: Field) -> bool {
    &&& g.state == GameState::Menu
    &&& g.score == 0
    &&& g.player_lives == START_LIVES
    &&& g.player == player_start(field.width as int, field.height as int)
    &&& g.balls.len() == 0
    &&& is_wall_with_picks(g.blocks, plain_wall(field.width as int))
}

/// Whether `after` can follow `before` in one frame with the given input and field.
///
/// In the menu the start key starts play. In play the simulation runs. After the
/// level is completed or the player has died, the start key resets the game and
/// leads back to the menu. Nothing else changes anything.
pub open spec fn step(before: GameModel, input: Input, field: Field, after: GameModel) -> bool {
    match before.state {
        GameState::Menu => if input.start {
            follows(after, started(before))
        } else {
            after == before
        },
        GameState::Game => follows(after, simulate(before, input, field)),
        GameState::LevelCompleted | GameState::Dead => if input.start {
            is_fresh(after, field)
        } else {
            after == before
        },
    }
}

} // verus!
