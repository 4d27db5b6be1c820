//! The blocks of the wall.

use vstd::prelude::*;
use crate::geometry::{Rect, Region, Vec2, Vector};
use crate::units::{BLOCK_HEIGHT, BLOCK_WIDTH, MAX_FIELD};

verus! {

/// Hits a new block withstands.
pub const BLOCK_LIVES: i32 = 2;

/// What a block does when it is destroyed.
#[derive(Clone, Copy, Debug, PartialEq, Eq, Structural)]
pub enum BlockType {
    Regular,
    SpawnBallOnDeath,
}

/// How a block is to be shown.
#[derive(Clone, Copy, Debug, PartialEq, Eq, Structural)]
pub enum Shade {
    /// A regular block that was never hit.
    Intact,
    /// A regular block that was hit.
    Worn,
    /// A block that releases a ball.
    Special,
}

/// A block: where it is, how many hits it still withstands, and its kind.
pub struct BlockModel {
    pub rect: Region,
    pub lives: int,
    pub kind: BlockType,
}

impl BlockModel {
    /// A new block with its top-left corner at `pos`.
    pub open spec fn at(pos: Vector, kind: BlockType) -> BlockModel {
        BlockModel {
            rect: Region { x: pos.x, y: pos.y, w: BLOCK_WIDTH as int, h: BLOCK_HEIGHT as int },
            lives: BLOCK_LIVES as int,
            kind,
        }
    }

    /// The block after one hit.
    pub open spec fn hit(self) -> BlockModel {
        BlockModel { lives: self.lives - 1, ..self }
    }

    /// The block after `n` hits.
    pub open spec fn hit_times(self, n: nat) -> BlockModel
        decreases n,
    {
        if n == 0 {
            self
        } else {
            self.hit_times((n - 1) as nat).hit()
        }
    }

    /// Whether the block has no lives left and is to leave the wall.
    pub open spec fn destroyed(self) -> bool {
        self.lives <= 0
    }

    /// Whether the block has lives left.
    pub open spec fn alive(self) -> bool {
        self.lives >= 1
    }

    /// How the block is to be shown.
    pub open spec fn shade(self) -> Shade {
        match self.kind {
            BlockType::Regular => if self.lives == BLOCK_LIVES {
                Shade::Intact
            } else {
                Shade::Worn
            },
            BlockType::SpawnBallOnDeath => Shade::Special,
        }
    }

    /// The block has its fixed size and lies no further out than a field can put it.
    pub open spec fn placed(self) -> bool {
        &&& self.rect.w == BLOCK_WIDTH
        &&& self.rect.h == BLOCK_HEIGHT
        &&& -MAX_FIELD <= self.rect.x <= MAX_FIELD
        &&& -MAX_FIELD <= self.rect.y <= MAX_FIELD
    }

    /// What holds of a block of the wall between two ticks: it is placed and has at
    /// least one life and at most those of a new block.
    pub open spec fn standing(self) -> bool {
        self.placed() && 1 <= self.lives <= BLOCK_LIVES
    }
}

/// A block of the wall.
#[derive(Clone, Copy, Debug, PartialEq, Eq, Structural)]
pub struct Block {
    pub rect: Rect,
    pub lives: i32,
    pub block_type: BlockType,
}

impl View for Block {
    type V = BlockModel;

    open spec fn view(&self) -> BlockModel {
        BlockModel { rect: self.rect@, lives: self.lives as int, kind: self.block_type }
    }
}

/// The blocks that a vector holds.
pub open spec fn block_models(blocks: Seq<Block>) -> Seq<BlockModel> {
    Seq::new(blocks.len(), |i: int| blocks[i]@)
}

impl Block {
    /// A new block with its top-left corner at `pos`.
    pub fn new(pos: Vec2, block_type: BlockType) -> (b: Block)
        ensures
            b@ == BlockModel::at(pos@, block_type),
    {
        Block { rect: Rect::new(pos.x, pos.y, BLOCK_WIDTH, BLOCK_HEIGHT), lives: BLOCK_LIVES, block_type }
    }

    /// Takes one life. Returns whether this hit took the last one.
    pub fn hit(&mut self) -> (last: bool)
        requires
            old(self).lives > i32::MIN,
        ensures
            final(self)@ == old(self)@.hit(),
            last == (final(self).lives == 0),
    {
        self.lives = self.lives - 1;
        self.lives == 0
    }

    /// Whether the block has no lives left.
    pub fn destroyed(&self) -> (d: bool)
        ensures
            d == self@.destroyed(),
    {
        self.lives <= 0
    }

    /// Whether the block is placed and has between one life and those of a new block.
    pub fn is_standing(&self) -> (ok: bool)
        ensures
            ok == self@.standing(),
    {
        self.rect.w == BLOCK_WIDTH && self.rect.h == BLOCK_HEIGHT && -MAX_FIELD <= self.rect.x
            && self.rect.x <= MAX_FIELD && -MAX_FIELD <= self.rect.y && self.rect.y <= MAX_FIELD && 1
            <= self.lives && self.lives <= BLOCK_LIVES
    }

    /// How the block is to be shown.
    pub fn shade(&self) -> (s: Shade)
        ensures
            s == self@.shade(),
    {
        match self.block_type {
            BlockType::Regular => if self.lives == BLOCK_LIVES {
                Shade::Intact
            } else {
                Shade::Worn
            },
            BlockType::SpawnBallOnDeath => Shade::Special,
        }
    }
}

/// Each hit takes exactly one life.
pub proof fn lemma_hits_count(b: BlockModel, n: nat)
    ensures
        b.hit_times(n).lives == b.lives - n,
        b.hit_times(n).rect == b.rect,
        b.hit_times(n).kind == b.kind,
    decreases n,
{
    if n > 0 {
        lemma_hits_count(b, (n - 1) as nat);
    }
}

/// A block is destroyed by exactly as many hits as it has lives: fewer leave it
/// standing. A new block has two lives, so it stands after one hit and is
/// destroyed by the second.
pub proof fn lemma_block_destruction(b: BlockModel, n: nat)
    requires
        b.alive(),
    ensures
        b.hit_times(n).destroyed() <==> n >= b.lives,
        b.lives == BLOCK_LIVES ==> !b.destroyed() && !b.hit().destroyed() && b.hit().hit().destroyed()
            && b.hit().hit().lives <= 0,
{
    lemma_hits_count(b, n);
}

} // verus!
