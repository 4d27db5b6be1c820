use breakout::block::{Block, BlockType};
use breakout::geometry::{Rect, Vec2};
use breakout::level::{
    build_wall, init_blocks, mark_special, pick_special, repeats, slot_of, CELL_HEIGHT, CELL_WIDTH,
    HALF_WALL_WIDTH, SPECIAL_PICKS, WALL_BLOCKS, WALL_COLUMNS, WALL_TOP,
};
use breakout::units::PIXEL;

fn px(v: i64) -> i64 {
    v * PIXEL
}

fn special_count(blocks: &Vec<Block>) -> usize {
    blocks.iter().filter(|b| b.block_type == BlockType::SpawnBallOnDeath).count()
}

#[test]
fn wall_dimensions() {
    assert_eq!(WALL_COLUMNS, 6);
    assert_eq!(WALL_BLOCKS, 36);
    assert_eq!(SPECIAL_PICKS, 3);
    assert_eq!(CELL_WIDTH, px(105));
    assert_eq!(CELL_HEIGHT, px(45));
    assert_eq!(HALF_WALL_WIDTH, px(315));
    assert_eq!(WALL_TOP, px(50));
}

#[test]
fn slots_run_row_by_row() {
    assert_eq!(slot_of(0, px(800)), Vec2 { x: px(85), y: px(50) });
    assert_eq!(slot_of(1, px(800)), Vec2 { x: px(190), y: px(50) });
    assert_eq!(slot_of(5, px(800)), Vec2 { x: px(610), y: px(50) });
    assert_eq!(slot_of(6, px(800)), Vec2 { x: px(85), y: px(95) });
    assert_eq!(slot_of(7, px(800)), Vec2 { x: px(190), y: px(95) });
    assert_eq!(slot_of(35, px(800)), Vec2 { x: px(610), y: px(275) });
}

#[test]
fn wall_is_centred() {
    let w = px(800);
    let first = slot_of(0, w);
    let last = slot_of(5, w);
    // Five pixels of padding follow the last block of a row.
    assert_eq!(first.x, w - (last.x + px(100) + px(5)));
    // A field narrower than the wall has it hang over on both sides.
    assert_eq!(slot_of(0, px(100)), Vec2 { x: px(-265), y: px(50) });
    assert_eq!(slot_of(0, 0), Vec2 { x: px(-315), y: px(50) });
}

#[test]
fn plain_wall_has_36_regular_blocks() {
    let mut blocks: Vec<Block> = Vec::new();
    build_wall(&mut blocks, px(800));
    assert_eq!(blocks.len(), 36);
    let mut i = 0;
    while i < 36 {
        let pos = slot_of(i, px(800));
        assert_eq!(blocks[i].rect, Rect::new(pos.x, pos.y, px(100), px(40)));
        assert_eq!(blocks[i].lives, 2);
        assert_eq!(blocks[i].block_type, BlockType::Regular);
        i += 1;
    }
}

#[test]
fn build_wall_appends() {
    let mut blocks = vec![Block::new(Vec2 { x: 1, y: 2 }, BlockType::SpawnBallOnDeath)];
    build_wall(&mut blocks, px(800));
    assert_eq!(blocks.len(), 37);
    assert_eq!(blocks[0], Block::new(Vec2 { x: 1, y: 2 }, BlockType::SpawnBallOnDeath));
    assert_eq!(blocks[1], Block::new(slot_of(0, px(800)), BlockType::Regular));
}

#[test]
fn mark_special_changes_the_kind_only() {
    let mut blocks: Vec<Block> = Vec::new();
    build_wall(&mut blocks, px(800));
    let plain = blocks.clone();
    mark_special(&mut blocks, 17);
    let mut i = 0;
    while i < 36 {
        assert_eq!(blocks[i].rect, plain[i].rect);
        assert_eq!(blocks[i].lives, plain[i].lives);
        if i == 17 {
            assert_eq!(blocks[i].block_type, BlockType::SpawnBallOnDeath);
        } else {
            assert_eq!(blocks[i].block_type, BlockType::Regular);
        }
        i += 1;
    }
    mark_special(&mut blocks, 17);
    assert_eq!(special_count(&blocks), 1);
}

#[test]
fn three_different_picks_give_three_special_blocks() {
    let mut blocks: Vec<Block> = Vec::new();
    build_wall(&mut blocks, px(800));
    mark_special(&mut blocks, 0);
    mark_special(&mut blocks, 35);
    mark_special(&mut blocks, 12);
    assert_eq!(special_count(&blocks), 3);
}

#[test]
fn a_repeated_pick_gives_fewer_special_blocks() {
    let mut blocks: Vec<Block> = Vec::new();
    build_wall(&mut blocks, px(800));
    mark_special(&mut blocks, 4);
    mark_special(&mut blocks, 9);
    mark_special(&mut blocks, 4);
    assert_eq!(special_count(&blocks), 2);
}

#[test]
fn repeats_compares_with_the_pick_before() {
    assert!(repeats(5, 5));
    assert!(!repeats(5, 6));
    assert!(repeats(36, 36));
    assert!(!repeats(36, 0));
}

#[test]
fn pick_special_stays_below_the_count() {
    let mut n = 0;
    let mut last = 36;
    while n < 2_000 {
        let chosen = pick_special(36, last);
        assert!(chosen < 36);
        last = chosen;
        n += 1;
    }
    assert_eq!(pick_special(1, 1), 0);
    assert_eq!(pick_special(1, 0), 0);
}

#[test]
fn pick_special_reaches_more_than_one_block() {
    let first = pick_special(36, 36);
    let mut differs = false;
    let mut n = 0;
    while n < 500 {
        if pick_special(36, 36) != first {
            differs = true;
        }
        n += 1;
    }
    assert!(differs);
}

#[test]
fn init_blocks_builds_the_wall_and_picks() {
    let mut round = 0;
    while round < 200 {
        let mut blocks: Vec<Block> = Vec::new();
        init_blocks(&mut blocks, px(800));
        assert_eq!(blocks.len(), 36);
        let mut i = 0;
        while i < 36 {
            let pos = slot_of(i, px(800));
            assert_eq!(blocks[i].rect, Rect::new(pos.x, pos.y, px(100), px(40)));
            assert_eq!(blocks[i].lives, 2);
            i += 1;
        }
        let special = special_count(&blocks);
        assert!(1 <= special && special <= 3);
        round += 1;
    }
}

#[test]
fn init_blocks_mostly_picks_three_different_blocks() {
    let mut threes = 0;
    let mut round = 0;
    while round < 200 {
        let mut blocks: Vec<Block> = Vec::new();
        init_blocks(&mut blocks, px(800));
        if special_count(&blocks) == 3 {
            threes += 1;
        }
        round += 1;
    }
    assert!(threes > 100);
}
