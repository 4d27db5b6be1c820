use breakout::ball::{Ball, BIASES, MAX_STEP, REACH};
use breakout::block::{Block, BlockType, Shade, BLOCK_LIVES};
use breakout::collision::resolve_collision;
use breakout::geometry::{Rect, Vec2};
use breakout::player::Player;
use breakout::units::{
    BALL_SIZE, BLOCK_HEIGHT, BLOCK_WIDTH, MAX_DT, MAX_FIELD, PIXEL, PLAYER_HEIGHT, PLAYER_WIDTH, UNIT,
};

fn px(v: i64) -> i64 {
    v * PIXEL
}

#[test]
fn units_agree() {
    assert_eq!(PLAYER_WIDTH, px(150));
    assert_eq!(PLAYER_HEIGHT, px(40));
    assert_eq!(BLOCK_WIDTH, px(100));
    assert_eq!(BLOCK_HEIGHT, px(40));
    assert_eq!(BALL_SIZE, px(50));
    assert_eq!(MAX_FIELD, px(1_000_000));
    assert_eq!(MAX_DT, 1_000_000);
    assert_eq!(UNIT, 1_000);
    assert_eq!(BIASES as i64, 2 * UNIT);
    assert_eq!(MAX_STEP, px(400));
    assert_eq!(REACH, MAX_FIELD + px(250));
}

#[test]
fn player_starts_centred_above_the_bottom() {
    let p = Player::new(px(800), px(600));
    assert_eq!(p.rect, Rect::new(px(325), px(500), px(150), px(40)));
    let p = Player::new(0, 0);
    assert_eq!(p.rect, Rect::new(px(-75), px(-100), px(150), px(40)));
}

#[test]
fn player_moves_with_the_held_keys() {
    let mut p = Player::new(px(800), px(600));
    // 10 ms at 700 pixels per second: 7 pixels.
    p.update(10_000, true, false, px(800));
    assert_eq!(p.rect, Rect::new(px(318), px(500), px(150), px(40)));
    p.update(10_000, false, true, px(800));
    assert_eq!(p.rect.x, px(325));
    p.update(10_000, true, true, px(800));
    assert_eq!(p.rect.x, px(325));
    p.update(10_000, false, false, px(800));
    assert_eq!(p.rect.x, px(325));
    p.update(1, false, true, px(800));
    assert_eq!(p.rect.x, px(325) + 700_000);
}

#[test]
fn player_is_clamped_to_the_field() {
    let mut p = Player::new(px(800), px(600));
    p.update(MAX_DT, true, false, px(800));
    assert_eq!(p.rect.x, 0);
    p.update(MAX_DT, false, true, px(800));
    assert_eq!(p.rect.x, px(650));
    p.update(MAX_DT, false, true, px(800));
    assert_eq!(p.rect.x, px(650));
    // The field shrinks: the paddle is pulled in without a key held.
    p.update(0, false, false, px(400));
    assert_eq!(p.rect.x, px(250));
    assert_eq!(p.rect.y, px(500));
}

#[test]
fn player_in_a_field_narrower_than_itself_hangs_over_on_the_left() {
    let mut p = Player::new(px(100), px(600));
    p.update(10_000, false, true, px(100));
    assert_eq!(p.rect.x, px(-50));
}

#[test]
fn player_stays_in_the_field_whatever_is_held() {
    let width = px(640);
    let mut p = Player::new(width, px(480));
    let mut seed: u64 = 12345;
    let mut n = 0;
    while n < 10_000 {
        seed = seed.wrapping_mul(6364136223846793005).wrapping_add(1442695040888963407);
        let left = (seed >> 33) & 1 == 1;
        let right = (seed >> 34) & 1 == 1;
        let dt = 1 + ((seed >> 40) % 50_000) as i64;
        p.update(dt, left, right, width);
        assert!(0 <= p.rect.x && p.rect.x <= width - PLAYER_WIDTH);
        assert_eq!(p.rect.y, px(380));
        n += 1;
    }
}

#[test]
fn serve_position_is_above_right_of_the_paddle() {
    let p = Player::new(px(800), px(600));
    assert_eq!(p.serve_position(), Vec2 { x: px(425), y: px(450) });
}

#[test]
fn new_block_has_two_lives() {
    let b = Block::new(Vec2 { x: px(10), y: px(20) }, BlockType::Regular);
    assert_eq!(b.rect, Rect::new(px(10), px(20), px(100), px(40)));
    assert_eq!(b.lives, 2);
    assert_eq!(BLOCK_LIVES, 2);
    assert_eq!(b.block_type, BlockType::Regular);
    assert!(!b.destroyed());
}

#[test]
fn block_is_destroyed_by_its_second_hit() {
    let mut b = Block::new(Vec2 { x: 0, y: 0 }, BlockType::SpawnBallOnDeath);
    assert!(!b.hit());
    assert_eq!(b.lives, 1);
    assert!(!b.destroyed());
    assert!(b.hit());
    assert_eq!(b.lives, 0);
    assert!(b.destroyed());
    // A further hit takes a life but is not the last one again.
    assert!(!b.hit());
    assert_eq!(b.lives, -1);
    assert!(b.destroyed());
}

#[test]
fn block_shades() {
    let mut b = Block::new(Vec2 { x: 0, y: 0 }, BlockType::Regular);
    assert_eq!(b.shade(), Shade::Intact);
    b.hit();
    assert_eq!(b.shade(), Shade::Worn);
    let mut s = Block::new(Vec2 { x: 0, y: 0 }, BlockType::SpawnBallOnDeath);
    assert_eq!(s.shade(), Shade::Special);
    s.hit();
    assert_eq!(s.shade(), Shade::Special);
}

#[test]
fn launch_direction_exact_values() {
    assert_eq!(Ball::direction(0), Vec2 { x: 0, y: 1000 });
    assert_eq!(Ball::direction(750), Vec2 { x: 600, y: 800 });
    assert_eq!(Ball::direction(-750), Vec2 { x: -600, y: 800 });
    assert_eq!(Ball::direction(1000), Vec2 { x: 707, y: 707 });
    assert_eq!(Ball::direction(-1000), Vec2 { x: -707, y: 707 });
    assert_eq!(Ball::direction(1), Vec2 { x: 1, y: 1000 });
    assert_eq!(Ball::direction(-1), Vec2 { x: -1, y: 1000 });
    assert_eq!(Ball::direction(500), Vec2 { x: 447, y: 894 });
}

#[test]
fn launch_direction_has_length_one_or_a_little_less() {
    let mut bias = -UNIT;
    while bias <= UNIT {
        let v = Ball::direction(bias);
        let square = v.x * v.x + v.y * v.y;
        assert!(square <= 1_002_000 && square > 995_000, "bias {} gives {:?}", bias, v);
        assert!(v.y >= 707);
        assert_eq!(v.x.signum(), bias.signum());
        bias += 1;
    }
}

#[test]
fn launched_ball_has_its_place_and_direction() {
    let b = Ball::launch(Vec2 { x: px(3), y: px(-4) }, 750);
    assert_eq!(b.rect, Rect::new(px(3), px(-4), px(50), px(50)));
    assert_eq!(b.vel, Vec2 { x: 600, y: 800 });
}

#[test]
fn new_ball_heads_down_with_some_bias() {
    let mut n = 0;
    while n < 200 {
        let b = Ball::new(Vec2 { x: px(7), y: px(9) });
        assert_eq!(b.rect, Rect::new(px(7), px(9), px(50), px(50)));
        assert!(b.vel.y >= 707 && b.vel.y <= 1000);
        assert!(b.vel.x >= -707 && b.vel.x <= 707);
        n += 1;
    }
}

#[test]
fn new_balls_differ_in_direction() {
    let first = Ball::new(Vec2 { x: 0, y: 0 });
    let mut differs = false;
    let mut n = 0;
    while n < 200 {
        let b = Ball::new(Vec2 { x: 0, y: 0 });
        if b.vel != first.vel {
            differs = true;
        }
        n += 1;
    }
    assert!(differs);
}

#[test]
fn ball_moves_along_its_direction() {
    let mut b = Ball::launch(Vec2 { x: px(100), y: px(100) }, 750);
    // 10 ms at 400 pixels per second: 2.4 pixels across, 3.2 down.
    b.update(10_000, px(800));
    assert_eq!(b.rect, Rect::new(px(100) + 2_400_000_000, px(100) + 3_200_000_000, px(50), px(50)));
    assert_eq!(b.vel, Vec2 { x: 600, y: 800 });
    b.update(0, px(800));
    assert_eq!(b.rect, Rect::new(px(100) + 2_400_000_000, px(100) + 3_200_000_000, px(50), px(50)));
}

#[test]
fn ball_lifted_off_a_block_moves_away_from_it() {
    let block = Block::new(Vec2 { x: px(100), y: px(100) }, BlockType::Regular);
    let mut b = Ball { rect: Rect::new(px(120), px(60), px(50), px(50)), vel: Vec2 { x: 600, y: 800 } };
    assert!(resolve_collision(&mut b.rect, &mut b.vel, &block.rect));
    assert_eq!(b.rect.y, px(50));
    assert_eq!(b.vel, Vec2 { x: 600, y: -800 });
    b.update(10_000, px(800));
    assert_eq!(b.rect.y, px(50) - 3_200_000_000);
    assert!(b.rect.bottom() < block.rect.y);
    assert!(!resolve_collision(&mut b.rect, &mut b.vel, &block.rect));
}

#[test]
fn ball_turns_at_the_left_wall() {
    let mut b = Ball { rect: Rect::new(px(1), px(100), px(50), px(50)), vel: Vec2 { x: -600, y: 800 } };
    b.update(10_000, px(800));
    assert_eq!(b.rect.x, px(1) - 2_400_000_000);
    assert_eq!(b.vel, Vec2 { x: 1000, y: 800 });
}

#[test]
fn ball_turns_at_the_right_wall() {
    let mut b = Ball { rect: Rect::new(px(749), px(100), px(50), px(50)), vel: Vec2 { x: 600, y: 800 } };
    b.update(10_000, px(800));
    assert_eq!(b.rect.x, px(749) + 2_400_000_000);
    assert_eq!(b.vel, Vec2 { x: -1000, y: 800 });
}

#[test]
fn ball_turns_at_the_top() {
    let mut b = Ball { rect: Rect::new(px(100), px(1), px(50), px(50)), vel: Vec2 { x: 600, y: -800 } };
    b.update(10_000, px(800));
    assert_eq!(b.rect.y, px(1) - 3_200_000_000);
    assert_eq!(b.vel, Vec2 { x: 600, y: 1000 });
}

#[test]
fn ball_on_the_wall_line_does_not_turn() {
    let mut b = Ball { rect: Rect::new(0, 0, px(50), px(50)), vel: Vec2 { x: -600, y: -800 } };
    b.update(0, px(800));
    assert_eq!(b.vel, Vec2 { x: -600, y: -800 });
    let mut b = Ball { rect: Rect::new(px(750), 0, px(50), px(50)), vel: Vec2 { x: 600, y: -800 } };
    b.update(0, px(800));
    assert_eq!(b.vel, Vec2 { x: 600, y: -800 });
}

#[test]
fn ball_does_not_turn_at_the_bottom() {
    let mut b = Ball { rect: Rect::new(px(100), px(590), px(50), px(50)), vel: Vec2 { x: 0, y: 1000 } };
    b.update(100_000, px(800));
    assert_eq!(b.rect.y, px(630));
    assert_eq!(b.vel, Vec2 { x: 0, y: 1000 });
    assert!(b.fallen(px(600)));
    assert!(b.fallen(px(630)));
    assert!(!b.fallen(px(630) + 1));
}

#[test]
fn ball_in_a_field_narrower_than_itself_turns_left() {
    let mut b = Ball { rect: Rect::new(px(-10), px(100), px(50), px(50)), vel: Vec2 { x: 600, y: 800 } };
    b.update(0, px(20));
    assert_eq!(b.vel, Vec2 { x: -1000, y: 800 });
}
