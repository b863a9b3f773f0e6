use shooter_core::collision::{resolve_hits, retain_emitting, player_hit, Effect};
use shooter_core::game::{FrameAction, FrameInput, Game, GameState};
use shooter_core::motion::{fall_all, rise_all, sweep_collided, sweep_obstacles, sweep_projectiles};
use shooter_core::score::parse_high_score;
use shooter_core::shape::{distance, round_to_pixels, Rect, Shape};
use shooter_core::spawn::{obstacle_at, roll_spawns, spawn_from_draws, spawn_obstacle, spawn_x_limit, spawn_x_min};

const W: i64 = 800_000;
const H: i64 = 600_000;

fn input() -> FrameInput {
    FrameInput {
        left: false,
        right: false,
        up: false,
        down: false,
        fire: false,
        confirm: false,
        cancel: false,
        dt: 0,
        screen_w: W,
        screen_h: H,
    }
}

fn confirm() -> FrameInput {
    FrameInput { confirm: true, ..input() }
}

fn cancel() -> FrameInput {
    FrameInput { cancel: true, ..input() }
}

fn shape(size: i64, speed: i64, x: i64, y: i64) -> Shape {
    Shape { size, speed, x, y, collided: false }
}

fn lowered(s: Shape, y: i64) -> Shape {
    Shape { y, ..s }
}

fn playing(high_score: u32) -> Game {
    let mut g = Game::new(high_score, W, H);
    assert_eq!(g.advance(&confirm(), &vec![], None), FrameAction::Continue);
    assert_eq!(g.state, GameState::Playing);
    g
}

#[test]
fn scenario_player_hit_ends_run() {
    let mut g = playing(0);
    assert_eq!((g.player.x, g.player.y), (400_000, 300_000));
    let r = g.advance(&input(), &vec![], Some(lowered(obstacle_at(32_000, 0, 400_000), 300_000)));
    assert_eq!(g.state, GameState::GameOver);
    assert_eq!(r, FrameAction::SaveHighScore(0));
}

#[test]
fn scenario_projectile_destroys_obstacle() {
    let mut os = vec![shape(40_000, 100_000, 200_000, 100_000)];
    let mut ps = vec![shape(5_000, 400_000, 200_000, 100_000)];
    let mut effects: Vec<Effect> = vec![];
    let mut score: u32 = 3;
    let mut high: u32 = 10;
    resolve_hits(&mut os, &mut ps, &mut effects, &mut score, &mut high);
    assert!(os[0].collided && ps[0].collided);
    assert_eq!(score, 43);
    assert_eq!(high, 43);
    assert_eq!(effects, vec![Effect { x: 200_000, y: 100_000, amount: 80 }]);
    sweep_obstacles(&mut os, H);
    sweep_projectiles(&mut ps);
    assert_eq!((os.len(), ps.len()), (1, 1));
    sweep_collided(&mut os);
    sweep_collided(&mut ps);
    assert!(os.is_empty());
    assert!(ps.is_empty());
}

#[test]
fn scenario_high_score_from_empty_store() {
    assert_eq!(parse_high_score(b""), 0);
    let mut g = playing(parse_high_score(b""));
    g.obstacles.push(shape(57_000, 0, 100_000, 100_000));
    g.projectiles.push(shape(5_000, 0, 100_000, 100_000));
    g.advance(&input(), &vec![], None);
    assert_eq!(g.score, 57);
    assert_eq!(g.high_score, 57);
    assert_eq!(g.state, GameState::Playing);
    assert!(g.obstacles.is_empty() && g.projectiles.is_empty());
    assert_eq!(g.effects.len(), 1);
}

#[test]
fn scenario_obstacle_falls_then_leaves() {
    let size: i64 = 20_000;
    let speed: i64 = 100_000;
    let dt: u32 = 16_000;
    let mut os = vec![obstacle_at(size, speed, 50_000)];
    for _ in 0..10 {
        fall_all(&mut os, dt);
    }
    assert_eq!(os[0].y, -size + 10 * 1_600);
    os[0].y = H + size - 1;
    sweep_obstacles(&mut os, H);
    assert_eq!(os.len(), 1);
    fall_all(&mut os, dt);
    sweep_obstacles(&mut os, H);
    assert!(os.is_empty());
}

#[test]
fn touching_boxes_do_not_collide() {
    let a = shape(10_000, 0, 0, 0);
    let b = shape(10_000, 0, 10_000, 0);
    assert!(!a.collides_with(&b));
    let c = shape(10_000, 0, 9_999, 0);
    assert!(a.collides_with(&c));
    assert!(c.collides_with(&a));
    assert_eq!(a.rect(), Rect { x: -10_000, y: -10_000, w: 20_000, h: 20_000 });
}

#[test]
fn player_is_clamped_to_screen() {
    let mut g = playing(0);
    g.player.x = W - 1_000;
    g.player.y = 1_000;
    let mv = FrameInput { right: true, up: true, dt: 1_000_000, ..input() };
    g.advance(&mv, &vec![], None);
    assert_eq!((g.player.x, g.player.y), (W, 0));
    let back = FrameInput { left: true, down: true, dt: 500_000, ..input() };
    g.advance(&back, &vec![], None);
    assert_eq!((g.player.x, g.player.y), (W - 100_000, 100_000));
}

#[test]
fn departed_entities_are_swept() {
    let mut os = vec![shape(10_000, 0, 0, H + 10_000), shape(10_000, 0, 0, H + 9_999)];
    sweep_obstacles(&mut os, H);
    assert_eq!(os, vec![shape(10_000, 0, 0, H + 9_999)]);
    let mut ps = vec![shape(5_000, 0, 0, -2_500), shape(5_000, 0, 0, -2_499)];
    sweep_projectiles(&mut ps);
    assert_eq!(ps, vec![shape(5_000, 0, 0, -2_499)]);
}

#[test]
fn projectiles_rise() {
    let mut ps = vec![shape(5_000, 400_000, 0, 300_000)];
    rise_all(&mut ps, 250_000);
    assert_eq!(ps[0].y, 200_000);
}

#[test]
fn firing_spawns_projectile_at_player() {
    let mut g = playing(0);
    g.advance(&FrameInput { fire: true, ..input() }, &vec![], None);
    assert_eq!(g.projectiles, vec![shape(5_000, 400_000, 400_000, 300_000)]);
    g.advance(&FrameInput { dt: 100_000, ..input() }, &vec![], None);
    assert_eq!(g.projectiles[0].y, 260_000);
}

#[test]
fn save_only_when_score_ties_high_score() {
    let mut g = playing(100);
    g.score = 50;
    let r = g.advance(&input(), &vec![], Some(lowered(obstacle_at(32_000, 0, 400_000), 300_000)));
    assert_eq!(g.state, GameState::GameOver);
    assert_eq!(r, FrameAction::Continue);
}

#[test]
fn every_overlapping_pair_scores() {
    let mut os = vec![shape(10_000, 0, 0, 0), shape(2_400, 0, 100_000, 0)];
    let mut ps = vec![shape(5_000, 0, 1_000, 0), shape(5_000, 0, -1_000, 0), shape(5_000, 0, 100_000, 0)];
    let mut effects = vec![];
    let mut score: u32 = 0;
    let mut high: u32 = 0;
    resolve_hits(&mut os, &mut ps, &mut effects, &mut score, &mut high);
    assert_eq!(score, 22);
    assert_eq!(high, 22);
    assert_eq!(effects.len(), 3);
    assert_eq!(effects[2], Effect { x: 100_000, y: 0, amount: 4 });
}

#[test]
fn score_saturates() {
    let mut os = vec![shape(10_000, 0, 0, 0)];
    let mut ps = vec![shape(5_000, 0, 0, 0)];
    let mut effects = vec![];
    let mut score: u32 = u32::MAX - 3;
    let mut high: u32 = u32::MAX - 3;
    resolve_hits(&mut os, &mut ps, &mut effects, &mut score, &mut high);
    assert_eq!(score, u32::MAX);
    assert_eq!(high, u32::MAX);
}

#[test]
fn rounding_of_sizes() {
    assert_eq!(round_to_pixels(40_499), 40);
    assert_eq!(round_to_pixels(40_500), 41);
    assert_eq!(round_to_pixels(0), 0);
    assert_eq!(distance(200_000, 16_667), 3_333);
}

#[test]
fn player_hit_needs_overlap() {
    let p = shape(32_000, 200_000, 400_000, 300_000);
    assert!(!player_hit(&p, &vec![]));
    assert!(!player_hit(&p, &vec![shape(32_000, 0, 432_000, 300_000)]));
    assert!(player_hit(&p, &vec![shape(32_000, 0, 0, 0), shape(32_000, 0, 431_999, 300_000)]));
}

#[test]
fn finished_effects_are_dropped() {
    let e = |x: i64| Effect { x, y: 0, amount: 2 };
    let mut effects = vec![e(1), e(2), e(3)];
    retain_emitting(&mut effects, &vec![true, false, true]);
    assert_eq!(effects, vec![e(1), e(3)]);
}

#[test]
fn high_score_text() {
    assert_eq!(parse_high_score(b"57"), 57);
    assert_eq!(parse_high_score(b"+57"), 57);
    assert_eq!(parse_high_score(b"+"), 0);
    assert_eq!(parse_high_score(b"57\n"), 0);
    assert_eq!(parse_high_score(b"-1"), 0);
    assert_eq!(parse_high_score(b"4294967295"), u32::MAX);
    assert_eq!(parse_high_score(b"4294967296"), 0);
    assert_eq!(parse_high_score(b"0000000000012"), 12);
}

#[test]
fn mode_transitions() {
    let mut g = Game::new(7, W, H);
    assert_eq!(g.state, GameState::MainMenu);
    assert_eq!(g.advance(&input(), &vec![], None), FrameAction::Continue);
    assert_eq!(g.state, GameState::MainMenu);
    assert_eq!(g.advance(&cancel(), &vec![], None), FrameAction::Quit);
    g.state = GameState::Paused;
    g.advance(&confirm(), &vec![], None);
    assert_eq!(g.state, GameState::Paused);
    g.advance(&cancel(), &vec![], None);
    assert_eq!(g.state, GameState::Playing);
    g.state = GameState::GameOver;
    g.score = 5;
    g.advance(&cancel(), &vec![], None);
    assert_eq!(g.state, GameState::GameOver);
    g.advance(&confirm(), &vec![], None);
    assert_eq!(g.state, GameState::MainMenu);
    g.obstacles.push(shape(20_000, 0, 0, 0));
    g.player.x = 3;
    g.advance(&confirm(), &vec![], None);
    assert_eq!(g.state, GameState::Playing);
    assert_eq!(g.score, 0);
    assert_eq!(g.high_score, 7);
    assert!(g.obstacles.is_empty());
    assert_eq!((g.player.x, g.player.y), (400_000, 300_000));
}

#[test]
fn spawner_draws_within_ranges() {
    assert!(roll_spawns(95) && roll_spawns(99) && !roll_spawns(94) && !roll_spawns(0));
    assert_eq!(spawn_x_limit(20_000, W), W - 10_000);
    assert_eq!(spawn_x_limit(20_000, 5_000), 10_000);
    assert_eq!(spawn_x_min(20_001), 10_001);
    assert_eq!(spawn_x_limit(20_001, W), W - 10_001);
    let mut spawned = 0;
    let mut sizes = std::collections::BTreeSet::new();
    for _ in 0..3000 {
        if let Some(o) = spawn_obstacle(W) {
            spawned += 1;
            assert!(16_000 <= o.size && o.size < 64_000);
            assert!(50_000 <= o.speed && o.speed < 150_000);
            assert!(2 * o.x - o.size >= 0 && 2 * o.x + o.size <= 2 * W);
            assert_eq!(o.y, -o.size);
            sizes.insert(o.size);
        }
    }
    assert!(spawned > 50 && spawned < 400);
    assert!(sizes.len() > 10);
}

#[test]
fn tick_keeps_menu_without_spawning() {
    let mut g = Game::new(0, W, H);
    for _ in 0..100 {
        g.tick(&input(), &vec![]);
    }
    assert_eq!(g.state, GameState::MainMenu);
    assert!(g.obstacles.is_empty());
    g.tick(&confirm(), &vec![]);
    for _ in 0..400 {
        let flags = vec![true; g.effects.len()];
        g.tick(&FrameInput { dt: 1_000, ..input() }, &flags);
    }
    assert!(!g.obstacles.is_empty() || g.state == GameState::GameOver);
}


#[test]
fn spawn_follows_the_roll() {
    assert_eq!(spawn_from_draws(94, 30_000, 70_000, 500_000), None);
    assert_eq!(spawn_from_draws(0, 30_000, 70_000, 500_000), None);
    assert_eq!(
        spawn_from_draws(95, 30_000, 70_000, 500_000),
        Some(Shape { size: 30_000, speed: 70_000, x: 500_000, y: -30_000, collided: false })
    );
    assert_eq!(
        spawn_from_draws(99, 16_000, 50_000, 8_000),
        Some(shape(16_000, 50_000, 8_000, -16_000))
    );
}

#[test]
fn departed_obstacle_cannot_end_run() {
    let mut g = playing(0);
    g.player.y = H;
    let r = g.advance(&input(), &vec![], Some(lowered(obstacle_at(20_000, 0, 400_000), H + 20_000)));
    assert_eq!(r, FrameAction::Continue);
    assert_eq!(g.state, GameState::Playing);
    assert!(g.obstacles.is_empty());
}

#[test]
fn departed_projectile_cannot_score() {
    let mut g = playing(0);
    g.obstacles.push(shape(10_000, 0, 100_000, 0));
    g.projectiles.push(shape(5_000, 0, 100_000, -2_500));
    g.advance(&input(), &vec![], None);
    assert_eq!(g.score, 0);
    assert!(g.projectiles.is_empty());
    assert_eq!(g.obstacles, vec![shape(10_000, 0, 100_000, 0)]);
    assert!(g.effects.is_empty());
}
