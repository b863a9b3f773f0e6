use vstd::prelude::*;
use crate::shape::{Shape, travel, distance, MAX_SCREEN, lemma_travel_bounds};
use crate::motion::{
    at_rest, fallen, risen, kept, obstacle_filter, projectile_filter, fall_all, rise_all,
    sweep_obstacles, sweep_projectiles, sweep_collided, uncollided, lemma_kept,
};
use crate::collision::{
    Effect, marked, mark, explosions, total_points, saturated, hit_any, still_emitting,
    player_hit, resolve_hits, retain_emitting, all_valid,
};

verus! {

/// Edge length of the player.
pub const PLAYER_SIZE: i64 = 32_000;

/// Speed of the player.
pub const PLAYER_SPEED: i64 = 200_000;

/// Edge length of a projectile.
pub const PROJECTILE_SIZE: i64 = 5_000;

/// Spawn rolls are drawn from zero up to this bound.
pub const ROLL_BOUND: i64 = 100;

/// A spawn roll at or above this value spawns an obstacle.
pub const SPAWN_THRESHOLD: i64 = 95;

pub const OBSTACLE_MIN_SIZE: i64 = 16_000;
pub const OBSTACLE_MAX_SIZE: i64 = 64_000;
pub const OBSTACLE_MIN_SPEED: i64 = 50_000;
pub const OBSTACLE_MAX_SPEED: i64 = 150_000;

#[derive(Clone, Copy, Debug, PartialEq, Eq, Structural)]
pub enum GameState {
    MainMenu,
    Playing,
    Paused,
    GameOver,
}

/// What the frame driver saw this frame: held movement keys, pressed keys,
/// the frame time in microseconds and the screen size in units.
#[derive(Clone, Copy, Debug, PartialEq, Eq, Structural)]
pub struct FrameInput {
    pub left: bool,
    pub right: bool,
    pub up: bool,
    pub down: bool,
    pub fire: bool,
    pub confirm: bool,
    pub cancel: bool,
    pub dt: u32,
    pub screen_w: i64,
    pub screen_h: i64,
}

impl FrameInput {
    pub open spec fn valid(self) -> bool {
        &&& 0 < self.screen_w <= MAX_SCREEN
        &&& 0 < self.screen_h <= MAX_SCREEN
    }
}

/// What the frame driver must do after a frame.
#[derive(Clone, Copy, Debug, PartialEq, Eq, Structural)]
pub enum FrameAction {
    Continue,
    Quit,
    SaveHighScore(u32),
}

/// The whole simulation: mode, entities, explosions and scores.
pub struct Game {
    pub state: GameState,
    pub player: Shape,
    pub obstacles: Vec<Shape>,
    pub projectiles: Vec<Shape>,
    pub effects: Vec<Effect>,
    pub score: u32,
    pub high_score: u32,
}

/// The player after the held movement keys moved it, before clamping.
pub open spec fn steered(p: Shape, input: FrameInput) -> Shape {
    let d = travel(p.speed as int, input.dt as int);
    Shape {
        x: (p.x + (if input.right { d } else { 0 }) - (if input.left { d } else { 0 })) as i64,
        y: (p.y + (if input.down { d } else { 0 }) - (if input.up { d } else { 0 })) as i64,
        ..p
    }
}

pub open spec fn clamp(v: int, hi: int) -> int {
    if v > hi {
        hi
    } else if v < 0 {
        0
    } else {
        v
    }
}

/// The player held inside the playfield.
pub open spec fn clamped(p: Shape, w: int, h: int) -> Shape {
    Shape { x: clamp(p.x as int, w) as i64, y: clamp(p.y as int, h) as i64, ..p }
}

/// The projectile fired from the player's position.
pub open spec fn projectile_from(p: Shape) -> Shape {
    Shape { size: PROJECTILE_SIZE, speed: (2 * p.speed) as i64, x: p.x, y: p.y, collided: false }
}

/// The player at rest at the centre of the screen.
pub open spec fn centred_player(w: int, h: int) -> Shape {
    Shape { size: PLAYER_SIZE, speed: PLAYER_SPEED, x: (w / 2) as i64, y: (h / 2) as i64, collided: false }
}

/// Half a size, rounded up: the least centre that keeps the box on the screen.
pub open spec fn half_up(size: int) -> int {
    (size + 1) / 2
}

/// The rightmost spawn position: the obstacle's right edge on the screen's,
/// or its left edge on the screen's where the screen is narrower than it.
pub open spec fn spawn_x_max(size: int, w: int) -> int {
    if w - half_up(size) >= half_up(size) {
        w - half_up(size)
    } else {
        half_up(size)
    }
}

/// The spawner's draws lie in their ranges: the roll below `ROLL_BOUND`, the
/// size and speed in their half-open ranges, the centre within the screen.
pub open spec fn draws_in_range(roll: int, size: int, speed: int, x: int, w: int) -> bool {
    &&& 0 <= roll < ROLL_BOUND
    &&& OBSTACLE_MIN_SIZE <= size < OBSTACLE_MAX_SIZE
    &&& OBSTACLE_MIN_SPEED <= speed < OBSTACLE_MAX_SPEED
    &&& half_up(size) <= x <= spawn_x_max(size, w)
}

/// What the spawner yields for its draws: an obstacle just above the top edge
/// when the roll reaches the threshold, else nothing.
pub open spec fn spawned_from(roll: int, size: int, speed: int, x: int) -> Option<Shape> {
    if roll >= SPAWN_THRESHOLD {
        Some(Shape { size: size as i64, speed: speed as i64, x: x as i64, y: (-size) as i64, collided: false })
    } else {
        None
    }
}

/// A spawn outcome that some draws in range yield.
pub open spec fn spawn_allowed(s: Option<Shape>, w: int) -> bool {
    exists|roll: int, size: int, speed: int, x: int|
        draws_in_range(roll, size, speed, x, w) && s == #[trigger] spawned_from(roll, size, speed, x)
}

pub open spec fn with_spawn(os: Seq<Shape>, spawned: Option<Shape>) -> Seq<Shape> {
    match spawned {
        Some(o) => os.push(o),
        None => os,
    }
}

pub open spec fn with_shot(ps: Seq<Shape>, shooter: Shape, fire: bool) -> Seq<Shape> {
    if fire {
        ps.push(projectile_from(shooter))
    } else {
        ps
    }
}

pub open spec fn all_fallen(os: Seq<Shape>, dt: int) -> Seq<Shape> {
    Seq::new(os.len(), |i: int| fallen(os[i], dt))
}

pub open spec fn all_risen(ps: Seq<Shape>, dt: int) -> Seq<Shape> {
    Seq::new(ps.len(), |i: int| risen(ps[i], dt))
}

/// The larger of two scores.
pub open spec fn max_score(a: u32, b: u32) -> u32 {
    if a >= b {
        a
    } else {
        b
    }
}

/// Two games hold the same mode, entities, explosions and scores.
pub open spec fn same_game(a: Game, b: Game) -> bool {
    &&& a.state == b.state
    &&& a.player == b.player
    &&& a.obstacles@ == b.obstacles@
    &&& a.projectiles@ == b.projectiles@
    &&& a.effects@ == b.effects@
    &&& a.score == b.score
    &&& a.high_score == b.high_score
}

/// `b` is `a` in another mode.
pub open spec fn same_but_state(a: Game, b: Game, state: GameState) -> bool {
    &&& b.state == state
    &&& a.player == b.player
    &&& a.obstacles@ == b.obstacles@
    &&& a.projectiles@ == b.projectiles@
    &&& a.effects@ == b.effects@
    &&& a.score == b.score
    &&& a.high_score == b.high_score
}

/// The obstacles of a frame once spawned, moved and swept of the departed.
pub open spec fn frame_obstacles(pre: Game, input: FrameInput, spawned: Option<Shape>) -> Seq<Shape> {
    kept(all_fallen(with_spawn(pre.obstacles@, spawned), input.dt as int), obstacle_filter(input.screen_h as int))
}

/// The projectiles of a frame once fired, moved and swept of the departed.
pub open spec fn frame_projectiles(pre: Game, input: FrameInput) -> Seq<Shape> {
    let moved = steered(pre.player, input);
    kept(all_risen(with_shot(pre.projectiles@, moved, input.fire), input.dt as int), projectile_filter())
}

/// One frame of play: steer and clamp the player, fire, spawn, move, sweep
/// away what left the screen, drop finished explosions, test the player
/// against every obstacle, resolve the projectile hits, and sweep away what
/// collided.
pub open spec fn played(pre: Game, post: Game, input: FrameInput, emitting: Seq<bool>, spawned: Option<Shape>, r: FrameAction) -> bool {
    let moved = steered(pre.player, input);
    let player = clamped(moved, input.screen_w as int, input.screen_h as int);
    let os = frame_obstacles(pre, input, spawned);
    let ps = frame_projectiles(pre, input);
    let hit = hit_any(player, os);
    &&& post.player == player
    &&& post.obstacles@ == kept(marked(os, ps), uncollided())
    &&& post.projectiles@ == kept(marked(ps, os), uncollided())
    &&& post.effects@ == still_emitting(pre.effects@, emitting) + explosions(os, ps)
    &&& post.score == saturated(pre.score + total_points(os, ps))
    &&& post.high_score == max_score(pre.high_score, post.score)
    &&& post.state == if hit { GameState::GameOver } else { GameState::Playing }
    &&& r == if hit && pre.score == pre.high_score {
        FrameAction::SaveHighScore(pre.high_score)
    } else {
        FrameAction::Continue
    }
}

/// What one frame does in each mode.
pub open spec fn frame_result(pre: Game, post: Game, input: FrameInput, emitting: Seq<bool>, spawned: Option<Shape>, r: FrameAction) -> bool {
    match pre.state {
        GameState::MainMenu => if input.cancel {
            same_game(pre, post) && r == FrameAction::Quit
        } else if input.confirm {
            &&& post.state == GameState::Playing
            &&& post.player == centred_player(input.screen_w as int, input.screen_h as int)
            &&& post.obstacles@.len() == 0
            &&& post.projectiles@.len() == 0
            &&& post.effects@.len() == 0
            &&& post.score == 0
            &&& post.high_score == pre.high_score
            &&& r == FrameAction::Continue
        } else {
            same_game(pre, post) && r == FrameAction::Continue
        },
        GameState::Paused => r == FrameAction::Continue && if input.cancel {
            same_but_state(pre, post, GameState::Playing)
        } else {
            same_game(pre, post)
        },
        GameState::GameOver => r == FrameAction::Continue && if input.confirm {
            same_but_state(pre, post, GameState::MainMenu)
        } else {
            same_game(pre, post)
        },
        GameState::Playing => played(pre, post, input, emitting, spawned, r),
    }
}

/// Moves the player by the held keys, fires from where that leaves it, then
/// clamps the player into the playfield.
fn steer_and_fire(player: &mut Shape, ps: &mut Vec<Shape>, input: &FrameInput)
    requires
        old(player).size == PLAYER_SIZE,
        old(player).speed == PLAYER_SPEED,
        0 <= old(player).x <= MAX_SCREEN,
        0 <= old(player).y <= MAX_SCREEN,
        input.valid(),
        forall|i: int| 0 <= i < old(ps)@.len() ==> at_rest(#[trigger] old(ps)@[i]),
    ensures
        *final(player) == clamped(steered(*old(player), *input), input.screen_w as int, input.screen_h as int),
        final(ps)@ == with_shot(old(ps)@, steered(*old(player), *input), input.fire),
        forall|i: int| 0 <= i < final(ps)@.len() ==> at_rest(#[trigger] final(ps)@[i]),
        0 <= final(player).x <= input.screen_w,
        0 <= final(player).y <= input.screen_h,
{
    let ghost p0 = *player;
    let w = input.screen_w;
    let h = input.screen_h;
    let d = distance(player.speed, input.dt);
    if input.right {
        player.x = player.x + d;
    }
    if input.left {
        player.x = player.x - d;
    }
    if input.down {
        player.y = player.y + d;
    }
    if input.up {
        player.y = player.y - d;
    }
    assert(*player == steered(p0, *input));
    if input.fire {
        ps.push(Shape { size: PROJECTILE_SIZE, speed: player.speed * 2, x: player.x, y: player.y, collided: false });
        assert(ps@.last() == projectile_from(steered(p0, *input)));
    }
    if player.x > w {
        player.x = w;
    } else if player.x < 0 {
        player.x = 0;
    }
    if player.y > h {
        player.y = h;
    } else if player.y < 0 {
        player.y = 0;
    }
}

proof fn lemma_spawn_at_rest(os: Seq<Shape>, spawned: Option<Shape>)
    requires
        forall|i: int| 0 <= i < os.len() ==> at_rest(#[trigger] os[i]),
        spawned matches Some(o) ==> at_rest(o),
    ensures
        forall|i: int| 0 <= i < with_spawn(os, spawned).len() ==> at_rest(#[trigger] with_spawn(os, spawned)[i]),
{
    assert forall|i: int| 0 <= i < with_spawn(os, spawned).len() implies at_rest(#[trigger] with_spawn(os, spawned)[i]) by {
        if i < os.len() {
            assert(with_spawn(os, spawned)[i] == os[i]);
        }
    }
}

/// The obstacles left after moving and sweeping away the departed are at rest again.
proof fn lemma_departed_obstacles_at_rest(os: Seq<Shape>, dt: int, h: int)
    requires
        forall|i: int| 0 <= i < os.len() ==> at_rest(#[trigger] os[i]),
        0 <= dt <= u32::MAX,
        0 < h <= MAX_SCREEN,
    ensures
        forall|i: int| 0 <= i < kept(all_fallen(os, dt), obstacle_filter(h)).len()
            ==> at_rest(#[trigger] kept(all_fallen(os, dt), obstacle_filter(h))[i]),
{
    let m = all_fallen(os, dt);
    let out = kept(m, obstacle_filter(h));
    lemma_kept(m, obstacle_filter(h));
    assert forall|i: int| 0 <= i < out.len() implies at_rest(#[trigger] out[i]) by {
        let s = out[i];
        assert(obstacle_filter(h)(s));
        assert(m.contains(s));
        let k = choose|k: int| 0 <= k < m.len() && m[k] == s;
        lemma_travel_bounds(os[k].speed as int, dt);
        assert(m[k] == fallen(os[k], dt));
    }
}

/// The projectiles left after moving and sweeping away the departed are at rest again.
proof fn lemma_departed_projectiles_at_rest(ps: Seq<Shape>, dt: int)
    requires
        forall|i: int| 0 <= i < ps.len() ==> at_rest(#[trigger] ps[i]),
        0 <= dt <= u32::MAX,
    ensures
        forall|i: int| 0 <= i < kept(all_risen(ps, dt), projectile_filter()).len()
            ==> at_rest(#[trigger] kept(all_risen(ps, dt), projectile_filter())[i]),
{
    let m = all_risen(ps, dt);
    let out = kept(m, projectile_filter());
    lemma_kept(m, projectile_filter());
    assert forall|i: int| 0 <= i < out.len() implies at_rest(#[trigger] out[i]) by {
        let s = out[i];
        assert(projectile_filter()(s));
        assert(m.contains(s));
        let k = choose|k: int| 0 <= k < m.len() && m[k] == s;
        lemma_travel_bounds(ps[k].speed as int, dt);
        assert(m[k] == risen(ps[k], dt));
    }
}

/// Marking and sweeping away the collided keeps entities at rest.
proof fn lemma_marked_sweep_at_rest(v: Seq<Shape>, others: Seq<Shape>)
    requires
        forall|i: int| 0 <= i < v.len() ==> at_rest(#[trigger] v[i]),
    ensures
        forall|i: int| 0 <= i < kept(marked(v, others), uncollided()).len()
            ==> at_rest(#[trigger] kept(marked(v, others), uncollided())[i]),
{
    let m = marked(v, others);
    let out = kept(m, uncollided());
    lemma_kept(m, uncollided());
    assert forall|i: int| 0 <= i < out.len() implies at_rest(#[trigger] out[i]) by {
        let s = out[i];
        assert(m.contains(s));
        let k = choose|k: int| 0 <= k < m.len() && m[k] == s;
        assert(m[k] == mark(v[k], hit_any(v[k], others)));
    }
}

impl Game {
    /// The invariant kept between frames.
    pub open spec fn wf(self) -> bool {
        &&& self.player.size == PLAYER_SIZE
        &&& self.player.speed == PLAYER_SPEED
        &&& 0 <= self.player.x <= MAX_SCREEN
        &&& 0 <= self.player.y <= MAX_SCREEN
        &&& forall|i: int| 0 <= i < self.obstacles@.len() ==> at_rest(#[trigger] self.obstacles@[i])
        &&& forall|i: int| 0 <= i < self.projectiles@.len() ==> at_rest(#[trigger] self.projectiles@[i])
        &&& self.score <= self.high_score
    }

    /// A game in the main menu, with the player centred and the stored high score.
    pub fn new(high_score: u32, screen_w: i64, screen_h: i64) -> (r: Game)
        requires
            0 < screen_w <= MAX_SCREEN,
            0 < screen_h <= MAX_SCREEN,
        ensures
            r.wf(),
            r.state == GameState::MainMenu,
            r.player == centred_player(screen_w as int, screen_h as int),
            r.obstacles@.len() == 0,
            r.projectiles@.len() == 0,
            r.effects@.len() == 0,
            r.score == 0,
            r.high_score == high_score,
    {
        Game {
            state: GameState::MainMenu,
            player: Shape { size: PLAYER_SIZE, speed: PLAYER_SPEED, x: screen_w / 2, y: screen_h / 2, collided: false },
            obstacles: Vec::new(),
            projectiles: Vec::new(),
            effects: Vec::new(),
            score: 0,
            high_score,
        }
    }

    /// One frame of play; see `played`.
    #[verifier::rlimit(50)]
    fn play(&mut self, input: &FrameInput, emitting: &Vec<bool>, spawned: Option<Shape>) -> (r: FrameAction)
        requires
            old(self).wf(),
            old(self).state == GameState::Playing,
            input.valid(),
            emitting.len() == old(self).effects.len(),
            spawned matches Some(o) ==> at_rest(o),
        ensures
            final(self).wf(),
            played(*old(self), *final(self), *input, emitting@, spawned, r),
    {
        let ghost pre = *self;
        let h = input.screen_h;
        steer_and_fire(&mut self.player, &mut self.projectiles, input);
        match spawned {
            Some(o) => self.obstacles.push(o),
            None => {},
        }
        let ghost os0 = self.obstacles@;
        let ghost ps0 = self.projectiles@;
        proof {
            lemma_spawn_at_rest(pre.obstacles@, spawned);
            assert(os0 == with_spawn(pre.obstacles@, spawned));
        }
        fall_all(&mut self.obstacles, input.dt);
        rise_all(&mut self.projectiles, input.dt);
        assert(self.obstacles@ == all_fallen(os0, input.dt as int));
        assert(self.projectiles@ == all_risen(ps0, input.dt as int));
        sweep_obstacles(&mut self.obstacles, h);
        sweep_projectiles(&mut self.projectiles);
        let ghost os1 = self.obstacles@;
        let ghost ps1 = self.projectiles@;
        proof {
            lemma_departed_obstacles_at_rest(os0, input.dt as int, h as int);
            lemma_departed_projectiles_at_rest(ps0, input.dt as int);
            assert(all_valid(os1));
            assert(all_valid(ps1));
        }
        retain_emitting(&mut self.effects, emitting);
        let mut r = FrameAction::Continue;
        if player_hit(&self.player, &self.obstacles) {
            if self.score == self.high_score {
                r = FrameAction::SaveHighScore(self.high_score);
            }
            self.state = GameState::GameOver;
        }
        resolve_hits(&mut self.obstacles, &mut self.projectiles, &mut self.effects, &mut self.score, &mut self.high_score);
        sweep_collided(&mut self.obstacles);
        sweep_collided(&mut self.projectiles);
        proof {
            lemma_marked_sweep_at_rest(os1, ps1);
            lemma_marked_sweep_at_rest(ps1, os1);
        }
        r
    }

    /// Runs one frame with the obstacle, if any, that the spawner drew for it.
    /// `emitting` holds, for each explosion, whether its emission is still running.
    pub fn advance(&mut self, input: &FrameInput, emitting: &Vec<bool>, spawned: Option<Shape>) -> (r: FrameAction)
        requires
            old(self).wf(),
            input.valid(),
            emitting.len() == old(self).effects.len(),
            spawned matches Some(o) ==> at_rest(o),
        ensures
            final(self).wf(),
            frame_result(*old(self), *final(self), *input, emitting@, spawned, r),
    {
        match self.state {
            GameState::MainMenu => {
                if input.cancel {
                    return FrameAction::Quit;
                }
                if input.confirm {
                    self.obstacles.clear();
                    self.projectiles.clear();
                    self.effects.clear();
                    self.player.x = input.screen_w / 2;
                    self.player.y = input.screen_h / 2;
                    self.player.collided = false;
                    self.score = 0;
                    self.state = GameState::Playing;
                }
                FrameAction::Continue
            },
            GameState::Paused => {
                if input.cancel {
                    self.state = GameState::Playing;
                }
                FrameAction::Continue
            },
            GameState::GameOver => {
                if input.confirm {
                    self.state = GameState::MainMenu;
                }
                FrameAction::Continue
            },
            GameState::Playing => self.play(input, emitting, spawned),
        }
    }
}

} // verus!
