use vstd::prelude::*;
use crate::shape::{Shape, MAX_REST, MAX_SCREEN};
use crate::game::{
    Game, GameState, FrameInput, FrameAction, frame_result, spawn_allowed, spawn_x_max, half_up,
    draws_in_range, spawned_from, ROLL_BOUND, SPAWN_THRESHOLD, OBSTACLE_MIN_SIZE,
    OBSTACLE_MAX_SIZE, OBSTACLE_MIN_SPEED, OBSTACLE_MAX_SPEED,
};

verus! {

/// Relies on macroquad::rand::gen_range (quad-rand's global generator): for an
/// integer type it computes `low + (high - low) * k / 2^32` in `f64`, with
/// `k < 2^32`, and truncates. For bounds up to `2^41` every step rounds
/// monotonically, so the result lies between `low` and `high`; for bounds up
/// to `2^20` every step is exact, so it stays below `high`.
#[verifier::external_body]
fn random_between(low: i64, high: i64) -> (r: i64)
    requires
        0 <= low <= high <= MAX_REST,
    ensures
        low <= r <= high,
        low < high <= 0x10_0000 ==> r < high,
{
    macroquad::rand::gen_range(low, high)
}

/// A spawn roll spawns an obstacle at or above the threshold.
pub fn roll_spawns(roll: i64) -> (r: bool)
    ensures
        r == (roll >= SPAWN_THRESHOLD),
{
    roll >= SPAWN_THRESHOLD
}

/// The leftmost centre of a new obstacle of this size.
pub fn spawn_x_min(size: i64) -> (r: i64)
    requires
        0 <= size <= OBSTACLE_MAX_SIZE,
    ensures
        r == half_up(size as int),
{
    (size + 1) / 2
}

/// The rightmost centre of a new obstacle of this size on a screen this wide.
pub fn spawn_x_limit(size: i64, screen_w: i64) -> (r: i64)
    requires
        0 <= size <= OBSTACLE_MAX_SIZE,
        0 < screen_w <= MAX_SCREEN,
    ensures
        r == spawn_x_max(size as int, screen_w as int),
{
    let half = spawn_x_min(size);
    if screen_w - half >= half {
        screen_w - half
    } else {
        half
    }
}

/// A new obstacle just above the top edge.
pub fn obstacle_at(size: i64, speed: i64, x: i64) -> (r: Shape)
    requires
        0 <= size <= crate::shape::MAX_SIZE,
    ensures
        r.size == size,
        r.speed == speed,
        r.x == x,
        r.y == -size,
        !r.collided,
{
    Shape { size, speed, x, y: -size, collided: false }
}

/// What the spawner yields for its draws: the obstacle they describe when the
/// roll reaches the threshold, else nothing.
pub fn spawn_from_draws(roll: i64, size: i64, speed: i64, x: i64) -> (r: Option<Shape>)
    requires
        0 <= size <= crate::shape::MAX_SIZE,
    ensures
        r == spawned_from(roll as int, size as int, speed as int, x as int),
{
    if roll_spawns(roll) {
        Some(obstacle_at(size, speed, x))
    } else {
        None
    }
}

/// Draws the spawn roll and, when it spawns, the new obstacle's size, speed
/// and horizontal position.
pub fn spawn_obstacle(screen_w: i64) -> (r: Option<Shape>)
    requires
        0 < screen_w <= MAX_SCREEN,
    ensures
        spawn_allowed(r, screen_w as int),
{
    let roll = random_between(0, ROLL_BOUND);
    if !roll_spawns(roll) {
        let r = spawn_from_draws(roll, OBSTACLE_MIN_SIZE, OBSTACLE_MIN_SPEED, spawn_x_min(OBSTACLE_MIN_SIZE));
        assert(draws_in_range(roll as int, OBSTACLE_MIN_SIZE as int, OBSTACLE_MIN_SPEED as int, half_up(OBSTACLE_MIN_SIZE as int), screen_w as int));
        return r;
    }
    let size = random_between(OBSTACLE_MIN_SIZE, OBSTACLE_MAX_SIZE);
    let speed = random_between(OBSTACLE_MIN_SPEED, OBSTACLE_MAX_SPEED);
    let x = random_between(spawn_x_min(size), spawn_x_limit(size, screen_w));
    let r = spawn_from_draws(roll, size, speed, x);
    assert(draws_in_range(roll as int, size as int, speed as int, x as int, screen_w as int));
    r
}

impl Game {
    /// Runs one frame, drawing the spawner's obstacle while playing.
    pub fn tick(&mut self, input: &FrameInput, emitting: &Vec<bool>) -> (r: FrameAction)
        requires
            old(self).wf(),
            input.valid(),
            emitting.len() == old(self).effects.len(),
        ensures
            final(self).wf(),
            exists|spawned: Option<Shape>|
                spawn_allowed(spawned, input.screen_w as int)
                && #[trigger] frame_result(*old(self), *final(self), *input, emitting@, spawned, r),
            old(self).state != GameState::Playing ==> frame_result(*old(self), *final(self), *input, emitting@, None, r),
    {
        let spawned = if self.state == GameState::Playing {
            spawn_obstacle(input.screen_w)
        } else {
            proof {
                assert(draws_in_range(0, OBSTACLE_MIN_SIZE as int, OBSTACLE_MIN_SPEED as int, half_up(OBSTACLE_MIN_SIZE as int), input.screen_w as int));
                assert(spawned_from(0, OBSTACLE_MIN_SIZE as int, OBSTACLE_MIN_SPEED as int, half_up(OBSTACLE_MIN_SIZE as int)) == None::<Shape>);
            }
            None
        };
        proof {
            if let Some(o) = spawned {
                let (roll, size, speed, x) = choose|roll: int, size: int, speed: int, x: int|
                    draws_in_range(roll, size, speed, x, input.screen_w as int) && spawned == #[trigger] spawned_from(roll, size, speed, x);
                assert(crate::motion::at_rest(o));
            }
        }
        let ghost pre = *self;
        let r = self.advance(input, emitting, spawned);
        assert(frame_result(pre, *self, *input, emitting@, spawned, r));
        r
    }
}

} // verus!
