use vstd::prelude::*;
use crate::shape::{Shape, overlap, travel, pixels, MAX_REST, MAX_SPEED};
use crate::motion::{fallen, kept, obstacle_filter, projectile_filter, uncollided, lemma_kept};
use crate::collision::{marked, mark, hit_any, total_points, explosions, explosion, hit_count};
use crate::game::{Game, GameState, FrameInput, FrameAction, frame_result, frame_obstacles, frame_projectiles};

verus! {

/// After any frame of play the player lies within the playfield.
pub proof fn lemma_player_stays_on_screen(
    pre: Game,
    post: Game,
    input: FrameInput,
    emitting: Seq<bool>,
    spawned: Option<Shape>,
    r: FrameAction,
)
    requires
        pre.state == GameState::Playing,
        input.valid(),
        frame_result(pre, post, input, emitting, spawned, r),
    ensures
        0 <= post.player.x <= input.screen_w,
        0 <= post.player.y <= input.screen_h,
{
}

/// An obstacle at or below the bottom edge by its own size is gone after a sweep.
pub proof fn lemma_departed_obstacles_removed(os: Seq<Shape>, screen_h: int)
    ensures
        forall|s: Shape| s.y >= screen_h + s.size ==> !#[trigger] kept(os, obstacle_filter(screen_h)).contains(s),
{
    lemma_kept(os, obstacle_filter(screen_h));
}

/// A projectile at or above the top edge by half its size is gone after a sweep.
pub proof fn lemma_departed_projectiles_removed(ps: Seq<Shape>)
    ensures
        forall|s: Shape| 2 * s.y <= -s.size ==> !#[trigger] kept(ps, projectile_filter()).contains(s),
{
    lemma_kept(ps, projectile_filter());
}

/// An obstacle and a projectile that overlap are both marked collided, and
/// neither survives the sweep that follows, whatever order the pairs are visited in.
pub proof fn lemma_overlapping_pair_removed(os: Seq<Shape>, ps: Seq<Shape>, i: int, j: int)
    requires
        0 <= i < os.len(),
        0 <= j < ps.len(),
        overlap(os[i], ps[j]),
    ensures
        marked(os, ps)[i].collided,
        marked(ps, os)[j].collided,
        !kept(marked(os, ps), uncollided()).contains(marked(os, ps)[i]),
        !kept(marked(ps, os), uncollided()).contains(marked(ps, os)[j]),
{
    crate::shape::lemma_overlap_symmetric(os[i], ps[j]);
    lemma_kept(marked(os, ps), uncollided());
    lemma_kept(marked(ps, os), uncollided());
}

/// After a frame of play every obstacle left is uncollided and above the
/// bottom edge by its size, and every projectile left is uncollided and below
/// the top edge by half its size.
pub proof fn lemma_frame_survivors(
    pre: Game,
    post: Game,
    input: FrameInput,
    emitting: Seq<bool>,
    spawned: Option<Shape>,
    r: FrameAction,
)
    requires
        pre.state == GameState::Playing,
        frame_result(pre, post, input, emitting, spawned, r),
    ensures
        forall|k: int| 0 <= k < post.obstacles@.len() ==> {
            let o = #[trigger] post.obstacles@[k];
            !o.collided && o.y < input.screen_h + o.size
        },
        forall|k: int| 0 <= k < post.projectiles@.len() ==> {
            let p = #[trigger] post.projectiles@[k];
            !p.collided && 2 * p.y > -p.size
        },
{
    let h = input.screen_h as int;
    let os = frame_obstacles(pre, input, spawned);
    let ps = frame_projectiles(pre, input);
    let mo = marked(os, ps);
    let mp = marked(ps, os);
    lemma_kept(mo, uncollided());
    lemma_kept(mp, uncollided());
    lemma_kept(crate::game::all_fallen(crate::game::with_spawn(pre.obstacles@, spawned), input.dt as int), obstacle_filter(h));
    lemma_kept(crate::game::all_risen(crate::game::with_shot(pre.projectiles@, crate::game::steered(pre.player, input), input.fire), input.dt as int), projectile_filter());
    assert forall|k: int| 0 <= k < post.obstacles@.len() implies {
        let o = #[trigger] post.obstacles@[k];
        !o.collided && o.y < input.screen_h + o.size
    } by {
        let o = post.obstacles@[k];
        assert(uncollided()(o));
        let a = choose|a: int| 0 <= a < mo.len() && mo[a] == o;
        assert(mo[a] == mark(os[a], hit_any(os[a], ps)));
        assert(obstacle_filter(h)(os[a]));
    }
    assert forall|k: int| 0 <= k < post.projectiles@.len() implies {
        let p = #[trigger] post.projectiles@[k];
        !p.collided && 2 * p.y > -p.size
    } by {
        let p = post.projectiles@[k];
        assert(uncollided()(p));
        let a = choose|a: int| 0 <= a < mp.len() && mp[a] == p;
        assert(mp[a] == mark(ps[a], hit_any(ps[a], os)));
        assert(projectile_filter()(ps[a]));
    }
}

/// Within a frame of play, an obstacle and a projectile whose boxes overlap
/// are both marked collided, and neither is left after the frame.
pub proof fn lemma_frame_removes_overlapping_pair(
    pre: Game,
    post: Game,
    input: FrameInput,
    emitting: Seq<bool>,
    spawned: Option<Shape>,
    r: FrameAction,
    i: int,
    j: int,
)
    requires
        pre.state == GameState::Playing,
        frame_result(pre, post, input, emitting, spawned, r),
        0 <= i < frame_obstacles(pre, input, spawned).len(),
        0 <= j < frame_projectiles(pre, input).len(),
        overlap(frame_obstacles(pre, input, spawned)[i], frame_projectiles(pre, input)[j]),
    ensures
        ({
            let os = frame_obstacles(pre, input, spawned);
            let ps = frame_projectiles(pre, input);
            &&& marked(os, ps)[i].collided
            &&& marked(ps, os)[j].collided
            &&& !post.obstacles@.contains(marked(os, ps)[i])
            &&& !post.projectiles@.contains(marked(ps, os)[j])
        }),
{
    lemma_overlapping_pair_removed(frame_obstacles(pre, input, spawned), frame_projectiles(pre, input), i, j);
}

/// One obstacle hit by one projectile scores its size in whole pixels once,
/// and leaves exactly one explosion at the obstacle.
pub proof fn lemma_single_hit_scores_once(o: Shape, p: Shape)
    requires
        overlap(o, p),
        o.size >= 0,
    ensures
        total_points(seq![o], seq![p]) == pixels(o.size as int),
        explosions(seq![o], seq![p]) == seq![explosion(o)],
{
    let os = seq![o];
    let ps = seq![p];
    assert(os.drop_last() =~= Seq::<Shape>::empty());
    assert(ps.drop_last() =~= Seq::<Shape>::empty());
    assert(ps.last() == p);
    assert(os.last() == o);
    assert(hit_count(o, ps.drop_last()) == 0);
    assert(hit_count(o, ps) == 1);
    assert(explosions(os.drop_last(), ps) == Seq::<crate::collision::Effect>::empty());
    assert(total_points(os.drop_last(), ps) == 0);
    assert(Seq::new(1, |k: int| explosion(o)) =~= seq![explosion(o)]);
    assert(pixels(o.size as int) >= 0);
    assert(explosions(os, ps) =~= seq![explosion(o)]);
}

/// The high score is written on a frame exactly when the player dies on it
/// while the score equals the high score.
pub proof fn lemma_save_only_on_tied_death(
    pre: Game,
    post: Game,
    input: FrameInput,
    emitting: Seq<bool>,
    spawned: Option<Shape>,
    r: FrameAction,
)
    requires
        pre.state == GameState::Playing,
        frame_result(pre, post, input, emitting, spawned, r),
    ensures
        (r is SaveHighScore) == (post.state == GameState::GameOver && pre.score == pre.high_score),
        r is SaveHighScore ==> r == FrameAction::SaveHighScore(pre.high_score),
{
}

/// An obstacle after `n` frames of `dt` microseconds each.
pub open spec fn fallen_frames(s: Shape, dt: int, n: nat) -> Shape
    decreases n,
{
    if n == 0 {
        s
    } else {
        fallen(fallen_frames(s, dt, (n - 1) as nat), dt)
    }
}

/// Falling for `n` equal frames moves an obstacle down by `n` times one frame's travel.
pub proof fn lemma_fall_over_frames(s: Shape, dt: int, n: nat)
    requires
        0 <= s.speed <= MAX_SPEED,
        -MAX_REST <= s.y,
        0 <= dt <= u32::MAX,
        s.y + n * travel(s.speed as int, dt) <= MAX_REST,
    ensures
        fallen_frames(s, dt, n).y == s.y + n * travel(s.speed as int, dt),
        fallen_frames(s, dt, n).speed == s.speed,
        fallen_frames(s, dt, n).size == s.size,
        fallen_frames(s, dt, n).x == s.x,
    decreases n,
{
    let t = travel(s.speed as int, dt);
    crate::shape::lemma_travel_bounds(s.speed as int, dt);
    if n > 0 {
        let m = (n - 1) as nat;
        assert(m * t <= n * t) by (nonlinear_arith)
            requires
                m + 1 == n,
                t >= 0,
        ;
        assert(n * t == m * t + t) by (nonlinear_arith)
            requires
                m + 1 == n,
        ;
        lemma_fall_over_frames(s, dt, m);
        let prev = fallen_frames(s, dt, m);
        assert(prev.y == s.y + m * t);
        assert(fallen_frames(s, dt, n) == fallen(prev, dt));
        assert(fallen(prev, dt).y == prev.y + t);
        assert(fallen_frames(s, dt, n).y == s.y + n * t);
    } else {
        assert(n * t == 0) by (nonlinear_arith)
            requires
                n == 0,
        ;
    }
}

} // verus!
