use vstd::prelude::*;
use crate::shape::{Shape, overlap, pixels, round_to_pixels};

verus! {

/// A transient explosion: where it is anchored and how many particles it emits.
#[derive(Clone, Copy, Debug, PartialEq, Eq, Structural)]
pub struct Effect {
    pub x: i64,
    pub y: i64,
    pub amount: u32,
}

/// Points for destroying an obstacle: its size in whole pixels.
pub open spec fn points(o: Shape) -> int {
    pixels(o.size as int)
}

/// The explosion that destroying an obstacle leaves at its position.
pub open spec fn explosion(o: Shape) -> Effect {
    Effect { x: o.x, y: o.y, amount: (2 * points(o)) as u32 }
}

/// How many of the projectiles overlap the obstacle.
pub open spec fn hit_count(o: Shape, ps: Seq<Shape>) -> nat
    decreases ps.len(),
{
    if ps.len() == 0 {
        0
    } else {
        hit_count(o, ps.drop_last()) + if overlap(o, ps.last()) { 1nat } else { 0nat }
    }
}

/// Points scored over all overlapping (obstacle, projectile) pairs.
pub open spec fn total_points(os: Seq<Shape>, ps: Seq<Shape>) -> nat
    decreases os.len(),
{
    if os.len() == 0 {
        0
    } else {
        total_points(os.drop_last(), ps) + hit_count(os.last(), ps) * (points(os.last()) as nat)
    }
}

/// One explosion per overlapping pair, obstacle by obstacle.
pub open spec fn explosions(os: Seq<Shape>, ps: Seq<Shape>) -> Seq<Effect>
    decreases os.len(),
{
    if os.len() == 0 {
        seq![]
    } else {
        explosions(os.drop_last(), ps) + Seq::new(hit_count(os.last(), ps), |k: int| explosion(os.last()))
    }
}

/// The entity overlaps at least one of `others`.
pub open spec fn hit_any(s: Shape, others: Seq<Shape>) -> bool {
    exists|j: int| 0 <= j < others.len() && overlap(s, #[trigger] others[j])
}

pub open spec fn mark(s: Shape, hit: bool) -> Shape {
    Shape { collided: s.collided || hit, ..s }
}

/// Each entity of `group`, marked collided where it overlaps one of `others`.
pub open spec fn marked(group: Seq<Shape>, others: Seq<Shape>) -> Seq<Shape> {
    Seq::new(group.len(), |i: int| mark(group[i], hit_any(group[i], others)))
}

/// A score after a gain, held at `u32::MAX`.
pub open spec fn saturated(n: int) -> u32 {
    if n > u32::MAX {
        u32::MAX
    } else {
        n as u32
    }
}

pub open spec fn all_valid(s: Seq<Shape>) -> bool {
    forall|i: int| 0 <= i < s.len() ==> (#[trigger] s[i]).valid()
}

/// The player overlaps some obstacle.
pub fn player_hit(player: &Shape, os: &Vec<Shape>) -> (r: bool)
    requires
        player.valid(),
        all_valid(os@),
    ensures
        r == hit_any(*player, os@),
{
    let n = os.len();
    let mut i: usize = 0;
    while i < n
        invariant
            0 <= i <= n,
            n == os.len(),
            player.valid(),
            all_valid(os@),
            forall|k: int| 0 <= k < i ==> !overlap(*player, #[trigger] os@[k]),
        decreases n - i,
    {
        if player.collides_with(&os[i]) {
            return true;
        }
        i += 1;
    }
    false
}

proof fn lemma_hit_count_step(o: Shape, ps: Seq<Shape>, j: int)
    requires
        0 <= j < ps.len(),
    ensures
        hit_count(o, ps.take(j + 1)) == hit_count(o, ps.take(j)) + if overlap(o, ps[j]) { 1nat } else { 0nat },
{
    assert(ps.take(j + 1).drop_last() =~= ps.take(j));
}

proof fn lemma_totals_step(os: Seq<Shape>, ps: Seq<Shape>, i: int)
    requires
        0 <= i < os.len(),
    ensures
        total_points(os.take(i + 1), ps) == total_points(os.take(i), ps) + hit_count(os[i], ps) * (points(os[i]) as nat),
        explosions(os.take(i + 1), ps) == explosions(os.take(i), ps) + Seq::new(hit_count(os[i], ps), |k: int| explosion(os[i])),
{
    assert(os.take(i + 1).drop_last() =~= os.take(i));
    assert(os.take(i + 1).last() == os[i]);
}

/// Marks every overlapping (obstacle, projectile) pair as collided; for each
/// such pair adds the obstacle's points to the score, raises the high score to
/// the score, and records an explosion at the obstacle.
pub fn resolve_hits(
    os: &mut Vec<Shape>,
    ps: &mut Vec<Shape>,
    effects: &mut Vec<Effect>,
    score: &mut u32,
    high_score: &mut u32,
)
    requires
        all_valid(old(os)@),
        all_valid(old(ps)@),
        *old(score) <= *old(high_score),
    ensures
        final(os)@ == marked(old(os)@, old(ps)@),
        final(ps)@ == marked(old(ps)@, old(os)@),
        final(effects)@ == old(effects)@ + explosions(old(os)@, old(ps)@),
        *final(score) == saturated(*old(score) + total_points(old(os)@, old(ps)@)),
        *final(high_score) == if *old(high_score) >= *final(score) { *old(high_score) } else { *final(score) },
{
    let ghost os0 = os@;
    let ghost ps0 = ps@;
    let ghost e0 = effects@;
    let ghost s0 = *score as int;
    let ghost h0 = *high_score;
    let n = os.len();
    let m = ps.len();
    let mut i: usize = 0;
    while i < n
        invariant
            0 <= i <= n,
            n == os.len(),
            m == ps.len(),
            os0.len() == n,
            ps0.len() == m,
            all_valid(os0),
            all_valid(ps0),
            0 <= s0 <= h0,
            forall|a: int| 0 <= a < n ==> #[trigger] os@[a] == if a < i { mark(os0[a], hit_any(os0[a], ps0)) } else { os0[a] },
            forall|b: int| 0 <= b < m ==> #[trigger] ps@[b] == mark(ps0[b], exists|a: int| 0 <= a < i && overlap(ps0[b], #[trigger] os0[a])),
            effects@ == e0 + explosions(os0.take(i as int), ps0),
            *score == saturated(s0 + total_points(os0.take(i as int), ps0)),
            *high_score == if h0 >= *score { h0 } else { *score },
        decreases n - i,
    {
        let mut o = os[i];
        let ghost oi = os0[i as int];
        let ghost before = effects@;
        let ghost base = s0 + total_points(os0.take(i as int), ps0);
        let mut j: usize = 0;
        while j < m
            invariant
                0 <= i < n,
                0 <= j <= m,
                n == os.len(),
                m == ps.len(),
                os0.len() == n,
                ps0.len() == m,
                all_valid(os0),
                all_valid(ps0),
                oi == os0[i as int],
                o == mark(oi, exists|b: int| 0 <= b < j && overlap(oi, #[trigger] ps0[b])),
                forall|a: int| 0 <= a < n ==> #[trigger] os@[a] == if a < i { mark(os0[a], hit_any(os0[a], ps0)) } else { os0[a] },
                forall|b: int| 0 <= b < m ==> #[trigger] ps@[b] == mark(ps0[b], exists|a: int| (0 <= a < i || (a == i && b < j)) && overlap(ps0[b], #[trigger] os0[a])),
                effects@ == before + Seq::new(hit_count(oi, ps0.take(j as int)), |k: int| explosion(oi)),
                *score == saturated(base + hit_count(oi, ps0.take(j as int)) * (points(oi) as nat)),
                *high_score == if h0 >= *score { h0 } else { *score },
                base >= 0,
            decreases m - j,
        {
            proof {
                lemma_hit_count_step(oi, ps0, j as int);
            }
            let mut p = ps[j];
            let hit = p.collides_with(&o);
            proof {
                crate::shape::lemma_overlap_symmetric(oi, ps0[j as int]);
            }
            if hit {
                p.collided = true;
                ps.set(j, p);
                o.collided = true;
                let gain = round_to_pixels(o.size);
                let ghost c = hit_count(oi, ps0.take(j as int));
                let ghost pt = points(oi) as nat;
                assert(pt == points(oi));
                assert(c * pt + pt == (c + 1) * pt) by (nonlinear_arith);
                *score = score.saturating_add(gain);
                if *high_score < *score {
                    *high_score = *score;
                }
                effects.push(Effect { x: o.x, y: o.y, amount: gain * 2 });
                assert(Seq::new(c + 1, |k: int| explosion(oi)) =~= Seq::new(c, |k: int| explosion(oi)).push(explosion(oi)));
            }
            proof {
                assert forall|b: int| 0 <= b < m implies #[trigger] ps@[b] == mark(ps0[b], exists|a: int| (0 <= a < i || (a == i && b < j + 1)) && overlap(ps0[b], #[trigger] os0[a])) by {
                    if b == j {
                        crate::shape::lemma_overlap_symmetric(oi, ps0[b]);
                    }
                }
            }
            j += 1;
        }
        proof {
            assert(ps0.take(m as int) =~= ps0);
            lemma_totals_step(os0, ps0, i as int);
        }
        os.set(i, o);
        i += 1;
    }
    proof {
        assert(os0.take(n as int) =~= os0);
        assert(os@ =~= marked(os0, ps0));
        assert(ps@ =~= marked(ps0, os0)) by {
            assert forall|b: int| 0 <= b < m implies (exists|a: int| 0 <= a < n && overlap(ps0[b], #[trigger] os0[a])) == hit_any(ps0[b], os0) by {
            }
        }
    }
}

/// The effects whose emission is still running, in their order.
pub open spec fn still_emitting(es: Seq<Effect>, emitting: Seq<bool>) -> Seq<Effect>
    decreases es.len(),
{
    if es.len() == 0 || emitting.len() == 0 {
        seq![]
    } else {
        let rest = still_emitting(es.drop_last(), emitting.drop_last());
        if emitting.last() {
            rest.push(es.last())
        } else {
            rest
        }
    }
}

/// Drops each effect whose flag in `emitting` says its emission has ended.
pub fn retain_emitting(effects: &mut Vec<Effect>, emitting: &Vec<bool>)
    requires
        old(effects).len() == emitting.len(),
    ensures
        final(effects)@ == still_emitting(old(effects)@, emitting@),
{
    let ghost start = effects@;
    let mut out: Vec<Effect> = Vec::new();
    let n = effects.len();
    let mut i: usize = 0;
    while i < n
        invariant
            0 <= i <= n,
            n == effects.len(),
            n == emitting.len(),
            effects@ == start,
            out@ == still_emitting(start.take(i as int), emitting@.take(i as int)),
        decreases n - i,
    {
        proof {
            assert(start.take(i + 1).drop_last() =~= start.take(i as int));
            assert(emitting@.take(i + 1).drop_last() =~= emitting@.take(i as int));
            assert(start.take(i + 1).last() == start[i as int]);
            assert(emitting@.take(i + 1).last() == emitting@[i as int]);
        }
        if emitting[i] {
            out.push(effects[i]);
        }
        i += 1;
    }
    assert(start.take(n as int) =~= start);
    assert(emitting@.take(n as int) =~= emitting@);
    *effects = out;
}

} // verus!
