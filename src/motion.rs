use vstd::prelude::*;
use crate::shape::{Shape, travel, distance, lemma_travel_bounds, MAX_REST};

verus! {

/// An obstacle after falling for `dt` microseconds.
pub open spec fn fallen(s: Shape, dt: int) -> Shape {
    Shape { y: (s.y + travel(s.speed as int, dt)) as i64, ..s }
}

/// A projectile after rising for `dt` microseconds.
pub open spec fn risen(s: Shape, dt: int) -> Shape {
    Shape { y: (s.y - travel(s.speed as int, dt)) as i64, ..s }
}

/// An entity between frames: valid, with coordinates within the resting bound.
pub open spec fn at_rest(s: Shape) -> bool {
    &&& s.valid()
    &&& -MAX_REST <= s.x <= MAX_REST
    &&& -MAX_REST <= s.y <= MAX_REST
}

/// Every obstacle falls by its own speed times the frame time.
pub fn fall_all(os: &mut Vec<Shape>, dt: u32)
    requires
        forall|i: int| 0 <= i < old(os).len() ==> at_rest(#[trigger] old(os)[i]),
    ensures
        final(os)@ == Seq::new(old(os)@.len(), |i: int| fallen(old(os)@[i], dt as int)),
        forall|i: int| 0 <= i < final(os).len() ==> (#[trigger] final(os)[i]).valid(),
        forall|i: int| 0 <= i < final(os).len() ==> final(os)[i].y >= #[trigger] old(os)[i].y,
{
    let ghost start = os@;
    let n = os.len();
    let mut i: usize = 0;
    while i < n
        invariant
            0 <= i <= n,
            n == os.len(),
            start.len() == n,
            forall|k: int| 0 <= k < n ==> at_rest(#[trigger] start[k]),
            forall|k: int| 0 <= k < n ==> #[trigger] os@[k] == if k < i { fallen(start[k], dt as int) } else { start[k] },
        decreases n - i,
    {
        let mut s = os[i];
        s.y = s.y + distance(s.speed, dt);
        os.set(i, s);
        i += 1;
    }
    assert(os@ =~= Seq::new(start.len(), |k: int| fallen(start[k], dt as int)));
    assert forall|k: int| 0 <= k < n implies #[trigger] os@[k] == fallen(start[k], dt as int) && os@[k].valid() && os@[k].y >= start[k].y by {
        lemma_travel_bounds(start[k].speed as int, dt as int);
    }
}

/// Every projectile rises by its own speed times the frame time.
pub fn rise_all(ps: &mut Vec<Shape>, dt: u32)
    requires
        forall|i: int| 0 <= i < old(ps).len() ==> at_rest(#[trigger] old(ps)[i]),
    ensures
        final(ps)@ == Seq::new(old(ps)@.len(), |i: int| risen(old(ps)@[i], dt as int)),
        forall|i: int| 0 <= i < final(ps).len() ==> (#[trigger] final(ps)[i]).valid(),
        forall|i: int| 0 <= i < final(ps).len() ==> final(ps)[i].y <= #[trigger] old(ps)[i].y,
{
    let ghost start = ps@;
    let n = ps.len();
    let mut i: usize = 0;
    while i < n
        invariant
            0 <= i <= n,
            n == ps.len(),
            start.len() == n,
            forall|k: int| 0 <= k < n ==> at_rest(#[trigger] start[k]),
            forall|k: int| 0 <= k < n ==> #[trigger] ps@[k] == if k < i { risen(start[k], dt as int) } else { start[k] },
        decreases n - i,
    {
        let mut s = ps[i];
        s.y = s.y - distance(s.speed, dt);
        ps.set(i, s);
        i += 1;
    }
    assert(ps@ =~= Seq::new(start.len(), |k: int| risen(start[k], dt as int)));
    assert forall|k: int| 0 <= k < n implies #[trigger] ps@[k] == risen(start[k], dt as int) && ps@[k].valid() && ps@[k].y <= start[k].y by {
        lemma_travel_bounds(start[k].speed as int, dt as int);
    }
}

/// The elements of `s` that `keep` holds of, in their order.
pub open spec fn kept<T>(s: Seq<T>, keep: spec_fn(T) -> bool) -> Seq<T>
    decreases s.len(),
{
    if s.len() == 0 {
        seq![]
    } else {
        let rest = kept(s.drop_last(), keep);
        if keep(s.last()) {
            rest.push(s.last())
        } else {
            rest
        }
    }
}

/// What `kept` leaves holds `keep` and comes from `s`; what `keep` holds of stays.
pub proof fn lemma_kept<T>(s: Seq<T>, keep: spec_fn(T) -> bool)
    ensures
        forall|k: int| 0 <= k < kept(s, keep).len() ==> keep(#[trigger] kept(s, keep)[k]),
        forall|k: int| 0 <= k < kept(s, keep).len() ==> s.contains(#[trigger] kept(s, keep)[k]),
        forall|i: int| 0 <= i < s.len() && keep(#[trigger] s[i]) ==> kept(s, keep).contains(s[i]),
        kept(s, keep).len() <= s.len(),
    decreases s.len(),
{
    if s.len() > 0 {
        let rest = s.drop_last();
        lemma_kept(rest, keep);
        let r = kept(rest, keep);
        assert forall|k: int| 0 <= k < kept(s, keep).len() implies s.contains(#[trigger] kept(s, keep)[k]) by {
            if k < r.len() {
                let w = choose|w: int| 0 <= w < rest.len() && rest[w] == r[k];
                assert(s[w] == r[k]);
            } else {
                assert(s[s.len() - 1] == s.last());
            }
        }
        assert forall|i: int| 0 <= i < s.len() && keep(#[trigger] s[i]) implies kept(s, keep).contains(s[i]) by {
            if i < s.len() - 1 {
                assert(rest[i] == s[i]);
                let w = choose|w: int| 0 <= w < r.len() && r[w] == rest[i];
                assert(kept(s, keep)[w] == s[i]);
            } else {
                assert(kept(s, keep)[kept(s, keep).len() - 1] == s[i]);
            }
        }
    }
}

/// Extending the prefix considered by one element extends `kept` by at most that element.
pub proof fn lemma_kept_step<T>(s: Seq<T>, i: int, keep: spec_fn(T) -> bool)
    requires
        0 <= i < s.len(),
    ensures
        kept(s.take(i + 1), keep) == if keep(s[i]) {
            kept(s.take(i), keep).push(s[i])
        } else {
            kept(s.take(i), keep)
        },
{
    assert(s.take(i + 1).drop_last() =~= s.take(i));
    assert(s.take(i + 1).last() == s[i]);
}

/// An obstacle stays while it has not left past the bottom edge by its own size.
pub open spec fn obstacle_stays(s: Shape, screen_h: int) -> bool {
    s.y < screen_h + s.size
}

/// A projectile stays while it has not left past the top edge by half its size.
pub open spec fn projectile_stays(s: Shape) -> bool {
    2 * s.y > -s.size
}

pub open spec fn obstacle_filter(screen_h: int) -> spec_fn(Shape) -> bool {
    |s: Shape| obstacle_stays(s, screen_h)
}

pub open spec fn projectile_filter() -> spec_fn(Shape) -> bool {
    |s: Shape| projectile_stays(s)
}

pub open spec fn uncollided() -> spec_fn(Shape) -> bool {
    |s: Shape| !s.collided
}

/// Removes the obstacles that left the screen at the bottom.
pub fn sweep_obstacles(os: &mut Vec<Shape>, screen_h: i64)
    requires
        0 < screen_h <= crate::shape::MAX_SCREEN,
        forall|i: int| 0 <= i < old(os).len() ==> (#[trigger] old(os)[i]).valid(),
    ensures
        final(os)@ == kept(old(os)@, obstacle_filter(screen_h as int)),
{
    let ghost keep = obstacle_filter(screen_h as int);
    let ghost start = os@;
    let mut out: Vec<Shape> = Vec::new();
    let n = os.len();
    let mut i: usize = 0;
    while i < n
        invariant
            0 <= i <= n,
            n == os.len(),
            os@ == start,
            0 < screen_h <= crate::shape::MAX_SCREEN,
            forall|k: int| 0 <= k < n ==> (#[trigger] start[k]).valid(),
            keep == obstacle_filter(screen_h as int),
            out@ == kept(start.take(i as int), keep),
        decreases n - i,
    {
        proof {
            lemma_kept_step(start, i as int, keep);
        }
        let s = os[i];
        assert(keep(s) == (s.y < screen_h + s.size));
        if s.y < screen_h + s.size {
            out.push(s);
        }
        i += 1;
    }
    assert(start.take(n as int) =~= start);
    *os = out;
}

/// Removes the projectiles that left the screen at the top.
pub fn sweep_projectiles(ps: &mut Vec<Shape>)
    requires
        forall|i: int| 0 <= i < old(ps).len() ==> (#[trigger] old(ps)[i]).valid(),
    ensures
        final(ps)@ == kept(old(ps)@, projectile_filter()),
{
    let ghost keep = projectile_filter();
    let ghost start = ps@;
    let mut out: Vec<Shape> = Vec::new();
    let n = ps.len();
    let mut i: usize = 0;
    while i < n
        invariant
            0 <= i <= n,
            n == ps.len(),
            ps@ == start,
            forall|k: int| 0 <= k < n ==> (#[trigger] start[k]).valid(),
            keep == projectile_filter(),
            out@ == kept(start.take(i as int), keep),
        decreases n - i,
    {
        proof {
            lemma_kept_step(start, i as int, keep);
        }
        let s = ps[i];
        assert(keep(s) == (2 * s.y > -s.size));
        if 2 * s.y > -s.size {
            out.push(s);
        }
        i += 1;
    }
    assert(start.take(n as int) =~= start);
    *ps = out;
}

/// Removes the entities marked collided.
pub fn sweep_collided(v: &mut Vec<Shape>)
    ensures
        final(v)@ == kept(old(v)@, uncollided()),
{
    let ghost keep = uncollided();
    let ghost start = v@;
    let mut out: Vec<Shape> = Vec::new();
    let n = v.len();
    let mut i: usize = 0;
    while i < n
        invariant
            0 <= i <= n,
            n == v.len(),
            v@ == start,
            keep == uncollided(),
            out@ == kept(start.take(i as int), keep),
        decreases n - i,
    {
        proof {
            lemma_kept_step(start, i as int, keep);
        }
        let s = v[i];
        assert(keep(s) == !s.collided);
        if !s.collided {
            out.push(s);
        }
        i += 1;
    }
    assert(start.take(n as int) =~= start);
    *v = out;
}

} // verus!
