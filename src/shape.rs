use vstd::prelude::*;

verus! {

/// Sub-pixel units in one pixel.
pub const UNITS_PER_PIXEL: i64 = 1000;

/// Microseconds in one second.
pub const MICROS_PER_SECOND: i64 = 1_000_000;

/// Largest edge length of an entity, in units.
pub const MAX_SIZE: i64 = 0x10_0000;

/// Largest speed of an entity, in units per second.
pub const MAX_SPEED: i64 = 0x400_0000;

/// Largest screen dimension, in units.
pub const MAX_SCREEN: i64 = 0x10_0000_0000;

/// Bound on the distance covered in one frame, in units.
pub const MAX_TRAVEL: i64 = 0x80_0000_0000;

/// Bound on the coordinates of an entity between frames.
pub const MAX_REST: i64 = 0x200_0000_0000;

/// Bound on the coordinates of an entity that has just moved.
pub const MAX_COORD: i64 = 0x400_0000_0000;

/// An axis-aligned box in half-unit coordinates: the left and top edges,
/// the width and the height. Half units keep the edges exact for odd sizes.
#[derive(Clone, Copy, Debug, PartialEq, Eq, Structural)]
pub struct Rect {
    pub x: i64,
    pub y: i64,
    pub w: i64,
    pub h: i64,
}

impl Rect {
    pub open spec fn valid(self) -> bool {
        &&& -4 * MAX_COORD <= self.x <= 4 * MAX_COORD
        &&& -4 * MAX_COORD <= self.y <= 4 * MAX_COORD
        &&& 0 <= self.w <= 4 * MAX_COORD
        &&& 0 <= self.h <= 4 * MAX_COORD
    }

    /// Both boxes share an area of positive size: touching edges do not count.
    pub open spec fn overlaps_spec(self, o: Rect) -> bool {
        &&& self.x < o.x + o.w
        &&& o.x < self.x + self.w
        &&& self.y < o.y + o.h
        &&& o.y < self.y + self.h
    }

    pub fn overlaps(&self, other: &Rect) -> (r: bool)
        requires
            self.valid(),
            other.valid(),
        ensures
            r == self.overlaps_spec(*other),
    {
        self.x < other.x + other.w && other.x < self.x + self.w && self.y < other.y + other.h
            && other.y < self.y + self.h
    }
}

/// An entity: player, obstacle or projectile. Its collision box is the square
/// of edge `size` centred on `(x, y)`.
#[derive(Clone, Copy, Debug, PartialEq, Eq, Structural)]
pub struct Shape {
    pub size: i64,
    pub speed: i64,
    pub x: i64,
    pub y: i64,
    pub collided: bool,
}

/// The distance covered at `speed` units per second during `dt` microseconds.
pub open spec fn travel(speed: int, dt: int) -> int {
    speed * dt / MICROS_PER_SECOND as int
}

/// The two entities' boxes overlap with positive area.
pub open spec fn overlap(a: Shape, b: Shape) -> bool {
    &&& 2 * a.x - 2 * b.x < a.size + b.size
    &&& 2 * b.x - 2 * a.x < a.size + b.size
    &&& 2 * a.y - 2 * b.y < a.size + b.size
    &&& 2 * b.y - 2 * a.y < a.size + b.size
}

/// Whole pixels in a length, rounded half away from zero.
pub open spec fn pixels(len: int) -> int {
    (len + UNITS_PER_PIXEL / 2) / UNITS_PER_PIXEL as int
}

/// `pixels` of a length in range.
pub fn round_to_pixels(len: i64) -> (r: u32)
    requires
        0 <= len <= MAX_SIZE,
    ensures
        r == pixels(len as int),
{
    ((len + UNITS_PER_PIXEL / 2) / UNITS_PER_PIXEL) as u32
}

/// The distance covered in one frame is below `MAX_TRAVEL`.
pub proof fn lemma_travel_bounds(speed: int, dt: int)
    requires
        0 <= speed <= MAX_SPEED,
        0 <= dt <= u32::MAX,
    ensures
        0 <= speed * dt <= MAX_SPEED * u32::MAX,
        0 <= travel(speed, dt) < MAX_TRAVEL,
{
    assert(0 <= speed * dt <= MAX_SPEED * 0xffff_ffff) by (nonlinear_arith)
        requires
            0 <= speed <= MAX_SPEED,
            0 <= dt <= 0xffff_ffff,
    ;
    assert((speed * dt) / MICROS_PER_SECOND as int <= (MAX_SPEED * 0xffff_ffff) / MICROS_PER_SECOND as int) by (nonlinear_arith)
        requires
            0 <= speed * dt <= MAX_SPEED * 0xffff_ffff,
    ;
}

/// `travel` for a speed and a frame time in range.
pub fn distance(speed: i64, dt: u32) -> (r: i64)
    requires
        0 <= speed <= MAX_SPEED,
    ensures
        r == travel(speed as int, dt as int),
        0 <= r < MAX_TRAVEL,
{
    proof {
        lemma_travel_bounds(speed as int, dt as int);
    }
    (speed * dt as i64) / MICROS_PER_SECOND
}

impl Shape {
    /// Size and speed in range, coordinates within the bound of a moved entity.
    pub open spec fn valid(self) -> bool {
        &&& 0 <= self.size <= MAX_SIZE
        &&& 0 <= self.speed <= MAX_SPEED
        &&& -MAX_COORD <= self.x <= MAX_COORD
        &&& -MAX_COORD <= self.y <= MAX_COORD
    }

    pub open spec fn rect_spec(self) -> Rect {
        Rect {
            x: (2 * self.x - self.size) as i64,
            y: (2 * self.y - self.size) as i64,
            w: (2 * self.size) as i64,
            h: (2 * self.size) as i64,
        }
    }

    /// The collision box, in half units.
    pub fn rect(&self) -> (r: Rect)
        requires
            self.valid(),
        ensures
            r == self.rect_spec(),
            r.valid(),
    {
        Rect {
            x: 2 * self.x - self.size,
            y: 2 * self.y - self.size,
            w: 2 * self.size,
            h: 2 * self.size,
        }
    }

    pub fn collides_with(&self, other: &Shape) -> (r: bool)
        requires
            self.valid(),
            other.valid(),
        ensures
            r == overlap(*self, *other),
    {
        self.rect().overlaps(&other.rect())
    }
}

/// Overlap does not depend on which entity is named first.
pub proof fn lemma_overlap_symmetric(a: Shape, b: Shape)
    ensures
        overlap(a, b) == overlap(b, a),
{
}

} // verus!
