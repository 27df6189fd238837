//! Velocities, discrete steering actions, wall reflection and integration.
use vstd::prelude::*;
use crate::geometry::{lemma_mul_bounded, Point, WORLD_LIMIT};
use crate::vision::Obstacle;

verus! {

/// A steering decision: which way an agent turns, keeping its speed.
/// `Up` decreases `y`, as on a screen.
#[derive(Clone, Copy, Debug, PartialEq, Eq, Structural)]
pub enum Action {
    Right,
    Left,
    Up,
    Down,
}

impl Action {
    /// The action's position in the order `Right, Left, Up, Down`.
    pub open spec fn index(self) -> int {
        match self {
            Action::Right => 0,
            Action::Left => 1,
            Action::Up => 2,
            Action::Down => 3,
        }
    }

    /// The action at position `i` of the order `Right, Left, Up, Down`.
    pub fn from_index(i: usize) -> (r: Option<Action>)
        ensures
            r.is_some() == (i < 4),
            r.is_some() ==> r.unwrap().index() == i,
    {
        if i == 0 {
            Some(Action::Right)
        } else if i == 1 {
            Some(Action::Left)
        } else if i == 2 {
            Some(Action::Up)
        } else if i == 3 {
            Some(Action::Down)
        } else {
            None
        }
    }
}

/// Displacement per tick, in arena units.
#[derive(Clone, Copy, Debug, PartialEq, Eq, Structural)]
pub struct Velocity {
    pub x: i64,
    pub y: i64,
}

/// `r` is the integer square root of `n`.
pub open spec fn is_root(r: int, n: int) -> bool {
    0 <= r && r * r <= n < (r + 1) * (r + 1)
}

/// The integer square root of `n`.
pub open spec fn root_of(n: int) -> int {
    choose|r: int| is_root(r, n)
}

/// The speed of a velocity, rounded down to a whole unit.
pub open spec fn speed_of(v: Velocity) -> int {
    root_of(v.x * v.x + v.y * v.y)
}

/// A speed that a velocity may not exceed: the one of a step across the
/// whole world.
pub open spec fn speed_bounded(v: Velocity) -> bool {
    v.x * v.x + v.y * v.y <= WORLD_LIMIT * WORLD_LIMIT
}

proof fn lemma_root_unique(r: int, s: int, n: int)
    requires
        is_root(r, n),
        is_root(s, n),
    ensures
        r == s,
{
    if r < s {
        assert((r + 1) * (r + 1) <= s * s) by (nonlinear_arith)
            requires 0 <= r < s;
    } else if s < r {
        assert((s + 1) * (s + 1) <= r * r) by (nonlinear_arith)
            requires 0 <= s < r;
    }
}

proof fn lemma_bounded_components(v: Velocity)
    requires
        speed_bounded(v),
    ensures
        -WORLD_LIMIT <= v.x <= WORLD_LIMIT,
        -WORLD_LIMIT <= v.y <= WORLD_LIMIT,
{
    let (x, y) = (v.x as int, v.y as int);
    assert(-131072 <= x <= 131072 && -131072 <= y <= 131072) by (nonlinear_arith)
        requires x * x + y * y <= 131072 * 131072;
}

/// The velocity after steering with `action` at speed `m`, or unchanged when
/// there is no action.
pub open spec fn steered(v: Velocity, action: Option<Action>, m: int) -> Velocity {
    match action {
        Some(Action::Right) => Velocity { x: m as i64, y: 0 },
        Some(Action::Left) => Velocity { x: -m as i64, y: 0 },
        Some(Action::Up) => Velocity { x: 0, y: -m as i64 },
        Some(Action::Down) => Velocity { x: 0, y: m as i64 },
        None => v,
    }
}

/// The position `p` lies beyond the margin `radius` of the arena
/// `[0, width] x [0, height]` along the `x` axis.
pub open spec fn crosses_x(p: Point, width: int, radius: int) -> bool {
    p.x > width - radius || p.x < radius
}

/// As `crosses_x`, along the `y` axis.
pub open spec fn crosses_y(p: Point, height: int, radius: int) -> bool {
    p.y > height - radius || p.y < radius
}

/// The velocity after reflection off the arena's walls: each component is
/// negated exactly when the position lies beyond the margin on its axis.
pub open spec fn reflected(p: Point, v: Velocity, width: int, height: int, radius: int) -> Velocity {
    Velocity {
        x: (if crosses_x(p, width, radius) { -v.x } else { v.x as int }) as i64,
        y: (if crosses_y(p, height, radius) { -v.y } else { v.y as int }) as i64,
    }
}

/// The position lies on the obstacle, within `radius` of its line and
/// strictly between its ends.
pub open spec fn touches(p: Point, o: Obstacle, radius: int) -> bool {
    o.x < p.x < o.x + o.length && o.y - radius < p.y < o.y + radius
}

pub open spec fn clamp(x: int, lo: int, hi: int) -> int {
    if x < lo {
        lo
    } else if x > hi {
        hi
    } else {
        x
    }
}

/// The position after `time` ticks at velocity `v`, held within the world.
pub open spec fn advanced(p: Point, v: Velocity, time: int) -> Point {
    Point {
        x: clamp(p.x + v.x * time, -WORLD_LIMIT as int, WORLD_LIMIT as int) as i64,
        y: clamp(p.y + v.y * time, -WORLD_LIMIT as int, WORLD_LIMIT as int) as i64,
    }
}

/// The integer square root of `n`, found by bisection.
pub fn isqrt(n: u64) -> (r: u64)
    requires
        n <= WORLD_LIMIT * WORLD_LIMIT,
    ensures
        is_root(r as int, n as int),
        r <= WORLD_LIMIT,
{
    let mut lo: u64 = 0;
    let mut hi: u64 = 131073;
    while lo + 1 < hi
        invariant
            lo < hi <= 131073,
            lo * lo <= n,
            n < hi * hi,
        decreases hi - lo,
    {
        let mid = lo + (hi - lo) / 2;
        proof {
            lemma_mul_bounded(mid as int, mid as int, 131073, 131073);
        }
        if mid * mid <= n {
            lo = mid;
        } else {
            hi = mid;
        }
    }
    proof {
        assert(lo <= 131072);
        assert(lo * lo <= n);
        assert((lo + 1) * (lo + 1) > n);
    }
    lo
}

impl Velocity {
    /// The speed, rounded down.
    pub fn speed(&self) -> (r: i64)
        requires
            speed_bounded(*self),
        ensures
            r == speed_of(*self),
            0 <= r <= WORLD_LIMIT,
    {
        proof {
            lemma_bounded_components(*self);
            lemma_mul_bounded(self.x as int, self.x as int, 131072, 131072);
            lemma_mul_bounded(self.y as int, self.y as int, 131072, 131072);
            assert(self.x * self.x >= 0 && self.y * self.y >= 0) by (nonlinear_arith);
        }
        let n = (self.x * self.x + self.y * self.y) as u64;
        let r = isqrt(n);
        proof {
            let m = speed_of(*self);
            assert(is_root(r as int, n as int));
            assert(is_root(m, n as int));
            lemma_root_unique(r as int, m, n as int);
        }
        r as i64
    }
}

/// Turns `v` the way `action` says, keeping its speed; no action keeps `v`.
pub fn steer(v: Velocity, action: Option<Action>) -> (r: Velocity)
    requires
        speed_bounded(v),
    ensures
        r == steered(v, action, speed_of(v)),
        speed_bounded(r),
{
    match action {
        None => v,
        Some(a) => {
            let m = v.speed();
            proof {
                lemma_mul_bounded(m as int, m as int, 131072, 131072);
                assert(m * m <= WORLD_LIMIT * WORLD_LIMIT) by (nonlinear_arith)
                    requires 0 <= m <= 131072;
                assert((-m) * (-m) == m * m) by (nonlinear_arith);
            }
            let r = match a {
                Action::Right => Velocity { x: m, y: 0 },
                Action::Left => Velocity { x: -m, y: 0 },
                Action::Up => Velocity { x: 0, y: -m },
                Action::Down => Velocity { x: 0, y: m },
            };
            proof {
                assert(r.x * r.x + r.y * r.y == m * m) by (nonlinear_arith)
                    requires
                        (r.x == 0 && (r.y == m || r.y == -m)) || (r.y == 0 && (r.x == m
                            || r.x == -m)),
                ;
            }
            r
        },
    }
}

/// Reflects `v` off the walls of the arena `[0, width] x [0, height]` for an
/// agent of the given radius at `p`.
pub fn reflect_at_walls(p: Point, v: Velocity, width: i64, height: i64, radius: i64) -> (r: Velocity)
    requires
        speed_bounded(v),
        -WORLD_LIMIT <= width <= WORLD_LIMIT,
        -WORLD_LIMIT <= height <= WORLD_LIMIT,
        -WORLD_LIMIT <= radius <= WORLD_LIMIT,
    ensures
        r == reflected(p, v, width as int, height as int, radius as int),
        speed_bounded(r),
{
    proof {
        lemma_bounded_components(v);
        assert((-v.x) * (-v.x) == v.x * v.x && (-v.y) * (-v.y) == v.y * v.y) by (nonlinear_arith);
    }
    let x = if p.x > width - radius || p.x < radius { -v.x } else { v.x };
    let y = if p.y > height - radius || p.y < radius { -v.y } else { v.y };
    Velocity { x, y }
}

fn clamp_to_world(x: i64) -> (r: i64)
    ensures
        r == clamp(x as int, -WORLD_LIMIT as int, WORLD_LIMIT as int),
{
    if x < -WORLD_LIMIT {
        -WORLD_LIMIT
    } else if x > WORLD_LIMIT {
        WORLD_LIMIT
    } else {
        x
    }
}

/// Moves `p` for `time` ticks at velocity `v`, stopping at the world's edge.
pub fn advance(p: Point, v: Velocity, time: u32) -> (r: Point)
    requires
        p.within(WORLD_LIMIT as int),
        speed_bounded(v),
    ensures
        r == advanced(p, v, time as int),
        r.within(WORLD_LIMIT as int),
{
    proof {
        lemma_bounded_components(v);
        lemma_mul_bounded(v.x as int, time as int, 131072, 4294967295);
        lemma_mul_bounded(v.y as int, time as int, 131072, 4294967295);
    }
    let t = time as i64;
    Point { x: clamp_to_world(p.x + v.x * t), y: clamp_to_world(p.y + v.y * t) }
}

/// Reflection changes a velocity component exactly when the position lies
/// beyond the margin on that component's axis: a crossing on one axis alone
/// never flips both components.
pub proof fn lemma_reflection_per_axis(p: Point, v: Velocity, width: int, height: int, radius: int)
    requires
        speed_bounded(v),
    ensures
        ({
            let r = reflected(p, v, width, height, radius);
            &&& r.x == (if crosses_x(p, width, radius) { -v.x } else { v.x as int })
            &&& r.y == (if crosses_y(p, height, radius) { -v.y } else { v.y as int })
            &&& (crosses_x(p, width, radius) && !crosses_y(p, height, radius)) ==> r.y == v.y
            &&& (crosses_y(p, height, radius) && !crosses_x(p, width, radius)) ==> r.x == v.x
        }),
{
    lemma_bounded_components(v);
}

} // verus!
