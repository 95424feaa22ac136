//! The robot: pose integration at a fixed tick, a fan of ray sensors
//! regenerated from the pose, and the closest obstacle crossing per ray.
//!
//! Lengths are sub-units of the geometry module; one world unit is `UNIT`
//! sub-units. A heading is an angle in `1 / HEADING_PER_RADIAN` radians, and an
//! angular velocity is in milliradians per second, so that one tick of `1/60`
//! second adds the angular velocity to the heading exactly. Sines and cosines
//! come as fixed-point integers scaled by `DIR_SCALE`.
use vstd::prelude::*;
use vstd::arithmetic::div_mod::{lemma_div_by_multiple, lemma_div_is_ordered, lemma_div_pos_is_pos};
use crate::geometry::{
    collision_line_rect, coord_ok, cross_along, cross_den, crosses, is_crossing_of,
    lemma_cross_den_bound, line_wf, Crossing, Line, Point, Rect,
};

verus! {

/// Fixed-point scale of a sine or a cosine.
pub const DIR_SCALE: i64 = 1000;

/// Sub-units per world unit: one tick (1/60 s) at one world unit per second,
/// along a direction at scale `DIR_SCALE`, moves a whole number of sub-units.
pub const UNIT: i64 = 60000;

/// Heading units per radian: milliradians per second, times 60 ticks.
pub const HEADING_PER_RADIAN: i64 = 60000;

/// Largest magnitude of a coordinate of the robot's position.
pub const POSITION_LIMIT: i64 = 536870912;

/// Largest ray length; a ray from any admissible position stays in range.
pub const RAY_LIMIT: i64 = 268435456;

/// Speed factor of the robot: world units per second at linear velocity one.
pub const SPEED: i64 = 100;

/// Sensing horizon, in world units.
pub const SENSOR_RANGE: i64 = 200;

/// A direction by its sine and cosine, at scale `DIR_SCALE`.
#[derive(Clone, Copy, Debug, PartialEq, Eq, Structural)]
pub struct Dir {
    pub sin: i64,
    pub cos: i64,
}

impl Dir {
    pub open spec fn wf(self) -> bool {
        -DIR_SCALE <= self.sin <= DIR_SCALE && -DIR_SCALE <= self.cos <= DIR_SCALE
    }

    pub fn new(sin: i64, cos: i64) -> (r: Dir)
        ensures
            r.sin == sin,
            r.cos == cos,
    {
        Dir { sin, cos }
    }
}

/// Quotient rounded toward zero.
pub open spec fn div_trunc(n: int, d: int) -> int {
    if n >= 0 {
        n / d
    } else {
        -((-n) / d)
    }
}

/// Offset from the origin to the end of a ray of `length` whose direction is
/// `facing` turned back by `angle`: with `facing = (sin h, cos h)`, a heading
/// that grows clockwise from +y, the ray is `length * (sin(h - a), cos(h - a))`.
pub open spec fn ray_offset(facing: Dir, angle: Dir, length: int) -> (int, int) {
    let dx = facing.sin * angle.cos - facing.cos * angle.sin;
    let dy = facing.cos * angle.cos + facing.sin * angle.sin;
    (
        div_trunc(length * dx, DIR_SCALE * DIR_SCALE),
        div_trunc(length * dy, DIR_SCALE * DIR_SCALE),
    )
}

/// The ray of `length` from `origin` at `angle` off `facing`.
pub open spec fn ray(origin: Point, facing: Dir, angle: Dir, length: int) -> (Point, Point) {
    let off = ray_offset(facing, angle, length);
    (origin, Point { x: (origin.x + off.0) as i64, y: (origin.y + off.1) as i64 })
}

pub open spec fn position_ok(p: Point) -> bool {
    -POSITION_LIMIT <= p.x <= POSITION_LIMIT && -POSITION_LIMIT <= p.y <= POSITION_LIMIT
}

fn div_trunc_exec(n: i128, d: i128) -> (q: i128)
    requires
        d > 0,
        n > i128::MIN,
    ensures
        q == div_trunc(n as int, d as int),
{
    if n >= 0 {
        n / d
    } else {
        -((-n) / d)
    }
}

/// `|div_trunc(n, d)| <= m` when `|n| <= m * d`.
proof fn lemma_div_trunc_bound(n: int, d: int, m: int)
    requires
        d > 0,
        m >= 0,
        -(m * d) <= n <= m * d,
    ensures
        -m <= div_trunc(n, d) <= m,
{
    assert(m * d >= 0) by (nonlinear_arith)
        requires
            m >= 0,
            d > 0,
    ;
    lemma_div_by_multiple(m, d);
    if n >= 0 {
        lemma_div_is_ordered(n, m * d, d);
        lemma_div_pos_is_pos(n, d);
    } else {
        lemma_div_is_ordered(-n, m * d, d);
        lemma_div_pos_is_pos(-n, d);
    }
}

/// The operating mode, a flag for an outside behaviour policy.
#[derive(Clone, Copy, Debug, PartialEq, Eq, Structural)]
pub enum Mode {
    Follow,
    Divert,
}

impl Mode {
    pub open spec fn signal(self) -> int {
        match self {
            Mode::Follow => -1,
            Mode::Divert => 1,
        }
    }

    pub open spec fn spec_next(self) -> Mode {
        match self {
            Mode::Follow => Mode::Divert,
            Mode::Divert => Mode::Follow,
        }
    }

    /// Numeric signal of the mode: -1 for follow, +1 for divert.
    pub fn get_mode(&self) -> (r: i8)
        ensures
            r == self.signal(),
    {
        match self {
            Mode::Follow => -1,
            Mode::Divert => 1,
        }
    }

    /// The other mode.
    pub fn next(&self) -> (r: Mode)
        ensures
            r == self.spec_next(),
    {
        match self {
            Mode::Follow => Mode::Divert,
            Mode::Divert => Mode::Follow,
        }
    }
}

/// Law: toggling the mode twice gives back the mode and its signal, and a
/// single toggle always changes the signal.
pub proof fn lemma_mode_two_cycle(m: Mode)
    ensures
        m.spec_next().spec_next() == m,
        m.spec_next().spec_next().signal() == m.signal(),
        m.spec_next().signal() == -m.signal(),
{
}

/// A fan of ray sensors: the angles of the rays off the robot's heading (each
/// by its sine and cosine), their common length, and the rays of the current
/// tick.
pub struct Sensors {
    pub length: i64,
    pub angles: Vec<Dir>,
    pub lines: Vec<Line>,
}

impl Sensors {
    pub open spec fn wf(&self) -> bool {
        &&& 0 <= self.length <= RAY_LIMIT
        &&& forall|i: int| 0 <= i < self.angles@.len() ==> (#[trigger] self.angles@[i]).wf()
        &&& forall|i: int| 0 <= i < self.lines@.len() ==> line_wf(#[trigger] self.lines@[i])
    }

    /// Sines and cosines of -45, -30, 0, 30 and 45 degrees.
    pub open spec fn default_angles() -> Seq<Dir> {
        seq![
            Dir { sin: -707i64, cos: 707 },
            Dir { sin: -500i64, cos: 866 },
            Dir { sin: 0, cos: 1000 },
            Dir { sin: 500, cos: 866 },
            Dir { sin: 707, cos: 707 },
        ]
    }

    /// Five rays at -45, -30, 0, 30 and 45 degrees, of length zero and not yet
    /// laid out.
    pub fn new() -> (r: Sensors)
        ensures
            r.wf(),
            r.length == 0,
            r.lines@.len() == 0,
            r.angles@ == Sensors::default_angles(),
    {
        let angles = vec![
            Dir { sin: -707i64, cos: 707 },
            Dir { sin: -500i64, cos: 866 },
            Dir { sin: 0, cos: 1000 },
            Dir { sin: 500, cos: 866 },
            Dir { sin: 707, cos: 707 },
        ];
        Sensors { length: 0, angles, lines: Vec::new() }
    }

    /// Lays out one ray per angle from `origin`, with the robot facing
    /// `facing`, replacing the rays of the previous tick.
    pub fn regenerate(&mut self, origin: Point, facing: Dir)
        requires
            old(self).wf(),
            position_ok(origin),
            facing.wf(),
        ensures
            final(self).wf(),
            final(self).length == old(self).length,
            final(self).angles@ == old(self).angles@,
            final(self).lines@.len() == old(self).angles@.len(),
            forall|i: int|
                0 <= i < final(self).lines@.len() ==> #[trigger] final(self).lines@[i] == ray(
                    origin,
                    facing,
                    old(self).angles@[i],
                    old(self).length as int,
                ),
    {
        let mut lines: Vec<Line> = Vec::new();
        let n = self.angles.len();
        let mut k: usize = 0;
        while k < n
            invariant
                n == self.angles@.len(),
                self.wf(),
                position_ok(origin),
                facing.wf(),
                k <= n,
                lines@.len() == k,
                forall|i: int| 0 <= i < k ==> line_wf(#[trigger] lines@[i]),
                forall|i: int|
                    0 <= i < k ==> #[trigger] lines@[i] == ray(
                        origin,
                        facing,
                        self.angles@[i],
                        self.length as int,
                    ),
            decreases n - k,
        {
            let a = self.angles[k];
            assert(a.wf());
            let ghost sq: int = DIR_SCALE * DIR_SCALE;
            let fs = facing.sin as i128;
            let fc = facing.cos as i128;
            let as_ = a.sin as i128;
            let ac = a.cos as i128;
            let len = self.length as i128;
            proof {
                assert(-sq <= fs * ac <= sq) by (nonlinear_arith)
                    requires -1000 <= fs <= 1000, -1000 <= ac <= 1000, sq == 1000000;
                assert(-sq <= fc * as_ <= sq) by (nonlinear_arith)
                    requires -1000 <= fc <= 1000, -1000 <= as_ <= 1000, sq == 1000000;
                assert(-sq <= fc * ac <= sq) by (nonlinear_arith)
                    requires -1000 <= fc <= 1000, -1000 <= ac <= 1000, sq == 1000000;
                assert(-sq <= fs * as_ <= sq) by (nonlinear_arith)
                    requires -1000 <= fs <= 1000, -1000 <= as_ <= 1000, sq == 1000000;
            }
            let dx = fs * ac - fc * as_;
            let dy = fc * ac + fs * as_;
            proof {
                assert(-(2 * len) * sq <= len * dx <= (2 * len) * sq) by (nonlinear_arith)
                    requires -2 * sq <= dx <= 2 * sq, 0 <= len <= RAY_LIMIT, sq == 1000000;
                assert(-(2 * len) * sq <= len * dy <= (2 * len) * sq) by (nonlinear_arith)
                    requires -2 * sq <= dy <= 2 * sq, 0 <= len <= RAY_LIMIT, sq == 1000000;
                lemma_div_trunc_bound(len * dx, sq, 2 * len);
                lemma_div_trunc_bound(len * dy, sq, 2 * len);
            }
            let ox = div_trunc_exec(len * dx, 1000000);
            let oy = div_trunc_exec(len * dy, 1000000);
            let end = Point { x: (origin.x as i128 + ox) as i64, y: (origin.y as i128 + oy) as i64 };
            let l: Line = (origin, end);
            proof {
                assert(coord_ok(origin.x + ox));
                assert(coord_ok(origin.y + oy));
            }
            lines.push(l);
            k = k + 1;
        }
        self.lines = lines;
    }
}

/// A fraction `num / den` with `den > 0`.
#[derive(Clone, Copy, Debug, PartialEq, Eq, Structural)]
pub struct Ratio {
    pub num: i128,
    pub den: i128,
}

/// Proximity of a hit at the fraction `t` of a ray: the linear map of
/// `[0, 1]` onto `[1, 0]`, so `1 - t`.
pub open spec fn proximity(t: Ratio) -> Ratio {
    Ratio { num: (t.den - t.num) as i128, den: t.den }
}

/// `p < q` as fractions with positive denominators.
pub open spec fn ratio_lt(p: Ratio, q: Ratio) -> bool {
    p.num * q.den < q.num * p.den
}

/// Maps the fraction of the ray at which an obstacle is hit to the
/// normalized proximity signal: 1 at the robot, 0 at the end of the ray.
pub fn map_to_proximity(t: Ratio) -> (r: Ratio)
    requires
        0 <= t.num <= t.den,
        t.den > 0,
    ensures
        r == proximity(t),
        0 <= r.num <= r.den,
{
    Ratio { num: t.den - t.num, den: t.den }
}

/// Law: the proximity signal decreases strictly as the hit moves out along
/// the ray; it is 1 at distance zero and 0 at the full ray length.
pub proof fn lemma_proximity_decreasing(t1: Ratio, t2: Ratio)
    requires
        0 <= t1.num <= t1.den,
        0 <= t2.num <= t2.den,
        t1.den > 0,
        t2.den > 0,
    ensures
        ratio_lt(t1, t2) ==> ratio_lt(proximity(t2), proximity(t1)),
        t1.num == 0 ==> proximity(t1).num == proximity(t1).den,
        t1.num == t1.den ==> proximity(t1).num == 0,
{
    let (a, b, c, d) = (t1.num as int, t1.den as int, t2.num as int, t2.den as int);
    assert(a * d < c * b ==> (d - c) * b < (b - a) * d) by (nonlinear_arith);
}

/// Squared distance from `p` to the crossing `c`, times `c.den` squared.
pub open spec fn dist2_scaled(c: Crossing, p: Point) -> int {
    (c.x - p.x * c.den) * (c.x - p.x * c.den) + (c.y - p.y * c.den) * (c.y - p.y * c.den)
}

/// Law: of two crossings on one ray, the one at the smaller fraction of the
/// ray is no farther from the ray's start in Euclidean distance; picking the
/// hit by fraction picks it by distance from the robot.
pub proof fn lemma_smaller_fraction_is_nearer(line: Line, c1: Crossing, c2: Crossing)
    requires
        c1.den > 0,
        c2.den > 0,
        0 <= c1.along,
        0 <= c2.along,
        c1.along * c2.den <= c2.along * c1.den,
        c1.x == line.0.x * c1.den + c1.along * (line.1.x - line.0.x),
        c1.y == line.0.y * c1.den + c1.along * (line.1.y - line.0.y),
        c2.x == line.0.x * c2.den + c2.along * (line.1.x - line.0.x),
        c2.y == line.0.y * c2.den + c2.along * (line.1.y - line.0.y),
    ensures
        dist2_scaled(c1, line.0) * (c2.den * c2.den) <= dist2_scaled(c2, line.0) * (c1.den
            * c1.den),
{
    let dx = line.1.x - line.0.x;
    let dy = line.1.y - line.0.y;
    let l2 = dx * dx + dy * dy;
    let (a1, d1, a2, d2) = (c1.along as int, c1.den as int, c2.along as int, c2.den as int);
    assert(l2 >= 0) by (nonlinear_arith)
        requires
            l2 == dx * dx + dy * dy,
    ;
    assert(dist2_scaled(c1, line.0) == a1 * a1 * l2) by (nonlinear_arith)
        requires
            c1.x - line.0.x * c1.den == a1 * dx,
            c1.y - line.0.y * c1.den == a1 * dy,
            l2 == dx * dx + dy * dy,
    ;
    assert(dist2_scaled(c2, line.0) == a2 * a2 * l2) by (nonlinear_arith)
        requires
            c2.x - line.0.x * c2.den == a2 * dx,
            c2.y - line.0.y * c2.den == a2 * dy,
            l2 == dx * dx + dy * dy,
    ;
    assert(a1 * d2 * (a1 * d2) <= a2 * d1 * (a2 * d1)) by (nonlinear_arith)
        requires
            0 <= a1 * d2 <= a2 * d1,
    ;
    assert(a1 * a1 * l2 * (d2 * d2) <= a2 * a2 * l2 * (d1 * d1)) by (nonlinear_arith)
        requires
            a1 * d2 * (a1 * d2) <= a2 * d1 * (a2 * d1),
            l2 >= 0,
    ;
}

/// `line` crosses edge `e` of obstacle `j`.
pub open spec fn hit(line: Line, obstacles: Seq<Rect>, j: int, e: int) -> bool {
    crosses(line, obstacles[j].edge(e))
}

/// `line` crosses an edge of one of the obstacles.
pub open spec fn hits_any(line: Line, obstacles: Seq<Rect>) -> bool {
    exists|j: int, e: int| 0 <= j < obstacles.len() && 0 <= e < 4 && #[trigger] hit(line, obstacles, j, e)
}

/// `c` is a crossing of `line` with some obstacle edge, and no other such
/// crossing lies nearer the start of `line`.
pub open spec fn is_closest_hit(line: Line, obstacles: Seq<Rect>, c: Crossing) -> bool {
    &&& exists|j: int, e: int|
        0 <= j < obstacles.len() && 0 <= e < 4 && #[trigger] hit(line, obstacles, j, e)
            && is_crossing_of(line, obstacles[j].edge(e), c)
    &&& forall|j: int, e: int|
        0 <= j < obstacles.len() && 0 <= e < 4 && #[trigger] hit(line, obstacles, j, e)
            ==> c.along * cross_den(line, obstacles[j].edge(e)) <= cross_along(
            line,
            obstacles[j].edge(e),
        ) * c.den
}

/// What one sensor reports: its closest hit, if any, and its proximity
/// signal (0 when nothing is hit).
pub open spec fn sensor_reading(
    line: Line,
    obstacles: Seq<Rect>,
    closest: Option<Crossing>,
    value: Ratio,
) -> bool {
    match closest {
        None => !hits_any(line, obstacles) && value == (Ratio { num: 0, den: 1 }),
        Some(c) => hits_any(line, obstacles) && is_closest_hit(line, obstacles, c) && value
            == proximity(Ratio { num: c.along, den: c.den }),
    }
}

pub open spec fn obstacles_wf(obstacles: Seq<Rect>) -> bool {
    forall|j: int| 0 <= j < obstacles.len() ==> (#[trigger] obstacles[j]).wf()
}

/// The closest crossing of one ray with the edges of the obstacles.
fn closest_on_line(line: &Line, obstacles: &Vec<Rect>) -> (r: Option<Crossing>)
    requires
        line_wf(*line),
        obstacles_wf(obstacles@),
    ensures
        r.is_none() == !hits_any(*line, obstacles@),
        r matches Some(c) ==> is_closest_hit(*line, obstacles@, c) && 0 <= c.along <= c.den
            && c.den > 0,
{
    let mut best: Option<Crossing> = None;
    let mut j: usize = 0;
    while j < obstacles.len()
        invariant
            line_wf(*line),
            obstacles_wf(obstacles@),
            j <= obstacles@.len(),
            best.is_none() ==> forall|jj: int, e: int|
                0 <= jj < j && 0 <= e < 4 ==> !#[trigger] hit(*line, obstacles@, jj, e),
            best matches Some(b) ==> {
                &&& 0 <= b.along <= b.den
                &&& 0 < b.den <= 0x8000_0000_0000_0000
                &&& exists|jj: int, e: int|
                    0 <= jj < j && 0 <= e < 4 && #[trigger] hit(*line, obstacles@, jj, e)
                        && is_crossing_of(*line, obstacles@[jj].edge(e), b)
                &&& forall|jj: int, e: int|
                    0 <= jj < j && 0 <= e < 4 && #[trigger] hit(*line, obstacles@, jj, e)
                        ==> b.along * cross_den(*line, obstacles@[jj].edge(e)) <= cross_along(
                        *line,
                        obstacles@[jj].edge(e),
                    ) * b.den
            },
        decreases obstacles@.len() - j,
    {
        let rect = &obstacles[j];
        assert(rect.wf());
        let found = collision_line_rect(line, rect);
        let mut e: usize = 0;
        while e < 4
            invariant
                line_wf(*line),
                obstacles_wf(obstacles@),
                j < obstacles@.len(),
                *rect == obstacles@[j as int],
                found@.len() == 4,
                forall|i: int|
                    0 <= i < 4 ==> {
                        &&& (#[trigger] found@[i]).is_some() == crosses(*line, rect.edge(i))
                        &&& found@[i] matches Some(c) ==> is_crossing_of(*line, rect.edge(i), c)
                    },
                e <= 4,
                best.is_none() ==> forall|jj: int, ee: int|
                    ((0 <= jj < j && 0 <= ee < 4) || (jj == j && 0 <= ee < e))
                        ==> !#[trigger] hit(*line, obstacles@, jj, ee),
                best matches Some(b) ==> {
                    &&& 0 <= b.along <= b.den
                    &&& 0 < b.den <= 0x8000_0000_0000_0000
                    &&& exists|jj: int, ee: int|
                        ((0 <= jj < j && 0 <= ee < 4) || (jj == j && 0 <= ee < e))
                            && #[trigger] hit(*line, obstacles@, jj, ee) && is_crossing_of(
                            *line,
                            obstacles@[jj].edge(ee),
                            b,
                        )
                    &&& forall|jj: int, ee: int|
                        ((0 <= jj < j && 0 <= ee < 4) || (jj == j && 0 <= ee < e))
                            && #[trigger] hit(*line, obstacles@, jj, ee) ==> b.along * cross_den(
                            *line,
                            obstacles@[jj].edge(ee),
                        ) <= cross_along(*line, obstacles@[jj].edge(ee)) * b.den
                },
            decreases 4 - e,
        {
            if let Some(c) = found[e] {
                proof {
                    lemma_cross_den_bound(*line, rect.edge(e as int));
                    assert(hit(*line, obstacles@, j as int, e as int));
                }
                let closer = match best {
                    None => true,
                    Some(b) => {
                        proof {
                            let bound: int = 0x8000_0000_0000_0000;
                            assert(0 <= c.along * b.den <= 0x4000_0000_0000_0000_0000_0000_0000_0000)
                                by (nonlinear_arith)
                                requires
                                    0 <= c.along <= c.den <= bound,
                                    0 < b.den <= bound,
                                    bound == 0x8000_0000_0000_0000,
                            ;
                            assert(0 <= b.along * c.den <= 0x4000_0000_0000_0000_0000_0000_0000_0000)
                                by (nonlinear_arith)
                                requires
                                    0 <= b.along <= b.den <= bound,
                                    0 < c.den <= bound,
                                    bound == 0x8000_0000_0000_0000,
                            ;
                        }
                        c.along * b.den < b.along * c.den
                    },
                };
                if closer {
                    proof {
                        if let Some(b) = best {
                            let bound: int = 0x8000_0000_0000_0000;
                            assert forall|jj: int, ee: int|
                                ((0 <= jj < j && 0 <= ee < 4) || (jj == j && 0 <= ee <= e))
                                    && #[trigger] hit(*line, obstacles@, jj, ee) implies c.along
                                * cross_den(*line, obstacles@[jj].edge(ee)) <= cross_along(
                                *line,
                                obstacles@[jj].edge(ee),
                            ) * c.den by {
                                if jj == j && ee == e {
                                } else {
                                    lemma_cross_den_bound(*line, obstacles@[jj].edge(ee));
                                    let (p, q) = (
                                        cross_along(*line, obstacles@[jj].edge(ee)),
                                        cross_den(*line, obstacles@[jj].edge(ee)),
                                    );
                                    lemma_frac_trans(
                                        c.along as int,
                                        c.den as int,
                                        b.along as int,
                                        b.den as int,
                                        p,
                                        q,
                                    );
                                }
                            }
                        }
                    }
                    best = Some(c);
                } else {
                    proof {
                        if let Some(b) = best {
                            assert(b.along * c.den <= c.along * b.den);
                        }
                    }
                }
            }
            e = e + 1;
        }
        j = j + 1;
    }
    best
}

/// `a / b < c / d` and `c / d <= p / q` give `a / b <= p / q`, for positive
/// denominators.
proof fn lemma_frac_trans(a: int, b: int, c: int, d: int, p: int, q: int)
    requires
        b > 0,
        d > 0,
        q > 0,
        a * d < c * b,
        c * q <= p * d,
    ensures
        a * q <= p * b,
{
    assert(a * q * d < c * b * q) by (nonlinear_arith)
        requires
            a * d < c * b,
            q > 0,
    ;
    assert(c * q * b <= p * d * b) by (nonlinear_arith)
        requires
            c * q <= p * d,
            b > 0,
    ;
    assert(a * q * d < p * b * d) by (nonlinear_arith)
        requires
            a * q * d < c * b * q,
            c * q * b <= p * d * b,
    ;
    assert(a * q <= p * b) by (nonlinear_arith)
        requires
            a * q * d < p * b * d,
            d > 0,
    ;
}


/// The robot: pose, velocity commands, operating mode and sensor fan.
///
/// `rotation` is the heading in `1 / HEADING_PER_RADIAN` radians and `facing`
/// its sine and cosine; `linear_velocity` is in multiples of `speed` (world
/// units per second) and `angular_velocity` in milliradians per second.
pub struct Robot {
    pub position: Point,
    pub rotation: i64,
    pub facing: Dir,
    pub linear_velocity: i32,
    pub angular_velocity: i32,
    pub mode: Mode,
    pub sensors: Sensors,
    pub speed: i64,
    pub radius: i64,
}

proof fn lemma_zero_product(a: int, b: int)
    ensures
        0 * a * b == 0,
{
    assert(0 * a * b == 0) by (nonlinear_arith);
}

/// Law: a robot at rest keeps its position and heading over any number of
/// ticks; two ticks in a row are shown, and each tick keeps it at rest.
pub proof fn lemma_rest_keeps_pose(r0: Robot, r1: Robot, r2: Robot, f1: Dir, f2: Dir)
    requires
        r0.linear_velocity == 0,
        r0.angular_velocity == 0,
        r1.is_tick_of(&r0, f1),
        r2.is_tick_of(&r1, f2),
    ensures
        r1.linear_velocity == 0 && r1.angular_velocity == 0,
        r2.linear_velocity == 0 && r2.angular_velocity == 0,
        r1.position == r0.position && r1.rotation == r0.rotation,
        r2.position == r0.position && r2.rotation == r0.rotation,
{
    lemma_zero_product(r0.speed as int, r0.facing.sin as int);
    lemma_zero_product(r0.speed as int, r0.facing.cos as int);
    lemma_zero_product(r1.speed as int, r1.facing.sin as int);
    lemma_zero_product(r1.speed as int, r1.facing.cos as int);
}

/// Squared Euclidean distance between two points.
pub open spec fn dist2(p: Point, q: Point) -> int {
    (q.x - p.x) * (q.x - p.x) + (q.y - p.y) * (q.y - p.y)
}

/// The integer square root: the largest `r` with `r * r <= n`.
fn isqrt(n: u128) -> (r: u64)
    requires
        n <= 0x8_0000_0000_0000_0000,
    ensures
        r * r <= n < (r + 1) * (r + 1),
{
    let mut lo: u128 = 0;
    let mut hi: u128 = 0x4_0000_0000;
    assert(n < hi * hi) by (nonlinear_arith)
        requires
            n <= 0x8_0000_0000_0000_0000,
            hi == 0x4_0000_0000,
    ;
    while hi - lo > 1
        invariant
            lo < hi <= 0x4_0000_0000,
            lo * lo <= n < hi * hi,
        decreases hi - lo,
    {
        let mid = lo + (hi - lo) / 2;
        assert(mid * mid <= 0x10_0000_0000_0000_0000) by (nonlinear_arith)
            requires
                mid <= 0x4_0000_0000,
        ;
        if mid * mid <= n {
            lo = mid;
        } else {
            hi = mid;
        }
    }
    assert(lo * lo <= 0x8_0000_0000_0000_0000);
    assert(lo < 0x4_0000_0000) by (nonlinear_arith)
        requires
            lo * lo <= 0x8_0000_0000_0000_0000,
    ;
    lo as u64
}

/// Position after one tick: `velocity * speed * (sin, cos) * dt`, which is
/// whole in sub-units.
pub open spec fn stepped(p: Point, facing: Dir, velocity: int, speed: int) -> (int, int) {
    (p.x + velocity * speed * facing.sin, p.y + velocity * speed * facing.cos)
}

impl Robot {
    pub open spec fn wf(&self) -> bool {
        &&& self.sensors.wf()
        &&& position_ok(self.position)
        &&& self.facing.wf()
        &&& 0 <= self.speed <= SPEED
    }

    /// The next tick keeps the position and the heading in range.
    pub open spec fn spec_can_update(&self) -> bool {
        let next = stepped(
            self.position,
            self.facing,
            self.linear_velocity as int,
            self.speed as int,
        );
        &&& -POSITION_LIMIT <= next.0 <= POSITION_LIMIT
        &&& -POSITION_LIMIT <= next.1 <= POSITION_LIMIT
        &&& i64::MIN <= self.rotation + self.angular_velocity <= i64::MAX
    }

    /// At the origin, heading along +y, at rest, in follow mode, with the
    /// five-ray fan of length `SENSOR_RANGE` not yet laid out.
    pub open spec fn is_initial(&self) -> bool {
        &&& self.wf()
        &&& self.position == (Point { x: 0, y: 0 })
        &&& self.rotation == 0
        &&& self.facing == (Dir { sin: 0, cos: DIR_SCALE })
        &&& self.linear_velocity == 0
        &&& self.angular_velocity == 0
        &&& self.mode == Mode::Follow
        &&& self.sensors.length == SENSOR_RANGE * UNIT
        &&& self.sensors.angles@ == Sensors::default_angles()
        &&& self.sensors.lines@.len() == 0
        &&& self.speed == SPEED
    }

    pub fn new() -> (r: Robot)
        ensures
            r.is_initial(),
    {
        let mut robot = Robot {
            position: Point { x: 0, y: 0 },
            rotation: 0,
            facing: Dir { sin: 0, cos: DIR_SCALE },
            linear_velocity: 0,
            angular_velocity: 0,
            mode: Mode::Follow,
            sensors: Sensors::new(),
            speed: SPEED,
            radius: 40 * UNIT,
        };
        robot.sensors.length = SENSOR_RANGE * UNIT;
        robot
    }

    /// `self` is `prev` after one tick that ends facing `facing`: moved along
    /// the old facing, turned by the angular velocity, rays laid out from the
    /// new pose, everything else kept.
    pub open spec fn is_tick_of(&self, prev: &Robot, facing: Dir) -> bool {
        let next = stepped(
            prev.position,
            prev.facing,
            prev.linear_velocity as int,
            prev.speed as int,
        );
        &&& self.wf()
        &&& self.position.x == next.0
        &&& self.position.y == next.1
        &&& self.rotation == prev.rotation + prev.angular_velocity
        &&& self.facing == facing
        &&& self.linear_velocity == prev.linear_velocity
        &&& self.angular_velocity == prev.angular_velocity
        &&& self.mode == prev.mode
        &&& self.speed == prev.speed
        &&& self.radius == prev.radius
        &&& self.sensors.length == prev.sensors.length
        &&& self.sensors.angles@ == prev.sensors.angles@
        &&& self.sensors.lines@.len() == prev.sensors.angles@.len()
        &&& forall|i: int|
            0 <= i < self.sensors.lines@.len() ==> #[trigger] self.sensors.lines@[i] == ray(
                self.position,
                facing,
                prev.sensors.angles@[i],
                prev.sensors.length as int,
            )
    }

    /// Whether `update` may be called: the next tick keeps the position and
    /// the heading in range.
    pub fn can_update(&self) -> (r: bool)
        requires
            self.wf(),
        ensures
            r == self.spec_can_update(),
    {
        let v = self.linear_velocity as i128;
        let sp = self.speed as i128;
        proof {
            assert(-0x8000_0000 * 100 <= v * sp <= 0x8000_0000 * 100) by (nonlinear_arith)
                requires
                    -0x8000_0000 <= v <= 0x8000_0000,
                    0 <= sp <= 100,
            ;
            assert(-0x8000_0000 * 100 * 1000 <= v * sp * self.facing.sin <= 0x8000_0000 * 100 * 1000)
                by (nonlinear_arith)
                requires
                    -0x8000_0000 <= v <= 0x8000_0000,
                    0 <= sp <= 100,
                    -1000 <= self.facing.sin <= 1000,
            ;
            assert(-0x8000_0000 * 100 * 1000 <= v * sp * self.facing.cos <= 0x8000_0000 * 100 * 1000)
                by (nonlinear_arith)
                requires
                    -0x8000_0000 <= v <= 0x8000_0000,
                    0 <= sp <= 100,
                    -1000 <= self.facing.cos <= 1000,
            ;
        }
        let nx = self.position.x as i128 + v * sp * self.facing.sin as i128;
        let ny = self.position.y as i128 + v * sp * self.facing.cos as i128;
        let limit = POSITION_LIMIT as i128;
        let nr = self.rotation as i128 + self.angular_velocity as i128;
        -limit <= nx && nx <= limit && -limit <= ny && ny <= limit && i64::MIN as i128 <= nr
            && nr <= i64::MAX as i128
    }

    /// One tick of 1/60 s: moves along the current facing, turns by the
    /// angular velocity, then lays the rays out from the new pose. `facing`
    /// is the sine and cosine, at scale `DIR_SCALE`, of the new heading
    /// `rotation + angular_velocity`.
    pub fn update(&mut self, facing: Dir)
        requires
            old(self).wf(),
            old(self).spec_can_update(),
            facing.wf(),
        ensures
            final(self).is_tick_of(old(self), facing),
            old(self).linear_velocity == 0 && old(self).angular_velocity == 0
                ==> final(self).position == old(self).position
                && final(self).rotation == old(self).rotation,
    {
        let v = self.linear_velocity as i128;
        let sp = self.speed as i128;
        proof {
            assert(-0x8000_0000 * 100 <= v * sp <= 0x8000_0000 * 100) by (nonlinear_arith)
                requires
                    -0x8000_0000 <= v <= 0x8000_0000,
                    0 <= sp <= 100,
            ;
            assert(-0x8000_0000 * 100 * 1000 <= v * sp * self.facing.sin <= 0x8000_0000 * 100 * 1000)
                by (nonlinear_arith)
                requires
                    -0x8000_0000 <= v <= 0x8000_0000,
                    0 <= sp <= 100,
                    -1000 <= self.facing.sin <= 1000,
            ;
            assert(-0x8000_0000 * 100 * 1000 <= v * sp * self.facing.cos <= 0x8000_0000 * 100 * 1000)
                by (nonlinear_arith)
                requires
                    -0x8000_0000 <= v <= 0x8000_0000,
                    0 <= sp <= 100,
                    -1000 <= self.facing.cos <= 1000,
            ;
            assert(v == 0 ==> v * sp * self.facing.sin == 0 && v * sp * self.facing.cos == 0)
                by (nonlinear_arith);
        }
        let nx = self.position.x as i128 + v * sp * self.facing.sin as i128;
        let ny = self.position.y as i128 + v * sp * self.facing.cos as i128;
        self.position = Point { x: nx as i64, y: ny as i64 };
        self.rotation = self.rotation + self.angular_velocity as i64;
        self.facing = facing;
        self.sensors.regenerate(self.position, facing);
    }

    /// For each ray in order: the closest crossing with an obstacle edge, and
    /// the proximity signal, 0 when the ray hits nothing.
    pub fn get_closest_collisions(&self, obstacles: &Vec<Rect>) -> (r: (
        Vec<Option<Crossing>>,
        Vec<Ratio>,
    ))
        requires
            self.wf(),
            obstacles_wf(obstacles@),
        ensures
            r.0@.len() == self.sensors.lines@.len(),
            r.1@.len() == self.sensors.lines@.len(),
            forall|i: int|
                0 <= i < self.sensors.lines@.len() ==> sensor_reading(
                    #[trigger] self.sensors.lines@[i],
                    obstacles@,
                    r.0@[i],
                    r.1@[i],
                ),
            forall|i: int|
                0 <= i < r.1@.len() ==> 0 <= (#[trigger] r.1@[i]).num <= r.1@[i].den && r.1@[
                    i].den > 0,
    {
        let mut points: Vec<Option<Crossing>> = Vec::new();
        let mut values: Vec<Ratio> = Vec::new();
        let n = self.sensors.lines.len();
        let mut i: usize = 0;
        while i < n
            invariant
                self.wf(),
                obstacles_wf(obstacles@),
                n == self.sensors.lines@.len(),
                i <= n,
                points@.len() == i,
                values@.len() == i,
                forall|k: int|
                    0 <= k < i ==> sensor_reading(
                        #[trigger] self.sensors.lines@[k],
                        obstacles@,
                        points@[k],
                        values@[k],
                    ),
                forall|k: int|
                    0 <= k < i ==> 0 <= (#[trigger] values@[k]).num <= values@[k].den
                        && values@[k].den > 0,
            decreases n - i,
        {
            let line = &self.sensors.lines[i];
            assert(line_wf(*line));
            let closest = closest_on_line(line, obstacles);
            let value = match closest {
                None => Ratio { num: 0, den: 1 },
                Some(c) => map_to_proximity(Ratio { num: c.along, den: c.den }),
            };
            points.push(closest);
            values.push(value);
            i = i + 1;
        }
        (points, values)
    }

    pub fn set_linear_velocity(&mut self, value: i32)
        ensures
            final(self).linear_velocity == value,
            final(self).position == old(self).position,
            final(self).rotation == old(self).rotation,
            final(self).facing == old(self).facing,
            final(self).angular_velocity == old(self).angular_velocity,
            final(self).mode == old(self).mode,
            final(self).sensors == old(self).sensors,
            final(self).speed == old(self).speed,
            final(self).radius == old(self).radius,
    {
        self.linear_velocity = value;
    }

    pub fn set_angular_velocity(&mut self, value: i32)
        ensures
            final(self).angular_velocity == value,
            final(self).position == old(self).position,
            final(self).rotation == old(self).rotation,
            final(self).facing == old(self).facing,
            final(self).linear_velocity == old(self).linear_velocity,
            final(self).mode == old(self).mode,
            final(self).sensors == old(self).sensors,
            final(self).speed == old(self).speed,
            final(self).radius == old(self).radius,
    {
        self.angular_velocity = value;
    }

    /// Switches between follow and divert.
    pub fn toggle_mode(&mut self)
        ensures
            final(self).mode == old(self).mode.spec_next(),
            final(self).position == old(self).position,
            final(self).rotation == old(self).rotation,
            final(self).facing == old(self).facing,
            final(self).linear_velocity == old(self).linear_velocity,
            final(self).angular_velocity == old(self).angular_velocity,
            final(self).sensors == old(self).sensors,
            final(self).speed == old(self).speed,
            final(self).radius == old(self).radius,
    {
        let a = self.mode.next();
        self.mode = a;
    }

    /// The mode's signal: -1 for follow, +1 for divert.
    pub fn get_mode_numeric(&self) -> (r: i8)
        ensures
            r == self.mode.signal(),
    {
        self.mode.get_mode()
    }

    /// The heading, in `1 / HEADING_PER_RADIAN` radians.
    pub fn get_heading(&self) -> (r: i64)
        ensures
            r == self.rotation,
    {
        self.rotation
    }

    /// Euclidean distance from the robot to `point`, rounded down to a whole
    /// sub-unit.
    pub fn distance_to(&self, point: Point) -> (r: u64)
        requires
            self.wf(),
            point.wf(),
        ensures
            r * r <= dist2(self.position, point) < (r + 1) * (r + 1),
    {
        let dx = (point.x as i128 - self.position.x as i128);
        let dy = (point.y as i128 - self.position.y as i128);
        proof {
            assert(0 <= dx * dx <= 0x4_0000_0000_0000_0000) by (nonlinear_arith)
                requires -0x2_0000_0000 <= dx <= 0x2_0000_0000;
            assert(0 <= dy * dy <= 0x4_0000_0000_0000_0000) by (nonlinear_arith)
                requires -0x2_0000_0000 <= dy <= 0x2_0000_0000;
        }
        let n = (dx * dx + dy * dy) as u128;
        isqrt(n)
    }

    /// The heading after the next tick, `rotation + angular_velocity`, when
    /// it fits; the caller takes its sine and cosine for `update`.
    pub fn next_heading(&self) -> (r: Option<i64>)
        ensures
            r is Some <==> i64::MIN <= self.rotation + self.angular_velocity <= i64::MAX,
            r matches Some(h) ==> h == self.rotation + self.angular_velocity,
    {
        self.rotation.checked_add(self.angular_velocity as i64)
    }

    pub fn get_position(&self) -> (r: Point)
        ensures
            r == self.position,
    {
        self.position
    }
}

} // verus!
