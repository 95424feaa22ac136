//! Exact plane geometry on integer coordinates.
//!
//! Coordinates are integers in a fine sub-unit. An intersection point of two
//! segments is rational; it is returned as integer numerators over one shared
//! positive denominator, so nothing is rounded.
use vstd::prelude::*;

verus! {

/// Largest magnitude of a coordinate; it keeps every product below in `i128`.
pub const COORD_LIMIT: i64 = 1073741824;

#[derive(Clone, Copy, Debug, PartialEq, Eq, Structural)]
pub struct Point {
    pub x: i64,
    pub y: i64,
}

/// A segment from its first point to its second.
pub type Line = (Point, Point);

pub open spec fn coord_ok(v: int) -> bool {
    -COORD_LIMIT <= v <= COORD_LIMIT
}

impl Point {
    pub open spec fn wf(self) -> bool {
        coord_ok(self.x as int) && coord_ok(self.y as int)
    }

    pub fn new(x: i64, y: i64) -> (r: Point)
        ensures
            r.x == x,
            r.y == y,
    {
        Point { x, y }
    }
}

pub open spec fn line_wf(l: Line) -> bool {
    l.0.wf() && l.1.wf()
}

/// The crossing of two segments: the point `(x / den, y / den)`, which lies
/// at the fraction `along / den` of the way along the first segment.
#[derive(Clone, Copy, Debug, PartialEq, Eq, Structural)]
pub struct Crossing {
    pub x: i128,
    pub y: i128,
    pub along: i128,
    pub den: i128,
}

/// Cross product of the two directions; zero when the segments are parallel.
pub open spec fn denom(a: Line, b: Line) -> int {
    (b.1.y - b.0.y) * (a.1.x - a.0.x) - (b.1.x - b.0.x) * (a.1.y - a.0.y)
}

/// Numerator of the parameter of the crossing along `a`.
pub open spec fn num_a(a: Line, b: Line) -> int {
    (b.1.x - b.0.x) * (a.0.y - b.0.y) - (b.1.y - b.0.y) * (a.0.x - b.0.x)
}

/// Numerator of the parameter of the crossing along `b`.
pub open spec fn num_b(a: Line, b: Line) -> int {
    (a.1.x - a.0.x) * (a.0.y - b.0.y) - (a.1.y - a.0.y) * (a.0.x - b.0.x)
}

/// `n / d` lies in the closed interval `[0, 1]`.
pub open spec fn in_unit(n: int, d: int) -> bool {
    if d > 0 {
        0 <= n <= d
    } else {
        d < 0 && d <= n <= 0
    }
}

/// `n` with the sign of `d` folded in, so that `signed(d, d) == |d|`.
pub open spec fn signed(d: int, n: int) -> int {
    if d > 0 {
        n
    } else {
        -n
    }
}

/// The two segments are not parallel and each parameter lies in `[0, 1]`.
pub open spec fn crosses(a: Line, b: Line) -> bool {
    denom(a, b) != 0 && in_unit(num_a(a, b), denom(a, b)) && in_unit(num_b(a, b), denom(a, b))
}

/// Denominator of the crossing of `a` and `b`, made positive.
pub open spec fn cross_den(a: Line, b: Line) -> int {
    signed(denom(a, b), denom(a, b))
}

/// Numerator of the fraction of `a` at which `b` crosses it, over `cross_den`.
pub open spec fn cross_along(a: Line, b: Line) -> int {
    signed(denom(a, b), num_a(a, b))
}

/// `c` is the crossing of `a` and `b`: the point `a.0 + t * (a.1 - a.0)` with
/// `t = num_a / denom`, written over the denominator `|denom|`.
pub open spec fn is_crossing_of(a: Line, b: Line, c: Crossing) -> bool {
    &&& c.den == cross_den(a, b)
    &&& c.along == cross_along(a, b)
    &&& c.x == a.0.x * c.den + c.along * (a.1.x - a.0.x)
    &&& c.y == a.0.y * c.den + c.along * (a.1.y - a.0.y)
}

/// `(px / den, py / den)` is the point at the fraction `t / den` of segment `l`.
pub open spec fn at_fraction(px: int, py: int, den: int, l: Line, t: int) -> bool {
    &&& 0 <= t <= den
    &&& px == l.0.x * den + t * (l.1.x - l.0.x)
    &&& py == l.0.y * den + t * (l.1.y - l.0.y)
}

/// `(px / den, py / den)` lies on segment `l`.
pub open spec fn on_line(px: int, py: int, den: int, l: Line) -> bool {
    exists|t: int| #[trigger] at_fraction(px, py, den, l, t)
}

proof fn lemma_product_bound(a: int, b: int, ma: int, mb: int)
    requires
        -ma <= a <= ma,
        -mb <= b <= mb,
    ensures
        -(ma * mb) <= a * b <= ma * mb,
{
    assert(-(ma * mb) <= a * b <= ma * mb) by (nonlinear_arith)
        requires
            -ma <= a <= ma,
            -mb <= b <= mb,
    ;
}

/// Intersection of two segments by the parametric method; `None` when they
/// are parallel (exact test, no tolerance) or when the crossing of their
/// supporting lines lies outside either segment.
pub fn collision_line_line(line_a: &Line, line_b: &Line) -> (r: Option<Crossing>)
    requires
        line_wf(*line_a),
        line_wf(*line_b),
    ensures
        r.is_some() == crosses(*line_a, *line_b),
        denom(*line_a, *line_b) == 0 ==> r.is_none(),
        r matches Some(c) ==> is_crossing_of(*line_a, *line_b, c),
{
    let x1 = line_a.0.x as i128;
    let y1 = line_a.0.y as i128;
    let x2 = line_a.1.x as i128;
    let y2 = line_a.1.y as i128;
    let x3 = line_b.0.x as i128;
    let y3 = line_b.0.y as i128;
    let x4 = line_b.1.x as i128;
    let y4 = line_b.1.y as i128;
    let dxa = x2 - x1;
    let dya = y2 - y1;
    let dxb = x4 - x3;
    let dyb = y4 - y3;
    let ox = x1 - x3;
    let oy = y1 - y3;
    let ghost m: int = 2 * COORD_LIMIT;
    proof {
        lemma_product_bound(dyb as int, dxa as int, m, m);
        lemma_product_bound(dxb as int, dya as int, m, m);
        lemma_product_bound(dxb as int, oy as int, m, m);
        lemma_product_bound(dyb as int, ox as int, m, m);
        lemma_product_bound(dxa as int, oy as int, m, m);
        lemma_product_bound(dya as int, ox as int, m, m);
    }
    let d = dyb * dxa - dxb * dya;
    if d == 0 {
        return None;
    }
    let na = dxb * oy - dyb * ox;
    let nb = dxa * oy - dya * ox;
    let (den, along, across) = if d > 0 {
        (d, na, nb)
    } else {
        (-d, -na, -nb)
    };
    if 0 <= along && along <= den && 0 <= across && across <= den {
        proof {
            lemma_product_bound(x1 as int, den as int, COORD_LIMIT as int, 2 * m * m);
            lemma_product_bound(y1 as int, den as int, COORD_LIMIT as int, 2 * m * m);
            lemma_product_bound(along as int, dxa as int, 2 * m * m, m);
            lemma_product_bound(along as int, dya as int, 2 * m * m, m);
        }
        let x = x1 * den + along * dxa;
        let y = y1 * den + along * dya;
        Some(Crossing { x, y, along, den })
    } else {
        None
    }
}


/// The crossing's coordinates over the denominator `|denom|`, as integers.
pub open spec fn crossing_x(a: Line, b: Line) -> int {
    let d = denom(a, b);
    a.0.x * (signed(d, d)) + signed(d, num_a(a, b)) * (a.1.x - a.0.x)
}

pub open spec fn crossing_y(a: Line, b: Line) -> int {
    let d = denom(a, b);
    a.0.y * (signed(d, d)) + signed(d, num_a(a, b)) * (a.1.y - a.0.y)
}

/// With `f, g` the offset between the starts and `(p, q)`, `(u, v)` the two
/// directions: the two parametric forms of the crossing agree.
proof fn lemma_cross_identity(f: int, g: int, p: int, q: int, u: int, v: int)
    ensures
        f * (v * p - u * q) + (u * g - v * f) * p == (p * g - q * f) * u,
        g * (v * p - u * q) + (u * g - v * f) * q == (p * g - q * f) * v,
{
    assert(f * (v * p - u * q) + (u * g - v * f) * p == (p * g - q * f) * u) by (nonlinear_arith);
    assert(g * (v * p - u * q) + (u * g - v * f) * q == (p * g - q * f) * v) by (nonlinear_arith);
}

proof fn lemma_crossing_at_fractions(a: Line, b: Line)
    requires
        crosses(a, b),
    ensures
        at_fraction(
            crossing_x(a, b),
            crossing_y(a, b),
            signed(denom(a, b), denom(a, b)),
            a,
            signed(denom(a, b), num_a(a, b)),
        ),
        at_fraction(
            crossing_x(a, b),
            crossing_y(a, b),
            signed(denom(a, b), denom(a, b)),
            b,
            signed(denom(a, b), num_b(a, b)),
        ),
{
    let (x1, y1, x2, y2) = (a.0.x as int, a.0.y as int, a.1.x as int, a.1.y as int);
    let (x3, y3, x4, y4) = (b.0.x as int, b.0.y as int, b.1.x as int, b.1.y as int);
    let d = denom(a, b);
    let na = num_a(a, b);
    let nb = num_b(a, b);
    let (f, g, p, q, u, v) = (x1 - x3, y1 - y3, x2 - x1, y2 - y1, x4 - x3, y4 - y3);
    lemma_cross_identity(f, g, p, q, u, v);
    assert(d == v * p - u * q);
    assert(na == u * g - v * f);
    assert(nb == p * g - q * f);
    assert(x1 * d - x3 * d == f * d) by (nonlinear_arith)
        requires
            f == x1 - x3,
    ;
    assert(y1 * d - y3 * d == g * d) by (nonlinear_arith)
        requires
            g == y1 - y3,
    ;
    if d < 0 {
        assert(x1 * (-d) + (-na) * p == -(x1 * d + na * p)) by (nonlinear_arith);
        assert(x3 * (-d) + (-nb) * u == -(x3 * d + nb * u)) by (nonlinear_arith);
        assert(y1 * (-d) + (-na) * q == -(y1 * d + na * q)) by (nonlinear_arith);
        assert(y3 * (-d) + (-nb) * v == -(y3 * d + nb * v)) by (nonlinear_arith);
    }
}

/// Law: the point returned for two crossing segments lies on both of them.
/// Together with the contract of `collision_line_line` (a point comes back
/// exactly when both parameters lie in `[0, 1]`), this is the whole behaviour
/// on non-parallel segments.
pub proof fn lemma_crossing_on_both_segments(a: Line, b: Line, c: Crossing)
    requires
        crosses(a, b),
        is_crossing_of(a, b, c),
    ensures
        c.den > 0,
        on_line(c.x as int, c.y as int, c.den as int, a),
        on_line(c.x as int, c.y as int, c.den as int, b),
{
    lemma_crossing_at_fractions(a, b);
    let d = denom(a, b);
    assert(signed(d, d) > 0) by {
        if d > 0 {
            assert(signed(d, d) == d);
        } else {
            assert(signed(d, d) == -d);
        }
    }
    assert(at_fraction(c.x as int, c.y as int, c.den as int, a, signed(d, num_a(a, b))));
    assert(at_fraction(c.x as int, c.y as int, c.den as int, b, signed(d, num_b(a, b))));
}

/// Law: parallel segments, collinear and identical ones included, never cross.
pub proof fn lemma_parallel_never_crosses(a: Line, b: Line)
    requires
        denom(a, b) == 0,
    ensures
        !crosses(a, b),
{
}


/// An axis-aligned rectangle, held by its bounds.
#[derive(Clone, Copy, Debug, PartialEq, Eq, Structural)]
pub struct Rect {
    pub left: i64,
    pub bottom: i64,
    pub right: i64,
    pub top: i64,
}

impl Rect {
    pub open spec fn wf(self) -> bool {
        &&& coord_ok(self.left as int)
        &&& coord_ok(self.bottom as int)
        &&& coord_ok(self.right as int)
        &&& coord_ok(self.top as int)
        &&& self.left <= self.right
        &&& self.bottom <= self.top
    }

    /// The rectangle centred on `(x, y)` with width `w` and height `h`; the
    /// sizes are even so that the corners lie on the integer grid.
    pub fn from_xy_wh(x: i64, y: i64, w: i64, h: i64) -> (r: Rect)
        requires
            0 <= w,
            0 <= h,
            w % 2 == 0,
            h % 2 == 0,
            coord_ok(x - w / 2),
            coord_ok(x + w / 2),
            coord_ok(y - h / 2),
            coord_ok(y + h / 2),
        ensures
            r.wf(),
            r.left == x - w / 2,
            r.right == x + w / 2,
            r.bottom == y - h / 2,
            r.top == y + h / 2,
    {
        let hw = w / 2;
        let hh = h / 2;
        Rect { left: x - hw, bottom: y - hh, right: x + hw, top: y + hh }
    }

    pub fn top_left(&self) -> (r: Point)
        ensures
            r == (Point { x: self.left, y: self.top }),
    {
        Point { x: self.left, y: self.top }
    }

    pub fn top_right(&self) -> (r: Point)
        ensures
            r == (Point { x: self.right, y: self.top }),
    {
        Point { x: self.right, y: self.top }
    }

    pub fn bottom_right(&self) -> (r: Point)
        ensures
            r == (Point { x: self.right, y: self.bottom }),
    {
        Point { x: self.right, y: self.bottom }
    }

    pub fn bottom_left(&self) -> (r: Point)
        ensures
            r == (Point { x: self.left, y: self.bottom }),
    {
        Point { x: self.left, y: self.bottom }
    }

    /// Edge `i` in the order top, right, bottom, left, each from one corner to
    /// the next, so that the four close a loop.
    pub open spec fn edge(self, i: int) -> Line {
        let tl = Point { x: self.left, y: self.top };
        let tr = Point { x: self.right, y: self.top };
        let br = Point { x: self.right, y: self.bottom };
        let bl = Point { x: self.left, y: self.bottom };
        if i == 0 {
            (tl, tr)
        } else if i == 1 {
            (tr, br)
        } else if i == 2 {
            (br, bl)
        } else {
            (bl, tl)
        }
    }
}

/// The crossing of `line` with each edge of `rect` in the order top, right,
/// bottom, left; an edge that is not crossed keeps its slot as `None`.
pub fn collision_line_rect(line: &Line, rect: &Rect) -> (r: Vec<Option<Crossing>>)
    requires
        line_wf(*line),
        rect.wf(),
    ensures
        r@.len() == 4,
        forall|i: int|
            0 <= i < 4 ==> {
                &&& (#[trigger] r@[i]).is_some() == crosses(*line, rect.edge(i))
                &&& r@[i] matches Some(c) ==> is_crossing_of(*line, rect.edge(i), c)
            },
{
    let sides: [Line; 4] = [
        (rect.top_left(), rect.top_right()),
        (rect.top_right(), rect.bottom_right()),
        (rect.bottom_right(), rect.bottom_left()),
        (rect.bottom_left(), rect.top_left()),
    ];
    let mut found: Vec<Option<Crossing>> = Vec::new();
    let mut k: usize = 0;
    while k < 4
        invariant
            k <= 4,
            line_wf(*line),
            rect.wf(),
            forall|j: int| 0 <= j < 4 ==> #[trigger] sides@[j] == rect.edge(j),
            found@.len() == k,
            forall|i: int|
                0 <= i < k ==> {
                    &&& (#[trigger] found@[i]).is_some() == crosses(*line, rect.edge(i))
                    &&& found@[i] matches Some(c) ==> is_crossing_of(*line, rect.edge(i), c)
                },
        decreases 4 - k,
    {
        let hit = collision_line_line(line, &sides[k]);
        found.push(hit);
        k = k + 1;
    }
    found
}

/// A point at a fraction of a segment lies within the segment's bounding box.
proof fn lemma_fraction_in_box(px: int, py: int, den: int, l: Line, t: int)
    requires
        den > 0,
        at_fraction(px, py, den, l, t),
    ensures
        px >= (if l.0.x <= l.1.x { l.0.x as int } else { l.1.x as int }) * den,
        px <= (if l.0.x <= l.1.x { l.1.x as int } else { l.0.x as int }) * den,
        py >= (if l.0.y <= l.1.y { l.0.y as int } else { l.1.y as int }) * den,
        py <= (if l.0.y <= l.1.y { l.1.y as int } else { l.0.y as int }) * den,
{
    let (x1, y1, x2, y2) = (l.0.x as int, l.0.y as int, l.1.x as int, l.1.y as int);
    assert(px == x1 * (den - t) + x2 * t) by (nonlinear_arith)
        requires
            px == x1 * den + t * (x2 - x1),
    ;
    assert(py == y1 * (den - t) + y2 * t) by (nonlinear_arith)
        requires
            py == y1 * den + t * (y2 - y1),
    ;
    lemma_between(x1, x2, den, t, px);
    lemma_between(y1, y2, den, t, py);
}

proof fn lemma_between(a: int, b: int, den: int, t: int, p: int)
    requires
        0 <= t <= den,
        p == a * (den - t) + b * t,
    ensures
        p >= (if a <= b { a } else { b }) * den,
        p <= (if a <= b { b } else { a }) * den,
{
    let lo = if a <= b { a } else { b };
    let hi = if a <= b { b } else { a };
    assert(lo * den <= p <= hi * den) by (nonlinear_arith)
        requires
            0 <= t <= den,
            p == a * (den - t) + b * t,
            lo <= a <= hi,
            lo <= b <= hi,
    ;
}

/// `line` lies wholly on the far side of one of the rectangle's bounds.
pub open spec fn beyond_rect(line: Line, rect: Rect) -> bool {
    ||| (line.0.x < rect.left && line.1.x < rect.left)
    ||| (line.0.x > rect.right && line.1.x > rect.right)
    ||| (line.0.y < rect.bottom && line.1.y < rect.bottom)
    ||| (line.0.y > rect.top && line.1.y > rect.top)
}

/// Law: a segment that lies wholly beyond one of the bounds of a rectangle
/// crosses none of its four edges.
pub proof fn lemma_beyond_rect_no_crossing(line: Line, rect: Rect)
    requires
        rect.wf(),
        beyond_rect(line, rect),
    ensures
        forall|i: int| 0 <= i < 4 ==> !crosses(line, #[trigger] rect.edge(i)),
{
    assert forall|i: int| 0 <= i < 4 implies !crosses(line, #[trigger] rect.edge(i)) by {
        let e = rect.edge(i);
        if crosses(line, e) {
            lemma_crossing_at_fractions(line, e);
            let d = denom(line, e);
            let den = signed(d, d);
            let px = crossing_x(line, e);
            let py = crossing_y(line, e);
            lemma_fraction_in_box(px, py, den, line, signed(d, num_a(line, e)));
            lemma_fraction_in_box(px, py, den, e, signed(d, num_b(line, e)));
            let (l, r, b, t) = (rect.left as int, rect.right as int, rect.bottom as int, rect.top as int);
            assert(l * den <= r * den && b * den <= t * den) by (nonlinear_arith)
                requires
                    l <= r,
                    b <= t,
                    den > 0,
            ;
            let (x1, y1, x2, y2) = (line.0.x as int, line.0.y as int, line.1.x as int, line.1.y as int);
            let mx = if x1 <= x2 { x2 } else { x1 };
            let nx = if x1 <= x2 { x1 } else { x2 };
            let my = if y1 <= y2 { y2 } else { y1 };
            let ny = if y1 <= y2 { y1 } else { y2 };
            assert(mx < l ==> mx * den < l * den) by (nonlinear_arith)
                requires
                    den > 0,
            ;
            assert(nx > r ==> nx * den > r * den) by (nonlinear_arith)
                requires
                    den > 0,
            ;
            assert(my < b ==> my * den < b * den) by (nonlinear_arith)
                requires
                    den > 0,
            ;
            assert(ny > t ==> ny * den > t * den) by (nonlinear_arith)
                requires
                    den > 0,
            ;
        }
    }
}


/// The magnitude of the denominator of two segments in range.
pub proof fn lemma_cross_den_bound(a: Line, b: Line)
    requires
        line_wf(a),
        line_wf(b),
    ensures
        0 <= cross_den(a, b) <= 0x8000_0000_0000_0000,
        crosses(a, b) ==> cross_den(a, b) > 0 && 0 <= cross_along(a, b) <= cross_den(a, b),
{
    let m: int = 2 * COORD_LIMIT;
    lemma_product_bound(b.1.y - b.0.y, a.1.x - a.0.x, m, m);
    lemma_product_bound(b.1.x - b.0.x, a.1.y - a.0.y, m, m);
    assert(m * m == 0x4000_0000_0000_0000) by (nonlinear_arith)
        requires
            m == 0x8000_0000,
    ;
}

} // verus!
