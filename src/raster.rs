//! Primitive assembly and triangle rasterization on integer screen
//! coordinates.
//!
//! Screen positions are fixed-point with `SUBPIXEL` steps per pixel; pixel
//! `(x, y)` is sampled at its centre `(x * SUBPIXEL + SUBPIXEL / 2, ...)`.
//! Rows grow downward.
//!
//! Edge rule: a pixel centre strictly inside all three edges is covered. A
//! centre exactly on an edge is covered only when the triangle owns that
//! edge: walking the edge in the triangle's positive orientation, it runs
//! toward larger `y`, or is horizontal and runs toward smaller `x`. Two
//! triangles that share an edge walk it in opposite directions, so exactly
//! one of them owns it (`lemma_shared_edge_owned_once`): no seam, no pixel
//! drawn twice.
use vstd::prelude::*;

verus! {

/// Fixed-point steps per pixel.
pub const SUBPIXEL: i64 = 16;

/// Largest magnitude of a vertex coordinate, in fixed-point steps.
pub const COORD_LIMIT: i64 = 0x1000_0000;

/// A vertex in screen space: fixed-point `x` and `y`, and a depth.
#[derive(Clone, Copy, Debug, PartialEq, Eq, Structural)]
pub struct ScreenVertex {
    pub x: i64,
    pub y: i64,
    pub z: u32,
}

/// A covered pixel, with the barycentric weights of the three vertices
/// (in the order they were given; each over `area`) and the interpolated depth.
#[derive(Clone, Copy, Debug, PartialEq, Eq, Structural)]
pub struct Fragment {
    pub x: usize,
    pub y: usize,
    pub depth: u32,
    pub w0: i64,
    pub w1: i64,
    pub w2: i64,
    pub area: i64,
}

pub open spec fn in_limit(v: ScreenVertex) -> bool {
    -COORD_LIMIT <= v.x <= COORD_LIMIT && -COORD_LIMIT <= v.y <= COORD_LIMIT
}

/// The fixed-point centre of pixel column or row `i`.
pub open spec fn center(i: int) -> int {
    i * SUBPIXEL + SUBPIXEL / 2
}

/// Twice the signed area of `(a, b, (px, py))`; positive when the point lies
/// on the positive side of the edge `a -> b`.
pub open spec fn edge(a: ScreenVertex, b: ScreenVertex, px: int, py: int) -> int {
    (b.x - a.x) * (py - a.y) - (b.y - a.y) * (px - a.x)
}

/// Twice the signed area of the triangle.
pub open spec fn area(a: ScreenVertex, b: ScreenVertex, c: ScreenVertex) -> int {
    edge(a, b, c.x as int, c.y as int)
}

/// The edge `a -> b` is owned by the triangle that walks it this way.
pub open spec fn owns_edge(a: ScreenVertex, b: ScreenVertex) -> bool {
    b.y > a.y || (b.y == a.y && b.x < a.x)
}

pub open spec fn inside_edge(w: int, a: ScreenVertex, b: ScreenVertex) -> bool {
    w > 0 || (w == 0 && owns_edge(a, b))
}

/// Pixel `(x, y)` is covered by `(p, q, r)`, a triangle of positive area.
pub open spec fn covers_positive(p: ScreenVertex, q: ScreenVertex, r: ScreenVertex, x: int, y: int) -> bool {
    &&& inside_edge(edge(q, r, center(x), center(y)), q, r)
    &&& inside_edge(edge(r, p, center(x), center(y)), r, p)
    &&& inside_edge(edge(p, q, center(x), center(y)), p, q)
}

/// Pixel `(x, y)` is covered by the triangle, whichever its orientation;
/// a triangle of zero area covers nothing.
pub open spec fn covers(v0: ScreenVertex, v1: ScreenVertex, v2: ScreenVertex, x: int, y: int) -> bool {
    if area(v0, v1, v2) > 0 {
        covers_positive(v0, v1, v2, x, y)
    } else if area(v0, v1, v2) < 0 {
        covers_positive(v0, v2, v1, x, y)
    } else {
        false
    }
}

/// The fragment of pixel `(x, y)` for the positive triangle `(p, q, r)`;
/// `swapped` says that `q` and `r` are the given third and second vertices.
pub open spec fn positive_fragment(
    p: ScreenVertex,
    q: ScreenVertex,
    r: ScreenVertex,
    swapped: bool,
    x: int,
    y: int,
) -> Fragment {
    let wp = edge(q, r, center(x), center(y));
    let wq = edge(r, p, center(x), center(y));
    let wr = edge(p, q, center(x), center(y));
    let a = area(p, q, r);
    Fragment {
        x: x as usize,
        y: y as usize,
        depth: ((wp * p.z + wq * q.z + wr * r.z) / a) as u32,
        w0: wp as i64,
        w1: if swapped { wr as i64 } else { wq as i64 },
        w2: if swapped { wq as i64 } else { wr as i64 },
        area: a as i64,
    }
}

/// The fragment that rasterizing the triangle gives for a covered pixel:
/// weights in the given vertex order, depth interpolated from them and
/// rounded down.
pub open spec fn fragment_at(v0: ScreenVertex, v1: ScreenVertex, v2: ScreenVertex, x: int, y: int) -> Fragment {
    if area(v0, v1, v2) > 0 {
        positive_fragment(v0, v1, v2, false, x, y)
    } else {
        positive_fragment(v0, v2, v1, true, x, y)
    }
}

/// Pixel `(y1, x1)` comes before `(y2, x2)` in row-major order.
pub open spec fn before(y1: int, x1: int, y2: int, x2: int) -> bool {
    y1 < y2 || (y1 == y2 && x1 < x2)
}

pub open spec fn has_pixel(s: Seq<Fragment>, x: int, y: int) -> bool {
    exists|k: int| 0 <= k < s.len() && s[k].x == x && #[trigger] s[k].y == y
}

/// For a triangle's edge `a -> b` with `a != b`, exactly one of the two
/// walking directions owns it.
pub proof fn lemma_shared_edge_owned_once(a: ScreenVertex, b: ScreenVertex)
    requires
        a.x != b.x || a.y != b.y,
    ensures
        owns_edge(a, b) != owns_edge(b, a),
{
}

proof fn lemma_has_pixel_push(s: Seq<Fragment>, f: Fragment, x: int, y: int)
    requires
        has_pixel(s, x, y),
    ensures
        has_pixel(s.push(f), x, y),
{
    let k = choose|k: int| 0 <= k < s.len() && s[k].x == x && #[trigger] s[k].y == y;
    assert(s.push(f)[k] == s[k]);
}

proof fn lemma_expand(x1: int, x2: int, y1: int, y2: int)
    ensures
        (x1 - x2) * (y1 - y2) == x1 * y1 - x1 * y2 - x2 * y1 + x2 * y2,
{
    assert((x1 - x2) * (y1 - y2) == x1 * y1 - x1 * y2 - x2 * y1 + x2 * y2) by (nonlinear_arith);
}

/// The cross terms of the weights, taken relative to `p`.
proof fn lemma_weights_relative(a: int, b: int, c: int, d: int, u: int, v: int)
    ensures
        (d * u - c * v) * a + (a * v - b * u) * c == (a * d - b * c) * u,
        (d * u - c * v) * b + (a * v - b * u) * d == (a * d - b * c) * v,
{
    assert((d * u - c * v) * a + (a * v - b * u) * c == (a * d - b * c) * u) by (nonlinear_arith);
    assert((d * u - c * v) * b + (a * v - b * u) * d == (a * d - b * c) * v) by (nonlinear_arith);
}

/// The three weights sum to the area, and weight the vertices to the point.
proof fn lemma_weights(p: ScreenVertex, q: ScreenVertex, r: ScreenVertex, cx: int, cy: int)
    ensures
        edge(q, r, cx, cy) + edge(r, p, cx, cy) + edge(p, q, cx, cy) == area(p, q, r),
        edge(q, r, cx, cy) * p.x + edge(r, p, cx, cy) * q.x + edge(p, q, cx, cy) * r.x == area(p, q, r) * cx,
        edge(q, r, cx, cy) * p.y + edge(r, p, cx, cy) * q.y + edge(p, q, cx, cy) * r.y == area(p, q, r) * cy,
{
    let a = q.x - p.x;
    let b = q.y - p.y;
    let c = r.x - p.x;
    let d = r.y - p.y;
    let u = cx - p.x;
    let v = cy - p.y;
    let w0 = edge(q, r, cx, cy);
    let w1 = edge(r, p, cx, cy);
    let w2 = edge(p, q, cx, cy);
    assert(w0 == (c - a) * (v - b) - (d - b) * (u - a));
    lemma_expand(c, a, v, b);
    lemma_expand(d, b, u, a);
    assert(w1 == (0 - c) * (v - d) - (0 - d) * (u - c));
    lemma_expand(0, c, v, d);
    lemma_expand(0, d, u, c);
    assert(w2 == a * v - b * u);
    assert(w1 == d * u - c * v);
    assert(w0 + w1 + w2 == a * d - b * c);
    assert(area(p, q, r) == a * d - b * c);
    lemma_weights_relative(a, b, c, d, u, v);
    let t = w0 + w1 + w2;
    assert(w0 * p.x + w1 * q.x + w2 * r.x == t * p.x + w1 * a + w2 * c) by (nonlinear_arith)
        requires
            a == q.x - p.x,
            c == r.x - p.x,
            t == w0 + w1 + w2,
    ;
    assert(w0 * p.y + w1 * q.y + w2 * r.y == t * p.y + w1 * b + w2 * d) by (nonlinear_arith)
        requires
            b == q.y - p.y,
            d == r.y - p.y,
            t == w0 + w1 + w2,
    ;
    assert(t * p.x + t * u == t * cx) by (nonlinear_arith)
        requires
            u == cx - p.x,
    ;
    assert(t * p.y + t * v == t * cy) by (nonlinear_arith)
        requires
            v == cy - p.y,
    ;
}

/// A weighted average with non-negative weights lies between the least and
/// the greatest of the values.
proof fn lemma_weighted_between(w0: int, w1: int, w2: int, a: int, b: int, c: int, lo: int, hi: int, t: int)
    requires
        w0 >= 0,
        w1 >= 0,
        w2 >= 0,
        w0 + w1 + w2 > 0,
        lo <= a <= hi,
        lo <= b <= hi,
        lo <= c <= hi,
        w0 * a + w1 * b + w2 * c == (w0 + w1 + w2) * t,
    ensures
        lo <= t <= hi,
{
    let sw = w0 + w1 + w2;
    assert(w0 * a >= w0 * lo && w0 * a <= w0 * hi) by (nonlinear_arith)
        requires
            w0 >= 0,
            lo <= a <= hi,
    ;
    assert(w1 * b >= w1 * lo && w1 * b <= w1 * hi) by (nonlinear_arith)
        requires
            w1 >= 0,
            lo <= b <= hi,
    ;
    assert(w2 * c >= w2 * lo && w2 * c <= w2 * hi) by (nonlinear_arith)
        requires
            w2 >= 0,
            lo <= c <= hi,
    ;
    assert(sw * lo == w0 * lo + w1 * lo + w2 * lo && sw * hi == w0 * hi + w1 * hi + w2 * hi) by (nonlinear_arith)
        requires
            sw == w0 + w1 + w2,
    ;
    assert(lo <= t <= hi) by (nonlinear_arith)
        requires
            sw > 0,
            sw * t >= sw * lo,
            sw * t <= sw * hi,
    ;
}

pub open spec fn min3(a: int, b: int, c: int) -> int {
    if a <= b && a <= c {
        a
    } else if b <= c {
        b
    } else {
        c
    }
}

pub open spec fn max3(a: int, b: int, c: int) -> int {
    if a >= b && a >= c {
        a
    } else if b >= c {
        b
    } else {
        c
    }
}

/// A covered pixel's centre lies in the triangle's bounding box.
proof fn lemma_covered_in_box(p: ScreenVertex, q: ScreenVertex, r: ScreenVertex, x: int, y: int)
    requires
        area(p, q, r) > 0,
        covers_positive(p, q, r, x, y),
    ensures
        min3(p.x as int, q.x as int, r.x as int) <= center(x) <= max3(p.x as int, q.x as int, r.x as int),
        min3(p.y as int, q.y as int, r.y as int) <= center(y) <= max3(p.y as int, q.y as int, r.y as int),
{
    lemma_weights(p, q, r, center(x), center(y));
    let w0 = edge(q, r, center(x), center(y));
    let w1 = edge(r, p, center(x), center(y));
    let w2 = edge(p, q, center(x), center(y));
    lemma_weighted_between(
        w0, w1, w2, p.x as int, q.x as int, r.x as int,
        min3(p.x as int, q.x as int, r.x as int), max3(p.x as int, q.x as int, r.x as int), center(x),
    );
    lemma_weighted_between(
        w0, w1, w2, p.y as int, q.y as int, r.y as int,
        min3(p.y as int, q.y as int, r.y as int), max3(p.y as int, q.y as int, r.y as int), center(y),
    );
}

/// The triangles of a triangle list of `vertex_count` vertices, as index
/// triples: consecutive, non-overlapping runs of three. A trailing run of
/// one or two vertices is dropped.
pub fn assemble_triangles(vertex_count: usize) -> (tris: Vec<(usize, usize, usize)>)
    ensures
        tris@.len() == vertex_count / 3,
        forall|i: int|
            0 <= i < tris@.len() ==> #[trigger] tris@[i] == (
                (3 * i) as usize,
                (3 * i + 1) as usize,
                (3 * i + 2) as usize,
            ),
        forall|i: int| 0 <= i < tris@.len() ==> (#[trigger] tris@[i]).2 < 3 * (vertex_count / 3),
{
    let mut tris: Vec<(usize, usize, usize)> = Vec::new();
    let mut i: usize = 0;
    while vertex_count - i >= 3
        invariant
            i == 3 * tris@.len(),
            i <= vertex_count,
            tris@.len() <= vertex_count / 3,
            vertex_count - i < 3 ==> tris@.len() == vertex_count / 3,
            forall|j: int|
                0 <= j < tris@.len() ==> #[trigger] tris@[j] == (
                    (3 * j) as usize,
                    (3 * j + 1) as usize,
                    (3 * j + 2) as usize,
                ),
        decreases vertex_count - i,
    {
        tris.push((i, i + 1, i + 2));
        i = i + 3;
    }
    tris
}

proof fn lemma_mul_bound(x: int, y: int)
    requires
        -0x4000_0000 <= x <= 0x4000_0000,
        -0x4000_0000 <= y <= 0x4000_0000,
    ensures
        -0x1000_0000_0000_0000 <= x * y <= 0x1000_0000_0000_0000,
{
    assert(-0x1000_0000_0000_0000 <= x * y <= 0x1000_0000_0000_0000) by (nonlinear_arith)
        requires
            -0x4000_0000 <= x <= 0x4000_0000,
            -0x4000_0000 <= y <= 0x4000_0000,
    ;
}

pub open spec fn small(v: int) -> bool {
    -0x2000_0000 <= v <= 0x2000_0000
}

fn edge_exec(a: ScreenVertex, b: ScreenVertex, px: i64, py: i64) -> (e: i64)
    requires
        small(a.x as int) && small(a.y as int) && small(b.x as int) && small(b.y as int),
        small(px as int) && small(py as int),
    ensures
        e == edge(a, b, px as int, py as int),
{
    proof {
        lemma_mul_bound(b.x - a.x, py - a.y);
        lemma_mul_bound(b.y - a.y, px - a.x);
    }
    (b.x - a.x) * (py - a.y) - (b.y - a.y) * (px - a.x)
}

fn inside_exec(w: i64, a: ScreenVertex, b: ScreenVertex) -> (r: bool)
    ensures
        r == inside_edge(w as int, a, b),
{
    w > 0 || (w == 0 && (b.y > a.y || (b.y == a.y && b.x < a.x)))
}

fn interpolate_depth(wp: i64, wq: i64, wr: i64, a: i64, zp: u32, zq: u32, zr: u32) -> (d: u32)
    requires
        wp >= 0,
        wq >= 0,
        wr >= 0,
        wp + wq + wr == a,
        a > 0,
    ensures
        d == (wp * zp + wq * zq + wr * zr) / (a as int),
{
    let ghost m: int = 0xFFFF_FFFF;
    let ghost s: int = wp as int * zp as int + wq as int * zq as int + wr as int * zr as int;
    assert(0 <= s <= a * m) by (nonlinear_arith)
        requires
            wp >= 0,
            wq >= 0,
            wr >= 0,
            wp + wq + wr == a,
            0 <= zp <= m,
            0 <= zq <= m,
            0 <= zr <= m,
            s == wp * zp + wq * zq + wr * zr,
    ;
    assert(s / (a as int) <= m) by (nonlinear_arith)
        requires
            0 <= s <= a * m,
            a > 0,
    ;
    assert(a * m < 0x1_0000_0000_0000_0000_0000_0000) by (nonlinear_arith)
        requires
            0 < a < 0x8000_0000_0000_0000,
            m == 0xFFFF_FFFF,
    ;
    assert((wp as u128) * (zp as u128) <= a * m) by (nonlinear_arith)
        requires
            0 <= wp <= a,
            0 <= zp <= m,
    ;
    assert((wq as u128) * (zq as u128) <= a * m) by (nonlinear_arith)
        requires
            0 <= wq <= a,
            0 <= zq <= m,
    ;
    assert((wr as u128) * (zr as u128) <= a * m) by (nonlinear_arith)
        requires
            0 <= wr <= a,
            0 <= zr <= m,
    ;
    let t0: u128 = (wp as u128) * (zp as u128);
    let t1: u128 = (wq as u128) * (zq as u128);
    let t2: u128 = (wr as u128) * (zr as u128);
    let total: u128 = t0 + t1 + t2;
    (total / (a as u128)) as u32
}

fn min3_exec(a: i64, b: i64, c: i64) -> (m: i64)
    ensures
        m == min3(a as int, b as int, c as int),
{
    if a <= b && a <= c {
        a
    } else if b <= c {
        b
    } else {
        c
    }
}

fn max3_exec(a: i64, b: i64, c: i64) -> (m: i64)
    ensures
        m == max3(a as int, b as int, c as int),
{
    if a >= b && a >= c {
        a
    } else if b >= c {
        b
    } else {
        c
    }
}

/// The first and last pixel index whose centre can lie in `[lo, hi]`,
/// clipped to `[0, n - 1]`; `None` when no such pixel exists.
fn pixel_span(lo: i64, hi: i64, n: usize) -> (s: Option<(usize, usize)>)
    requires
        -COORD_LIMIT <= lo <= hi <= COORD_LIMIT,
    ensures
        s is None ==> forall|i: int| 0 <= i < n ==> !(lo <= #[trigger] center(i) <= hi),
        s matches Some((a, b)) ==> {
            &&& a <= b < n
            &&& b <= COORD_LIMIT / SUBPIXEL
            &&& forall|i: int| 0 <= i < n && lo <= #[trigger] center(i) <= hi ==> a <= i <= b
        },
{
    if n == 0 || hi < 0 {
        return None;
    }
    let a: usize = if lo <= 0 {
        0
    } else {
        (lo / 16) as usize
    };
    let top: usize = (hi / 16) as usize;
    let b: usize = if top < n - 1 {
        top
    } else {
        n - 1
    };
    if a > b {
        return None;
    }
    Some((a, b))
}

/// All covered pixels of the positive triangle `(p, q, r)`, in row-major order.
fn scan_positive(
    p: ScreenVertex,
    q: ScreenVertex,
    r: ScreenVertex,
    swapped: bool,
    width: usize,
    height: usize,
) -> (out: Vec<Fragment>)
    requires
        in_limit(p) && in_limit(q) && in_limit(r),
        area(p, q, r) > 0,
    ensures
        forall|k: int|
            0 <= k < out@.len() ==> {
                &&& (#[trigger] out@[k]).x < width
                &&& out@[k].y < height
                &&& covers_positive(p, q, r, out@[k].x as int, out@[k].y as int)
                &&& out@[k] == positive_fragment(p, q, r, swapped, out@[k].x as int, out@[k].y as int)
            },
        forall|j: int, k: int|
            0 <= j < k < out@.len() ==> before(
                (#[trigger] out@[j]).y as int,
                out@[j].x as int,
                (#[trigger] out@[k]).y as int,
                out@[k].x as int,
            ),
        forall|x: int, y: int|
            0 <= x < width && 0 <= y < height && #[trigger] covers_positive(p, q, r, x, y) ==> has_pixel(
                out@,
                x,
                y,
            ),
{
    let mut out: Vec<Fragment> = Vec::new();
    let a = edge_exec(p, q, r.x, r.y);
    let xs = pixel_span(min3_exec(p.x, q.x, r.x), max3_exec(p.x, q.x, r.x), width);
    let ys = pixel_span(min3_exec(p.y, q.y, r.y), max3_exec(p.y, q.y, r.y), height);
    if xs.is_none() || ys.is_none() {
        proof {
            assert forall|x: int, y: int|
                0 <= x < width && 0 <= y < height && #[trigger] covers_positive(p, q, r, x, y) implies has_pixel(
                out@,
                x,
                y,
            ) by {
                lemma_covered_in_box(p, q, r, x, y);
            }
        }
        return out;
    }
    let (xlo, xhi) = xs.unwrap();
    let (ylo, yhi) = ys.unwrap();
    let mut py: usize = ylo;
    proof {
        assert forall|x: int, y: int|
            0 <= x < width && 0 <= y < py && #[trigger] covers_positive(p, q, r, x, y) implies has_pixel(
            out@,
            x,
            y,
        ) by {
            lemma_covered_in_box(p, q, r, x, y);
        }
    }
    while py <= yhi
        invariant
            in_limit(p) && in_limit(q) && in_limit(r),
            a == area(p, q, r),
            a > 0,
            xs == Some((xlo, xhi)),
            ys == Some((ylo, yhi)),
            xlo <= xhi < width,
            ylo <= yhi < height,
            xhi <= COORD_LIMIT / SUBPIXEL,
            yhi <= COORD_LIMIT / SUBPIXEL,
            forall|i: int|
                0 <= i < width && min3(p.x as int, q.x as int, r.x as int) <= #[trigger] center(i) <= max3(
                    p.x as int,
                    q.x as int,
                    r.x as int,
                ) ==> xlo <= i <= xhi,
            forall|i: int|
                0 <= i < height && min3(p.y as int, q.y as int, r.y as int) <= #[trigger] center(i) <= max3(
                    p.y as int,
                    q.y as int,
                    r.y as int,
                ) ==> ylo <= i <= yhi,
            ylo <= py <= yhi + 1,
            forall|k: int|
                0 <= k < out@.len() ==> {
                    &&& (#[trigger] out@[k]).x < width
                    &&& out@[k].y < height
                    &&& out@[k].y < py
                    &&& covers_positive(p, q, r, out@[k].x as int, out@[k].y as int)
                    &&& out@[k] == positive_fragment(p, q, r, swapped, out@[k].x as int, out@[k].y as int)
                },
            forall|j: int, k: int|
                0 <= j < k < out@.len() ==> before(
                    (#[trigger] out@[j]).y as int,
                    out@[j].x as int,
                    (#[trigger] out@[k]).y as int,
                    out@[k].x as int,
                ),
            forall|x: int, y: int|
                0 <= x < width && 0 <= y < py && #[trigger] covers_positive(p, q, r, x, y) ==> has_pixel(
                    out@,
                    x,
                    y,
                ),
        decreases yhi + 1 - py,
    {
        let mut px: usize = xlo;
        proof {
            assert forall|x: int, y: int|
                0 <= x < width && 0 <= y < height && before(y, x, py as int, px as int)
                    && #[trigger] covers_positive(p, q, r, x, y) implies has_pixel(out@, x, y) by {
                if y == py {
                    lemma_covered_in_box(p, q, r, x, y);
                }
            }
        }
        while px <= xhi
            invariant
                in_limit(p) && in_limit(q) && in_limit(r),
                a == area(p, q, r),
                a > 0,
                xlo <= xhi < width,
                ylo <= py <= yhi < height,
                xhi <= COORD_LIMIT / SUBPIXEL,
                yhi <= COORD_LIMIT / SUBPIXEL,
                forall|i: int|
                    0 <= i < width && min3(p.x as int, q.x as int, r.x as int) <= #[trigger] center(i) <= max3(
                        p.x as int,
                        q.x as int,
                        r.x as int,
                    ) ==> xlo <= i <= xhi,
                xlo <= px <= xhi + 1,
                forall|k: int|
                    0 <= k < out@.len() ==> {
                        &&& (#[trigger] out@[k]).x < width
                        &&& out@[k].y < height
                        &&& before(out@[k].y as int, out@[k].x as int, py as int, px as int)
                        &&& covers_positive(p, q, r, out@[k].x as int, out@[k].y as int)
                        &&& out@[k] == positive_fragment(p, q, r, swapped, out@[k].x as int, out@[k].y as int)
                    },
                forall|j: int, k: int|
                    0 <= j < k < out@.len() ==> before(
                        (#[trigger] out@[j]).y as int,
                        out@[j].x as int,
                        (#[trigger] out@[k]).y as int,
                        out@[k].x as int,
                    ),
                forall|x: int, y: int|
                    0 <= x < width && 0 <= y < height && before(y, x, py as int, px as int)
                        && #[trigger] covers_positive(p, q, r, x, y) ==> has_pixel(out@, x, y),
            decreases xhi + 1 - px,
        {
            let cx: i64 = (px as i64) * 16 + 8;
            let cy: i64 = (py as i64) * 16 + 8;
            let wp = edge_exec(q, r, cx, cy);
            let wq = edge_exec(r, p, cx, cy);
            let wr = edge_exec(p, q, cx, cy);
            if inside_exec(wp, q, r) && inside_exec(wq, r, p) && inside_exec(wr, p, q) {
                proof {
                    lemma_weights(p, q, r, cx as int, cy as int);
                }
                let depth = interpolate_depth(wp, wq, wr, a, p.z, q.z, r.z);
                let f = Fragment {
                    x: px,
                    y: py,
                    depth,
                    w0: wp,
                    w1: if swapped {
                        wr
                    } else {
                        wq
                    },
                    w2: if swapped {
                        wq
                    } else {
                        wr
                    },
                    area: a,
                };
                let ghost prev = out@;
                out.push(f);
                proof {
                    assert forall|x: int, y: int|
                        0 <= x < width && 0 <= y < height && before(y, x, py as int, px + 1)
                            && #[trigger] covers_positive(p, q, r, x, y) implies has_pixel(out@, x, y) by {
                        if before(y, x, py as int, px as int) {
                            assert(has_pixel(prev, x, y));
                            lemma_has_pixel_push(prev, f, x, y);
                        } else {
                            let k = prev.len() as int;
                            assert(out@[k] == f);
                            assert(out@[k].x == x && out@[k].y == y);
                        }
                    }
                }
            } else {
                proof {
                    assert forall|x: int, y: int|
                        0 <= x < width && 0 <= y < height && before(y, x, py as int, px + 1)
                            && #[trigger] covers_positive(p, q, r, x, y) implies has_pixel(out@, x, y) by {
                        if !before(y, x, py as int, px as int) {
                            assert(x == px && y == py);
                        }
                    }
                }
            }
            px = px + 1;
        }
        proof {
            assert forall|x: int, y: int|
                0 <= x < width && 0 <= y < py + 1 && #[trigger] covers_positive(p, q, r, x, y) implies has_pixel(
                out@,
                x,
                y,
            ) by {
                lemma_covered_in_box(p, q, r, x, y);
            }
        }
        py = py + 1;
    }
    proof {
        assert forall|x: int, y: int|
            0 <= x < width && 0 <= y < height && #[trigger] covers_positive(p, q, r, x, y) implies has_pixel(
            out@,
            x,
            y,
        ) by {
            lemma_covered_in_box(p, q, r, x, y);
        }
    }
    out
}

/// Rasterizes one triangle into a framebuffer of `width * height` pixels:
/// one fragment for each covered pixel inside the framebuffer and no other,
/// in row-major order. A triangle of zero area gives none.
pub fn rasterize(
    v0: ScreenVertex,
    v1: ScreenVertex,
    v2: ScreenVertex,
    width: usize,
    height: usize,
) -> (out: Vec<Fragment>)
    requires
        in_limit(v0) && in_limit(v1) && in_limit(v2),
    ensures
        forall|k: int|
            0 <= k < out@.len() ==> {
                &&& (#[trigger] out@[k]).x < width
                &&& out@[k].y < height
                &&& covers(v0, v1, v2, out@[k].x as int, out@[k].y as int)
                &&& out@[k] == fragment_at(v0, v1, v2, out@[k].x as int, out@[k].y as int)
            },
        forall|j: int, k: int|
            0 <= j < k < out@.len() ==> before(
                (#[trigger] out@[j]).y as int,
                out@[j].x as int,
                (#[trigger] out@[k]).y as int,
                out@[k].x as int,
            ),
        forall|x: int, y: int|
            0 <= x < width && 0 <= y < height && #[trigger] covers(v0, v1, v2, x, y) ==> has_pixel(out@, x, y),
{
    let a = edge_exec(v0, v1, v2.x, v2.y);
    if a > 0 {
        let out = scan_positive(v0, v1, v2, false, width, height);
        assert forall|x: int, y: int|
            0 <= x < width && 0 <= y < height && #[trigger] covers(v0, v1, v2, x, y) implies has_pixel(out@, x, y) by {
            assert(covers_positive(v0, v1, v2, x, y));
        }
        out
    } else if a < 0 {
        proof {
            lemma_area_swap(v0, v1, v2);
        }
        let out = scan_positive(v0, v2, v1, true, width, height);
        assert forall|x: int, y: int|
            0 <= x < width && 0 <= y < height && #[trigger] covers(v0, v1, v2, x, y) implies has_pixel(out@, x, y) by {
            assert(covers_positive(v0, v2, v1, x, y));
        }
        out
    } else {
        Vec::new()
    }
}

/// A triangle whose three vertices share one depth gives exactly that
/// depth at every pixel it covers.
pub proof fn lemma_flat_depth(v0: ScreenVertex, v1: ScreenVertex, v2: ScreenVertex, x: int, y: int)
    requires
        v0.z == v1.z && v1.z == v2.z,
        covers(v0, v1, v2, x, y),
    ensures
        fragment_at(v0, v1, v2, x, y).depth == v0.z,
{
    let (p, q, r) = if area(v0, v1, v2) > 0 {
        (v0, v1, v2)
    } else {
        lemma_area_swap(v0, v1, v2);
        (v0, v2, v1)
    };
    lemma_weights(p, q, r, center(x), center(y));
    let wp = edge(q, r, center(x), center(y));
    let wq = edge(r, p, center(x), center(y));
    let wr = edge(p, q, center(x), center(y));
    let a = area(p, q, r);
    let z = v0.z as int;
    assert(wp * z + wq * z + wr * z == a * z) by (nonlinear_arith)
        requires
            wp + wq + wr == a,
    ;
    assert((a * z) / a == z) by (nonlinear_arith)
        requires
            a > 0,
    ;
}

proof fn lemma_area_swap(a: ScreenVertex, b: ScreenVertex, c: ScreenVertex)
    ensures
        area(a, c, b) == -area(a, b, c),
{
    let (u, v, s, t) = (b.x - a.x, b.y - a.y, c.x - a.x, c.y - a.y);
    assert(s * v - t * u == -(u * t - v * s)) by (nonlinear_arith);
}

} // verus!
