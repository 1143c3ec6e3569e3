use vstd::prelude::*;

verus! {

/// Half the side of the cube that bounds the world, in micrometres.
pub const WORLD_EDGE: i64 = 1_000_000_000_000;

/// A point or displacement in world space, in micrometres.
#[derive(Clone, Copy, Debug, PartialEq, Eq, Structural)]
pub struct Vec3i {
    pub x: i64,
    pub y: i64,
    pub z: i64,
}

/// Whether every coordinate lies inside the world cube.
pub open spec fn in_world(p: Vec3i) -> bool {
    -WORLD_EDGE <= p.x <= WORLD_EDGE && -WORLD_EDGE <= p.y <= WORLD_EDGE && -WORLD_EDGE <= p.z
        <= WORLD_EDGE
}

/// Squared Euclidean distance between two points.
pub open spec fn dist2(a: Vec3i, b: Vec3i) -> int {
    (a.x - b.x) * (a.x - b.x) + (a.y - b.y) * (a.y - b.y) + (a.z - b.z) * (a.z - b.z)
}

pub open spec fn abs(v: int) -> int {
    if v < 0 {
        -v
    } else {
        v
    }
}

/// Whether two axis-aligned boxes, given by centre and half extents, intersect on all
/// three axes (touching faces count as intersecting).
pub open spec fn boxes_overlap(p: Vec3i, h: Vec3i, q: Vec3i, k: Vec3i) -> bool {
    abs(p.x - q.x) <= h.x + k.x && abs(p.y - q.y) <= h.y + k.y && abs(p.z - q.z) <= h.z + k.z
}

/// A coordinate held to the world cube.
pub open spec fn clamp_edge(v: int) -> int {
    if v < -WORLD_EDGE {
        -WORLD_EDGE as int
    } else if v > WORLD_EDGE {
        WORLD_EDGE as int
    } else {
        v
    }
}

impl Vec3i {
    pub fn new(x: i64, y: i64, z: i64) -> (r: Vec3i)
        ensures
            r == (Vec3i { x, y, z }),
    {
        Vec3i { x, y, z }
    }
}

pub fn in_world_exec(p: Vec3i) -> (r: bool)
    ensures
        r == in_world(p),
{
    -WORLD_EDGE <= p.x && p.x <= WORLD_EDGE && -WORLD_EDGE <= p.y && p.y <= WORLD_EDGE
        && -WORLD_EDGE <= p.z && p.z <= WORLD_EDGE
}

/// Squared distance between two points of the world.
pub fn distance_squared(a: Vec3i, b: Vec3i) -> (r: i128)
    requires
        in_world(a),
        in_world(b),
    ensures
        r == dist2(a, b),
{
    let dx = a.x as i128 - b.x as i128;
    let dy = a.y as i128 - b.y as i128;
    let dz = a.z as i128 - b.z as i128;
    assert(0 <= dx * dx <= 4_000_000_000_000_000_000_000_000) by (nonlinear_arith)
        requires
            -2_000_000_000_000 <= dx <= 2_000_000_000_000,
    ;
    assert(0 <= dy * dy <= 4_000_000_000_000_000_000_000_000) by (nonlinear_arith)
        requires
            -2_000_000_000_000 <= dy <= 2_000_000_000_000,
    ;
    assert(0 <= dz * dz <= 4_000_000_000_000_000_000_000_000) by (nonlinear_arith)
        requires
            -2_000_000_000_000 <= dz <= 2_000_000_000_000,
    ;
    dx * dx + dy * dy + dz * dz
}

fn abs_diff(a: i64, b: i64) -> (r: i64)
    requires
        -WORLD_EDGE <= a <= WORLD_EDGE,
        -WORLD_EDGE <= b <= WORLD_EDGE,
    ensures
        r == abs(a - b),
{
    if a < b {
        b - a
    } else {
        a - b
    }
}

/// Whether two boxes of the world intersect.
pub fn overlaps(p: Vec3i, h: Vec3i, q: Vec3i, k: Vec3i) -> (r: bool)
    requires
        in_world(p),
        in_world(h),
        in_world(q),
        in_world(k),
    ensures
        r == boxes_overlap(p, h, q, k),
{
    abs_diff(p.x, q.x) <= h.x + k.x && abs_diff(p.y, q.y) <= h.y + k.y && abs_diff(p.z, q.z)
        <= h.z + k.z
}

/// One coordinate moved by `v * dt` and held to the world cube.
pub fn step_coord(c: i64, v: i64, dt: u64) -> (r: i64)
    requires
        -WORLD_EDGE <= c <= WORLD_EDGE,
        -WORLD_EDGE <= v <= WORLD_EDGE,
    ensures
        r == clamp_edge(c + v * dt),
{
    let vv = v as i128;
    let tt = dt as i128;
    assert(-WORLD_EDGE * 18_446_744_073_709_551_615 <= vv * tt <= WORLD_EDGE
        * 18_446_744_073_709_551_615) by (nonlinear_arith)
        requires
            -WORLD_EDGE <= vv <= WORLD_EDGE,
            0 <= tt <= 18_446_744_073_709_551_615,
    ;
    let moved = c as i128 + vv * tt;
    if moved < -(WORLD_EDGE as i128) {
        -WORLD_EDGE
    } else if moved > WORLD_EDGE as i128 {
        WORLD_EDGE
    } else {
        moved as i64
    }
}

/// Whether `r` is the integer square root of `n`.
pub open spec fn is_isqrt(n: int, r: int) -> bool {
    0 <= r && r * r <= n < (r + 1) * (r + 1)
}

/// Integer square root by bisection, for values up to 2^86.
pub fn isqrt(n: u128) -> (r: u128)
    requires
        n < 0x40_0000_0000_0000_0000_0000,
    ensures
        is_isqrt(n as int, r as int),
{
    let mut lo: u128 = 0;
    let mut hi: u128 = 0x800_0000_0000;
    assert(hi * hi == 0x40_0000_0000_0000_0000_0000) by (nonlinear_arith)
        requires
            hi == 0x800_0000_0000,
    ;
    while hi - lo > 1
        invariant
            lo < hi <= 0x800_0000_0000,
            lo * lo <= n < hi * hi,
        decreases hi - lo,
    {
        let mid = lo + (hi - lo) / 2;
        assert(mid * mid <= 0x40_0000_0000_0000_0000_0000) by (nonlinear_arith)
            requires
                mid <= 0x800_0000_0000,
        ;
        if mid * mid <= n {
            lo = mid;
        } else {
            hi = mid;
        }
    }
    lo
}

} // verus!
