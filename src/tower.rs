use vstd::prelude::*;
use crate::body::{Body, Bullet, Target};
use crate::geometry::{Vec3i, in_world, dist2, distance_squared, is_isqrt, isqrt, WORLD_EDGE};

verus! {

/// Speed of every bullet, in micrometres per millisecond.
pub const BULLET_SPEED: i64 = 2500;

/// Lifetime of every bullet, in milliseconds.
pub const BULLET_LIFETIME: u64 = 1_000_500;

/// Half extent of a bullet's box on each axis, in micrometres.
pub const BULLET_HALF_EXTENT: i64 = 100_000;

/// A static emplacement that fires at the nearest target.
#[derive(Clone, Copy, Debug, PartialEq, Eq, Structural)]
pub struct Tower {
    pub id: u64,
    pub position: Vec3i,
    /// Reach of the tower, for hosts that draw or query it; firing picks the nearest of
    /// all live targets.
    pub detection_range: i64,
    /// Length of one firing period, in milliseconds.
    pub fire_period: u64,
    /// Milliseconds elapsed in the current period.
    pub elapsed: u64,
    /// Where bullets leave the tower, relative to its position along the world axes.
    pub muzzle_offset: Vec3i,
}

/// The tower part of the simulation, as a unit that a host registers.
#[derive(Clone, Copy, Debug, Default)]
pub struct TowerPlugin;

pub open spec fn muzzle_of(position: Vec3i, offset: Vec3i) -> Vec3i {
    Vec3i {
        x: (position.x + offset.x) as i64,
        y: (position.y + offset.y) as i64,
        z: (position.z + offset.z) as i64,
    }
}

impl Tower {
    pub open spec fn wf(self) -> bool {
        &&& self.detection_range > 0
        &&& self.fire_period > 0
        &&& self.elapsed < self.fire_period
        &&& in_world(self.position)
        &&& in_world(self.muzzle_offset)
        &&& in_world(self.muzzle())
    }

    pub open spec fn muzzle(self) -> Vec3i {
        muzzle_of(self.position, self.muzzle_offset)
    }

    /// Whether the timer completes a period during the next `dt` milliseconds.
    pub open spec fn fires(self, dt: u64) -> bool {
        self.elapsed + dt >= self.fire_period
    }

    /// The tower once its repeating timer has run `dt` milliseconds.
    pub open spec fn ticked(self, dt: u64) -> Tower {
        Tower { elapsed: ((self.elapsed + dt) % (self.fire_period as int)) as u64, ..self }
    }

    /// Advances the timer by `dt` and reports whether a period just finished; at most
    /// one shot is owed however long `dt` is.
    pub fn tick_timer(&mut self, dt: u64) -> (fired: bool)
        requires
            old(self).wf(),
        ensures
            fired == old(self).fires(dt),
            *final(self) == old(self).ticked(dt),
            final(self).wf(),
    {
        let total: u128 = self.elapsed as u128 + dt as u128;
        let rest = total % (self.fire_period as u128);
        self.elapsed = rest as u64;
        total >= self.fire_period as u128
    }

    pub fn muzzle_position(&self) -> (r: Vec3i)
        requires
            self.wf(),
        ensures
            r == self.muzzle(),
    {
        Vec3i {
            x: self.position.x + self.muzzle_offset.x,
            y: self.position.y + self.muzzle_offset.y,
            z: self.position.z + self.muzzle_offset.z,
        }
    }
}

/// Whether `r` is the first index among `ts` whose position is nearest to `p`.
pub open spec fn is_nearest(ts: Seq<Target>, p: Vec3i, r: int) -> bool {
    &&& 0 <= r < ts.len()
    &&& forall|j: int| 0 <= j < ts.len() ==> dist2(ts[r].body.position, p) <= dist2(ts[j].body.position, p)
    &&& forall|j: int| 0 <= j < r ==> dist2(ts[r].body.position, p) < dist2(ts[j].body.position, p)
}

/// The index of the target nearest to `p`, the first one on ties.
pub open spec fn nearest(ts: Seq<Target>, p: Vec3i) -> int {
    choose|r: int| is_nearest(ts, p, r)
}

proof fn lemma_nearest_unique(ts: Seq<Target>, p: Vec3i, a: int, b: int)
    requires
        is_nearest(ts, p, a),
        is_nearest(ts, p, b),
    ensures
        a == b,
{
    if a < b {
        assert(dist2(ts[b].body.position, p) < dist2(ts[a].body.position, p));
    } else if b < a {
        assert(dist2(ts[a].body.position, p) < dist2(ts[b].body.position, p));
    }
}

/// Index of the target nearest to `p`, the first one on ties; `None` when there is
/// no target.
pub fn nearest_target(ts: &Vec<Target>, p: Vec3i) -> (r: Option<usize>)
    requires
        in_world(p),
        forall|j: int| 0 <= j < ts@.len() ==> (#[trigger] ts@[j]).wf(),
    ensures
        ts@.len() == 0 <==> r.is_none(),
        r matches Some(i) ==> is_nearest(ts@, p, i as int) && i == nearest(ts@, p),
{
    if ts.len() == 0 {
        return None;
    }
    let mut best: usize = 0;
    let mut best_d = distance_squared(ts[0].body.position, p);
    let mut i: usize = 1;
    while i < ts.len()
        invariant
            1 <= i <= ts@.len(),
            best < i,
            in_world(p),
            forall|j: int| 0 <= j < ts@.len() ==> (#[trigger] ts@[j]).wf(),
            best_d == dist2(ts@[best as int].body.position, p),
            forall|j: int| 0 <= j < i ==> dist2(ts@[best as int].body.position, p) <= dist2(#[trigger] ts@[j].body.position, p),
            forall|j: int| 0 <= j < best ==> dist2(ts@[best as int].body.position, p) < dist2(#[trigger] ts@[j].body.position, p),
        decreases ts@.len() - i,
    {
        let d = distance_squared(ts[i].body.position, p);
        if d < best_d {
            best = i;
            best_d = d;
        }
        i = i + 1;
    }
    proof {
        assert(is_nearest(ts@, p, best as int));
        lemma_nearest_unique(ts@, p, best as int, nearest(ts@, p));
    }
    Some(best)
}

/// The integer square root of `n`.
pub open spec fn root(n: int) -> int {
    choose|r: int| is_isqrt(n, r)
}

proof fn lemma_isqrt_unique(n: int, a: int, b: int)
    requires
        is_isqrt(n, a),
        is_isqrt(n, b),
    ensures
        a == b,
{
    if a < b {
        assert((a + 1) * (a + 1) <= b * b) by (nonlinear_arith)
            requires
                0 <= a < b,
        ;
    } else if b < a {
        assert((b + 1) * (b + 1) <= a * a) by (nonlinear_arith)
            requires
                0 <= b < a,
        ;
    }
}

/// `d * BULLET_SPEED / len`, rounded toward zero.
pub open spec fn scaled(d: int, len: int) -> int {
    if d < 0 {
        -((-d) * BULLET_SPEED / len)
    } else {
        d * BULLET_SPEED / len
    }
}

pub open spec fn origin() -> Vec3i {
    Vec3i { x: 0, y: 0, z: 0 }
}

/// Velocity of a bullet fired along `d`: `d` scaled to length `BULLET_SPEED`, each
/// component rounded toward zero, with the length taken as the integer square root. A
/// zero `d` fires along -z.
pub open spec fn aim_velocity(d: Vec3i) -> Vec3i {
    let n = dist2(d, origin());
    if n == 0 {
        Vec3i { x: 0, y: 0, z: (-BULLET_SPEED) as i64 }
    } else {
        Vec3i {
            x: scaled(d.x as int, root(n)) as i64,
            y: scaled(d.y as int, root(n)) as i64,
            z: scaled(d.z as int, root(n)) as i64,
        }
    }
}

pub open spec fn offset_between(from: Vec3i, to: Vec3i) -> Vec3i {
    Vec3i { x: (to.x - from.x) as i64, y: (to.y - from.y) as i64, z: (to.z - from.z) as i64 }
}

/// The bullet that a muzzle at `m` fires at a target standing at `p`.
pub open spec fn bullet_toward(id: u64, m: Vec3i, p: Vec3i) -> Bullet {
    let d = offset_between(m, p);
    Bullet {
        id,
        direction: d,
        speed: BULLET_SPEED,
        lifetime: BULLET_LIFETIME,
        body: Body {
            position: m,
            half_extents: Vec3i {
                x: BULLET_HALF_EXTENT,
                y: BULLET_HALF_EXTENT,
                z: BULLET_HALF_EXTENT,
            },
            velocity: aim_velocity(d),
            moving: true,
        },
    }
}

proof fn lemma_component_le_root(c: int, n: int, len: int)
    requires
        0 <= c * c <= n,
        is_isqrt(n, len),
    ensures
        abs_le(c, len),
{
    if c > len {
        assert((len + 1) * (len + 1) <= c * c) by (nonlinear_arith)
            requires
                0 <= len < c,
        ;
    } else if -c > len {
        assert((len + 1) * (len + 1) <= c * c) by (nonlinear_arith)
            requires
                0 <= len < -c,
        ;
    }
}

pub open spec fn abs_le(c: int, len: int) -> bool {
    -len <= c <= len
}

fn scale_component(c: i64, len: u128) -> (r: i64)
    requires
        abs_le(c as int, len as int),
        0 < len,
    ensures
        r == scaled(c as int, len as int),
        -BULLET_SPEED <= r <= BULLET_SPEED,
{
    let m: u128 = if c < 0 { (-(c as i128)) as u128 } else { c as u128 };
    assert(m * 2500 <= len * 2500) by (nonlinear_arith)
        requires
            m <= len,
    ;
    let q = m * 2500 / len;
    proof {
        vstd::arithmetic::div_mod::lemma_div_is_ordered(m as int * 2500, len as int * 2500, len as int);
        vstd::arithmetic::div_mod::lemma_div_multiples_vanish(2500, len as int);
        assert(len as int * 2500 == 2500 * len as int) by (nonlinear_arith);
    }
    if c < 0 {
        -(q as i64)
    } else {
        q as i64
    }
}

fn length_squared(d: Vec3i) -> (r: i128)
    requires
        -2 * WORLD_EDGE <= d.x <= 2 * WORLD_EDGE,
        -2 * WORLD_EDGE <= d.y <= 2 * WORLD_EDGE,
        -2 * WORLD_EDGE <= d.z <= 2 * WORLD_EDGE,
    ensures
        r == dist2(d, origin()),
        0 <= r < 0x40_0000_0000_0000_0000_0000,
{
    let x = d.x as i128;
    let y = d.y as i128;
    let z = d.z as i128;
    assert(0 <= x * x <= 4_000_000_000_000_000_000_000_000) by (nonlinear_arith)
        requires
            -2_000_000_000_000 <= x <= 2_000_000_000_000,
    ;
    assert(0 <= y * y <= 4_000_000_000_000_000_000_000_000) by (nonlinear_arith)
        requires
            -2_000_000_000_000 <= y <= 2_000_000_000_000,
    ;
    assert(0 <= z * z <= 4_000_000_000_000_000_000_000_000) by (nonlinear_arith)
        requires
            -2_000_000_000_000 <= z <= 2_000_000_000_000,
    ;
    x * x + y * y + z * z
}

/// The bullet fired from the muzzle `m` at a target standing at `p`.
pub fn make_bullet(id: u64, m: Vec3i, p: Vec3i) -> (b: Bullet)
    requires
        in_world(m),
        in_world(p),
    ensures
        b == bullet_toward(id, m, p),
        b.wf(),
{
    let d = Vec3i { x: p.x - m.x, y: p.y - m.y, z: p.z - m.z };
    let n = length_squared(d);
    let velocity = if n == 0 {
        Vec3i { x: 0, y: 0, z: -BULLET_SPEED }
    } else {
        let len = isqrt(n as u128);
        proof {
            lemma_isqrt_unique(n as int, len as int, root(n as int));
            let (x, y, z) = (d.x as int, d.y as int, d.z as int);
            assert(0 <= x * x && 0 <= y * y && 0 <= z * z) by (nonlinear_arith);
            lemma_component_le_root(x, n as int, len as int);
            lemma_component_le_root(y, n as int, len as int);
            lemma_component_le_root(z, n as int, len as int);
        }
        Vec3i {
            x: scale_component(d.x, len),
            y: scale_component(d.y, len),
            z: scale_component(d.z, len),
        }
    };
    Bullet {
        id,
        direction: d,
        speed: BULLET_SPEED,
        lifetime: BULLET_LIFETIME,
        body: Body {
            position: m,
            half_extents: Vec3i {
                x: BULLET_HALF_EXTENT,
                y: BULLET_HALF_EXTENT,
                z: BULLET_HALF_EXTENT,
            },
            velocity,
            moving: true,
        },
    }
}

} // verus!
