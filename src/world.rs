use vstd::prelude::*;
use crate::body::{Body, Bullet, PhysicsBundle, Target};
use crate::geometry::{Vec3i, in_world, in_world_exec, WORLD_EDGE};
use crate::ids::{
    lemma_age_ids, lemma_fire_ids, lemma_fired_ids, lemma_keep_bullet_ids, lemma_keep_target_ids,
    lemma_living_ids, lemma_push_target_ids, lemma_push_tower_ids, lemma_resolve_ids,
    lemma_same_bullet_ids, lemma_same_target_ids, lemma_without_bullet_ids,
    lemma_without_target_ids,
};
use crate::proofs::lemma_resolve_health_non_increasing;
use crate::tower::{Tower, muzzle_of, nearest, nearest_target, bullet_toward, make_bullet};

verus! {

/// Why an entity could not be created.
#[derive(Clone, Copy, Debug, PartialEq, Eq, Structural)]
pub enum SpawnError {
    /// A range, speed, size, health or period is out of bounds, or a position lies
    /// outside the world.
    InvalidConfiguration,
    /// Every identifier has been handed out.
    IdsExhausted,
}

/// The whole simulation: towers, targets and bullets, each with its own body.
pub struct World {
    towers: Vec<Tower>,
    targets: Vec<Target>,
    bullets: Vec<Bullet>,
    next_id: u64,
}

/// The mathematical value of a `World`.
pub struct WorldState {
    pub towers: Seq<Tower>,
    pub targets: Seq<Target>,
    pub bullets: Seq<Bullet>,
    pub next_id: u64,
}

impl View for World {
    type V = WorldState;

    closed spec fn view(&self) -> WorldState {
        WorldState {
            towers: self.towers@,
            targets: self.targets@,
            bullets: self.bullets@,
            next_id: self.next_id,
        }
    }
}

pub open spec fn towers_wf(s: Seq<Tower>) -> bool {
    forall|i: int| 0 <= i < s.len() ==> (#[trigger] s[i]).wf()
}

pub open spec fn targets_wf(s: Seq<Target>) -> bool {
    forall|i: int| 0 <= i < s.len() ==> (#[trigger] s[i]).wf()
}

pub open spec fn bullets_wf(s: Seq<Bullet>) -> bool {
    forall|i: int| 0 <= i < s.len() ==> (#[trigger] s[i]).wf()
}

pub open spec fn towers_sorted(s: Seq<Tower>) -> bool {
    forall|i: int, j: int| 0 <= i < j < s.len() ==> s[i].id < s[j].id
}

pub open spec fn targets_sorted(s: Seq<Target>) -> bool {
    forall|i: int, j: int| 0 <= i < j < s.len() ==> s[i].id < s[j].id
}

pub open spec fn bullets_sorted(s: Seq<Bullet>) -> bool {
    forall|i: int, j: int| 0 <= i < j < s.len() ==> s[i].id < s[j].id
}

pub open spec fn has_target_id(s: Seq<Target>, id: u64) -> bool {
    exists|i: int| 0 <= i < s.len() && #[trigger] s[i].id == id
}

pub open spec fn has_bullet_id(s: Seq<Bullet>, id: u64) -> bool {
    exists|i: int| 0 <= i < s.len() && #[trigger] s[i].id == id
}

/// Every identifier of `new` is one of `old`.
pub open spec fn target_ids_within(new: Seq<Target>, old: Seq<Target>) -> bool {
    forall|k: int| 0 <= k < new.len() ==> has_target_id(old, #[trigger] new[k].id)
}

/// Every identifier of `new` is one of `old`.
pub open spec fn bullet_ids_within(new: Seq<Bullet>, old: Seq<Bullet>) -> bool {
    forall|k: int| 0 <= k < new.len() ==> has_bullet_id(old, #[trigger] new[k].id)
}

impl WorldState {
    /// Identifiers are unique over all entities, increase in the order of each registry,
    /// and lie below the next one to be handed out.
    pub open spec fn ids_ok(self) -> bool {
        &&& towers_sorted(self.towers)
        &&& targets_sorted(self.targets)
        &&& bullets_sorted(self.bullets)
        &&& forall|i: int| 0 <= i < self.towers.len() ==> self.towers[i].id < self.next_id
        &&& forall|i: int| 0 <= i < self.targets.len() ==> self.targets[i].id < self.next_id
        &&& forall|i: int| 0 <= i < self.bullets.len() ==> self.bullets[i].id < self.next_id
        &&& forall|i: int, j: int|
            0 <= i < self.towers.len() && 0 <= j < self.targets.len() ==> self.towers[i].id
                != self.targets[j].id
        &&& forall|i: int, j: int|
            0 <= i < self.towers.len() && 0 <= j < self.bullets.len() ==> self.towers[i].id
                != self.bullets[j].id
        &&& forall|i: int, j: int|
            0 <= i < self.targets.len() && 0 <= j < self.bullets.len() ==> self.targets[i].id
                != self.bullets[j].id
    }

    pub open spec fn wf(self) -> bool {
        &&& towers_wf(self.towers)
        &&& targets_wf(self.targets)
        &&& bullets_wf(self.bullets)
        &&& self.ids_ok()
    }
}

pub open spec fn advance_targets(ts: Seq<Target>, dt: u64) -> Seq<Target> {
    ts.map_values(|t: Target| t.advanced(dt))
}

pub open spec fn advance_bullets(bs: Seq<Bullet>, dt: u64) -> Seq<Bullet> {
    bs.map_values(|b: Bullet| b.advanced(dt))
}

/// The bullets of `bs` that miss `t`, in order.
pub open spec fn misses(bs: Seq<Bullet>, t: Target) -> Seq<Bullet>
    decreases bs.len(),
{
    if bs.len() == 0 {
        seq![]
    } else {
        let r = misses(bs.drop_last(), t);
        if bs.last().hits(t) {
            r
        } else {
            r.push(bs.last())
        }
    }
}

/// Collision resolution: targets in order, each taking one point of damage from every
/// bullet still in flight that overlaps it; those bullets are consumed.
pub open spec fn resolve(ts: Seq<Target>, bs: Seq<Bullet>) -> (Seq<Target>, Seq<Bullet>)
    decreases ts.len(),
{
    if ts.len() == 0 {
        (seq![], bs)
    } else {
        let prev = resolve(ts.drop_last(), bs);
        let t = ts.last();
        let kept = misses(prev.1, t);
        (prev.0.push(t.damaged(prev.1.len() - kept.len())), kept)
    }
}

/// Towers in order advance their timers; one whose period just finished fires at the
/// nearest target, if there is one and an identifier is left.
pub open spec fn fire(tws: Seq<Tower>, ts: Seq<Target>, dt: u64, next: u64) -> (
    Seq<Tower>,
    Seq<Bullet>,
    u64,
)
    decreases tws.len(),
{
    if tws.len() == 0 {
        (seq![], seq![], next)
    } else {
        let prev = fire(tws.drop_last(), ts, dt, next);
        let tw = tws.last();
        if tw.fires(dt) && ts.len() > 0 && prev.2 < u64::MAX {
            let m = tw.muzzle();
            (
                prev.0.push(tw.ticked(dt)),
                prev.1.push(bullet_toward(prev.2, m, ts[nearest(ts, m)].body.position)),
                (prev.2 + 1) as u64,
            )
        } else {
            (prev.0.push(tw.ticked(dt)), prev.1, prev.2)
        }
    }
}

/// Bullets after `dt` milliseconds of aging: a lifetime that runs out removes the bullet.
pub open spec fn age(bs: Seq<Bullet>, dt: u64) -> Seq<Bullet>
    decreases bs.len(),
{
    if bs.len() == 0 {
        seq![]
    } else {
        let r = age(bs.drop_last(), dt);
        let b = bs.last();
        if b.lifetime > dt {
            r.push(b.aged(dt))
        } else {
            r
        }
    }
}

/// One tick: bodies advance, collisions resolve, towers fire, bullets age.
pub open spec fn step(w: WorldState, dt: u64) -> WorldState {
    let res = resolve(advance_targets(w.targets, dt), advance_bullets(w.bullets, dt));
    let f = fire(w.towers, res.0, dt, w.next_id);
    WorldState { towers: f.0, targets: res.0, bullets: age(res.1 + f.1, dt), next_id: f.2 }
}

/// `bs` without the bullets whose identifier is `id`.
pub open spec fn without_bullet(bs: Seq<Bullet>, id: u64) -> Seq<Bullet>
    decreases bs.len(),
{
    if bs.len() == 0 {
        seq![]
    } else {
        let r = without_bullet(bs.drop_last(), id);
        if bs.last().id == id {
            r
        } else {
            r.push(bs.last())
        }
    }
}

/// `ts` without the targets whose identifier is `id`.
pub open spec fn without_target(ts: Seq<Target>, id: u64) -> Seq<Target>
    decreases ts.len(),
{
    if ts.len() == 0 {
        seq![]
    } else {
        let r = without_target(ts.drop_last(), id);
        if ts.last().id == id {
            r
        } else {
            r.push(ts.last())
        }
    }
}

/// The targets whose health is still above zero, in order.
pub open spec fn living(ts: Seq<Target>) -> Seq<Target>
    decreases ts.len(),
{
    if ts.len() == 0 {
        seq![]
    } else {
        let r = living(ts.drop_last());
        if ts.last().health > 0 {
            r.push(ts.last())
        } else {
            r
        }
    }
}

pub open spec fn tower_config_ok(
    position: Vec3i,
    detection_range: i64,
    fire_period: u64,
    muzzle_offset: Vec3i,
) -> bool {
    &&& detection_range > 0
    &&& fire_period > 0
    &&& in_world(position)
    &&& in_world(muzzle_offset)
    &&& in_world(muzzle_of(position, muzzle_offset))
}

pub open spec fn new_tower(
    id: u64,
    position: Vec3i,
    detection_range: i64,
    fire_period: u64,
    muzzle_offset: Vec3i,
) -> Tower {
    Tower { id, position, detection_range, fire_period, elapsed: 0, muzzle_offset }
}

pub open spec fn target_config_ok(
    position: Vec3i,
    speed: i64,
    initial_health: i64,
    box_size: Vec3i,
) -> bool {
    &&& 0 < speed <= WORLD_EDGE
    &&& initial_health > 0
    &&& in_world(position)
    &&& 0 < box_size.x <= WORLD_EDGE
    &&& 0 < box_size.y <= WORLD_EDGE
    &&& 0 < box_size.z <= WORLD_EDGE
}

/// A target moves along +x at its speed; its box has half the given size.
pub open spec fn new_target(
    id: u64,
    position: Vec3i,
    speed: i64,
    initial_health: i64,
    box_size: Vec3i,
) -> Target {
    Target {
        id,
        speed,
        health: initial_health,
        body: Body {
            position,
            half_extents: Vec3i {
                x: (box_size.x / 2) as i64,
                y: (box_size.y / 2) as i64,
                z: (box_size.z / 2) as i64,
            },
            velocity: Vec3i { x: speed, y: 0, z: 0 },
            moving: true,
        },
    }
}

impl World {
    /// An empty world.
    pub fn new() -> (w: World)
        ensures
            w@.towers.len() == 0,
            w@.targets.len() == 0,
            w@.bullets.len() == 0,
            w@.next_id == 0,
            w@.wf(),
    {
        World { towers: Vec::new(), targets: Vec::new(), bullets: Vec::new(), next_id: 0 }
    }

    /// Moves every body by its velocity over `dt` milliseconds.
    pub fn advance_bodies(&mut self, dt: u64)
        requires
            old(self)@.wf(),
        ensures
            final(self)@.targets == advance_targets(old(self)@.targets, dt),
            final(self)@.bullets == advance_bullets(old(self)@.bullets, dt),
            final(self)@.towers == old(self)@.towers,
            final(self)@.next_id == old(self)@.next_id,
            final(self)@.wf(),
    {
        let ghost ts0 = self.targets@;
        let ghost bs0 = self.bullets@;
        let mut i: usize = 0;
        while i < self.targets.len()
            invariant
                i <= self.targets@.len() == ts0.len(),
                targets_wf(ts0),
                forall|j: int| i <= j < ts0.len() ==> self.targets@[j] == ts0[j],
                forall|j: int| 0 <= j < i ==> self.targets@[j] == ts0[j].advanced(dt),
                forall|j: int| 0 <= j < i ==> (#[trigger] self.targets@[j]).wf(),
                self.bullets@ == bs0,
                self.towers@ == old(self).towers@,
                self.next_id == old(self).next_id,
            decreases ts0.len() - i,
        {
            let mut t = self.targets[i];
            assert(ts0[i as int].wf());
            t.body.advance(dt);
            self.targets.set(i, t);
            i = i + 1;
        }
        assert(self.targets@ =~= advance_targets(ts0, dt));
        let mut k: usize = 0;
        while k < self.bullets.len()
            invariant
                k <= self.bullets@.len() == bs0.len(),
                bullets_wf(bs0),
                forall|j: int| k <= j < bs0.len() ==> self.bullets@[j] == bs0[j],
                forall|j: int| 0 <= j < k ==> self.bullets@[j] == bs0[j].advanced(dt),
                forall|j: int| 0 <= j < k ==> (#[trigger] self.bullets@[j]).wf(),
                self.targets@ == advance_targets(ts0, dt),
                targets_wf(self.targets@),
                self.towers@ == old(self).towers@,
                self.next_id == old(self).next_id,
            decreases bs0.len() - k,
        {
            let mut b = self.bullets[k];
            assert(bs0[k as int].wf());
            b.body.advance(dt);
            self.bullets.set(k, b);
            k = k + 1;
        }
        assert(self.bullets@ =~= advance_bullets(bs0, dt));
        proof {
            assert forall|i: int| 0 <= i < ts0.len() implies #[trigger] self.targets@[i].id
                == ts0[i].id by {
                assert(self.targets@[i] == ts0[i].advanced(dt));
            }
            assert forall|i: int| 0 <= i < bs0.len() implies #[trigger] self.bullets@[i].id
                == bs0[i].id by {
                assert(self.bullets@[i] == bs0[i].advanced(dt));
            }
            lemma_same_target_ids(self.targets@, ts0);
            lemma_keep_target_ids(old(self)@, self.targets@);
            lemma_same_bullet_ids(self.bullets@, bs0);
            lemma_keep_bullet_ids(WorldState { targets: self.targets@, ..old(self)@ }, self.bullets@);
        }
    }

    /// Damages every target by the bullets that overlap it, and removes those bullets.
    pub fn resolve_collisions(&mut self)
        requires
            old(self)@.wf(),
        ensures
            final(self)@.targets == resolve(old(self)@.targets, old(self)@.bullets).0,
            final(self)@.bullets == resolve(old(self)@.targets, old(self)@.bullets).1,
            final(self)@.towers == old(self)@.towers,
            final(self)@.next_id == old(self)@.next_id,
            final(self)@.wf(),
    {
        let ghost ts0 = self.targets@;
        let ghost bs0 = self.bullets@;
        let mut i: usize = 0;
        while i < self.targets.len()
            invariant
                i <= self.targets@.len() == ts0.len(),
                targets_wf(ts0),
                targets_wf(self.targets@),
                bullets_wf(self.bullets@),
                forall|j: int| i <= j < ts0.len() ==> self.targets@[j] == ts0[j],
                self.targets@.subrange(0, i as int) == resolve(ts0.subrange(0, i as int), bs0).0,
                self.bullets@ == resolve(ts0.subrange(0, i as int), bs0).1,
                self.towers@ == old(self).towers@,
                self.next_id == old(self).next_id,
            decreases ts0.len() - i,
        {
            let t = self.targets[i];
            let mut kept: Vec<Bullet> = Vec::new();
            let mut hits: usize = 0;
            let mut k: usize = 0;
            while k < self.bullets.len()
                invariant
                    k <= self.bullets@.len(),
                    t.wf(),
                    bullets_wf(self.bullets@),
                    bullets_wf(kept@),
                    kept@ == misses(self.bullets@.subrange(0, k as int), t),
                    hits == k - kept@.len(),
                decreases self.bullets@.len() - k,
            {
                let b = self.bullets[k];
                assert(self.bullets@.subrange(0, k + 1).drop_last() =~= self.bullets@.subrange(
                    0,
                    k as int,
                ));
                if b.hits_target(&t) {
                    hits = hits + 1;
                } else {
                    kept.push(b);
                }
                k = k + 1;
            }
            assert(self.bullets@.subrange(0, self.bullets@.len() as int) =~= self.bullets@);
            let lowered: i128 = t.health as i128 - hits as i128;
            let health: i64 = if lowered < i64::MIN as i128 {
                i64::MIN
            } else {
                lowered as i64
            };
            let ghost before = self.targets@;
            self.targets.set(i, Target { health, ..t });
            self.bullets = kept;
            assert(ts0.subrange(0, i + 1).drop_last() =~= ts0.subrange(0, i as int));
            assert(self.targets@.subrange(0, i + 1) =~= before.subrange(0, i as int).push(
                t.damaged(hits as int),
            ));
            i = i + 1;
        }
        assert(ts0.subrange(0, ts0.len() as int) =~= ts0);
        assert(self.targets@.subrange(0, ts0.len() as int) =~= self.targets@);
        proof {
            lemma_resolve_health_non_increasing(ts0, bs0);
            lemma_same_target_ids(self.targets@, ts0);
            lemma_keep_target_ids(old(self)@, self.targets@);
            lemma_resolve_ids(ts0, bs0);
            lemma_keep_bullet_ids(WorldState { targets: self.targets@, ..old(self)@ }, self.bullets@);
        }
    }

    /// Advances every tower's timer; each that completes a period fires one bullet at the
    /// nearest target.
    pub fn fire_towers(&mut self, dt: u64)
        requires
            old(self)@.wf(),
        ensures
            final(self)@.towers == fire(old(self)@.towers, old(self)@.targets, dt, old(self)@.next_id).0,
            final(self)@.bullets == old(self)@.bullets + fire(
                old(self)@.towers,
                old(self)@.targets,
                dt,
                old(self)@.next_id,
            ).1,
            final(self)@.next_id == fire(old(self)@.towers, old(self)@.targets, dt, old(self)@.next_id).2,
            final(self)@.targets == old(self)@.targets,
            final(self)@.wf(),
    {
        let ghost tw0 = self.towers@;
        let ghost bs0 = self.bullets@;
        let ghost ts = self.targets@;
        let ghost n0 = self.next_id;
        let mut i: usize = 0;
        while i < self.towers.len()
            invariant
                i <= self.towers@.len() == tw0.len(),
                towers_wf(tw0),
                towers_wf(self.towers@),
                targets_wf(ts),
                bullets_wf(self.bullets@),
                self.targets@ == ts,
                forall|j: int| i <= j < tw0.len() ==> self.towers@[j] == tw0[j],
                self.towers@.subrange(0, i as int) == fire(tw0.subrange(0, i as int), ts, dt, n0).0,
                self.bullets@ == bs0 + fire(tw0.subrange(0, i as int), ts, dt, n0).1,
                self.next_id == fire(tw0.subrange(0, i as int), ts, dt, n0).2,
            decreases tw0.len() - i,
        {
            let mut tw = self.towers[i];
            assert(tw0[i as int].wf());
            let fired = tw.tick_timer(dt);
            let ghost before = self.bullets@;
            if fired && self.targets.len() > 0 && self.next_id < u64::MAX {
                let m = tw.muzzle_position();
                let k = nearest_target(&self.targets, m);
                if let Some(k) = k {
                    assert(ts[k as int].wf());
                    let b = make_bullet(self.next_id, m, self.targets[k].body.position);
                    self.bullets.push(b);
                    self.next_id = self.next_id + 1;
                    assert(self.bullets@ =~= before.push(b));
                }
            }
            let ghost tows = self.towers@;
            self.towers.set(i, tw);
            assert(tw0.subrange(0, i + 1).drop_last() =~= tw0.subrange(0, i as int));
            assert(self.towers@.subrange(0, i + 1) =~= tows.subrange(0, i as int).push(tw));
            i = i + 1;
        }
        assert(tw0.subrange(0, tw0.len() as int) =~= tw0);
        assert(self.towers@.subrange(0, tw0.len() as int) =~= self.towers@);
        proof {
            lemma_fire_ids(tw0, ts, dt, n0);
            lemma_fired_ids(old(self)@, self.towers@, fire(tw0, ts, dt, n0).1, self.next_id);
        }
    }

    /// Takes `dt` milliseconds off every bullet's lifetime and removes the bullets whose
    /// lifetime runs out.
    pub fn age_bullets(&mut self, dt: u64)
        requires
            old(self)@.wf(),
        ensures
            final(self)@.bullets == age(old(self)@.bullets, dt),
            final(self)@.towers == old(self)@.towers,
            final(self)@.targets == old(self)@.targets,
            final(self)@.next_id == old(self)@.next_id,
            final(self)@.wf(),
    {
        let mut kept: Vec<Bullet> = Vec::new();
        let mut k: usize = 0;
        while k < self.bullets.len()
            invariant
                k <= self.bullets@.len(),
                bullets_wf(self.bullets@),
                bullets_wf(kept@),
                kept@ == age(self.bullets@.subrange(0, k as int), dt),
                self.bullets@ == old(self).bullets@,
                self.towers@ == old(self).towers@,
                self.targets@ == old(self).targets@,
                self.next_id == old(self).next_id,
            decreases self.bullets@.len() - k,
        {
            let b = self.bullets[k];
            assert(self.bullets@.subrange(0, k + 1).drop_last() =~= self.bullets@.subrange(
                0,
                k as int,
            ));
            if b.lifetime > dt {
                kept.push(Bullet { lifetime: b.lifetime - dt, ..b });
            }
            k = k + 1;
        }
        assert(self.bullets@.subrange(0, self.bullets@.len() as int) =~= self.bullets@);
        self.bullets = kept;
        proof {
            lemma_age_ids(old(self)@.bullets, dt);
            lemma_keep_bullet_ids(old(self)@, self.bullets@);
        }
    }

    /// One simulation tick of `dt` milliseconds: bodies advance, overlapping bullets damage
    /// targets, towers fire, bullets age.
    pub fn tick(&mut self, dt: u64)
        requires
            old(self)@.wf(),
        ensures
            final(self)@ == step(old(self)@, dt),
            final(self)@.wf(),
    {
        self.advance_bodies(dt);
        self.resolve_collisions();
        self.fire_towers(dt);
        self.age_bullets(dt);
    }
    /// Adds a tower; its timer starts at zero.
    pub fn spawn_tower(
        &mut self,
        position: Vec3i,
        detection_range: i64,
        fire_period: u64,
        muzzle_offset: Vec3i,
    ) -> (r: Result<u64, SpawnError>)
        requires
            old(self)@.wf(),
        ensures
            final(self)@.wf(),
            !tower_config_ok(position, detection_range, fire_period, muzzle_offset) <==> r
                == Err::<u64, SpawnError>(SpawnError::InvalidConfiguration),
            tower_config_ok(position, detection_range, fire_period, muzzle_offset)
                && old(self)@.next_id == u64::MAX <==> r == Err::<u64, SpawnError>(
                SpawnError::IdsExhausted,
            ),
            r is Ok <==> tower_config_ok(position, detection_range, fire_period, muzzle_offset)
                && old(self)@.next_id < u64::MAX,
            r is Err ==> final(self)@ == old(self)@,
            r matches Ok(id) ==> {
                &&& id == old(self)@.next_id
                &&& final(self)@.next_id == id + 1
                &&& final(self)@.towers == old(self)@.towers.push(
                    new_tower(id, position, detection_range, fire_period, muzzle_offset),
                )
                &&& final(self)@.targets == old(self)@.targets
                &&& final(self)@.bullets == old(self)@.bullets
            },
    {
        if detection_range <= 0 || fire_period == 0 || !in_world_exec(position) || !in_world_exec(
            muzzle_offset,
        ) {
            return Err(SpawnError::InvalidConfiguration);
        }
        let m = Vec3i {
            x: position.x + muzzle_offset.x,
            y: position.y + muzzle_offset.y,
            z: position.z + muzzle_offset.z,
        };
        if !in_world_exec(m) {
            return Err(SpawnError::InvalidConfiguration);
        }
        if self.next_id == u64::MAX {
            return Err(SpawnError::IdsExhausted);
        }
        let id = self.next_id;
        proof {
            lemma_push_tower_ids(
                old(self)@,
                new_tower(id, position, detection_range, fire_period, muzzle_offset),
            );
        }
        self.towers.push(
            Tower { id, position, detection_range, fire_period, elapsed: 0, muzzle_offset },
        );
        self.next_id = id + 1;
        Ok(id)
    }

    /// Adds a target that moves along +x at `speed`, in a box of size `box_size`.
    pub fn spawn_target(
        &mut self,
        position: Vec3i,
        speed: i64,
        initial_health: i64,
        box_size: Vec3i,
    ) -> (r: Result<u64, SpawnError>)
        requires
            old(self)@.wf(),
        ensures
            final(self)@.wf(),
            !target_config_ok(position, speed, initial_health, box_size) <==> r == Err::<
                u64,
                SpawnError,
            >(SpawnError::InvalidConfiguration),
            target_config_ok(position, speed, initial_health, box_size) && old(self)@.next_id
                == u64::MAX <==> r == Err::<u64, SpawnError>(SpawnError::IdsExhausted),
            r is Ok <==> target_config_ok(position, speed, initial_health, box_size) && old(
                self,
            )@.next_id < u64::MAX,
            r is Err ==> final(self)@ == old(self)@,
            r matches Ok(id) ==> {
                &&& id == old(self)@.next_id
                &&& final(self)@.next_id == id + 1
                &&& final(self)@.targets == old(self)@.targets.push(
                    new_target(id, position, speed, initial_health, box_size),
                )
                &&& final(self)@.towers == old(self)@.towers
                &&& final(self)@.bullets == old(self)@.bullets
            },
    {
        if speed <= 0 || speed > WORLD_EDGE || initial_health <= 0 || !in_world_exec(position)
            || box_size.x <= 0 || box_size.x > WORLD_EDGE || box_size.y <= 0 || box_size.y
            > WORLD_EDGE || box_size.z <= 0 || box_size.z > WORLD_EDGE {
            return Err(SpawnError::InvalidConfiguration);
        }
        if self.next_id == u64::MAX {
            return Err(SpawnError::IdsExhausted);
        }
        let id = self.next_id;
        let bundle = PhysicsBundle::moving_entity(box_size);
        let t = Target {
            id,
            speed,
            health: initial_health,
            body: Body {
                position,
                half_extents: bundle.half_extents,
                velocity: Vec3i { x: speed, y: bundle.velocity.y, z: bundle.velocity.z },
                moving: bundle.moving,
            },
        };
        proof {
            lemma_push_target_ids(old(self)@, t);
        }
        self.targets.push(t);
        self.next_id = id + 1;
        assert(self.targets@.last() == t);
        Ok(id)
    }

    /// Removes the bullet `id`, with its body; an identifier that no bullet has leaves
    /// the world unchanged.
    pub fn remove_bullet(&mut self, id: u64)
        requires
            old(self)@.wf(),
        ensures
            final(self)@.bullets == without_bullet(old(self)@.bullets, id),
            final(self)@.towers == old(self)@.towers,
            final(self)@.targets == old(self)@.targets,
            final(self)@.next_id == old(self)@.next_id,
            final(self)@.wf(),
    {
        let mut kept: Vec<Bullet> = Vec::new();
        let mut k: usize = 0;
        while k < self.bullets.len()
            invariant
                k <= self.bullets@.len(),
                bullets_wf(self.bullets@),
                bullets_wf(kept@),
                kept@ == without_bullet(self.bullets@.subrange(0, k as int), id),
                self.bullets@ == old(self).bullets@,
                self.towers@ == old(self).towers@,
                self.targets@ == old(self).targets@,
                self.next_id == old(self).next_id,
            decreases self.bullets@.len() - k,
        {
            let b = self.bullets[k];
            assert(self.bullets@.subrange(0, k + 1).drop_last() =~= self.bullets@.subrange(
                0,
                k as int,
            ));
            if b.id != id {
                kept.push(b);
            }
            k = k + 1;
        }
        assert(self.bullets@.subrange(0, self.bullets@.len() as int) =~= self.bullets@);
        self.bullets = kept;
        proof {
            lemma_without_bullet_ids(old(self)@.bullets, id);
            lemma_keep_bullet_ids(old(self)@, self.bullets@);
        }
    }

    /// Removes the target `id`, with its body; an identifier that no target has leaves
    /// the world unchanged.
    pub fn remove_target(&mut self, id: u64)
        requires
            old(self)@.wf(),
        ensures
            final(self)@.targets == without_target(old(self)@.targets, id),
            final(self)@.towers == old(self)@.towers,
            final(self)@.bullets == old(self)@.bullets,
            final(self)@.next_id == old(self)@.next_id,
            final(self)@.wf(),
    {
        let mut kept: Vec<Target> = Vec::new();
        let mut k: usize = 0;
        while k < self.targets.len()
            invariant
                k <= self.targets@.len(),
                targets_wf(self.targets@),
                targets_wf(kept@),
                kept@ == without_target(self.targets@.subrange(0, k as int), id),
                self.targets@ == old(self).targets@,
                self.towers@ == old(self).towers@,
                self.bullets@ == old(self).bullets@,
                self.next_id == old(self).next_id,
            decreases self.targets@.len() - k,
        {
            let t = self.targets[k];
            assert(self.targets@.subrange(0, k + 1).drop_last() =~= self.targets@.subrange(
                0,
                k as int,
            ));
            if t.id != id {
                kept.push(t);
            }
            k = k + 1;
        }
        assert(self.targets@.subrange(0, self.targets@.len() as int) =~= self.targets@);
        self.targets = kept;
        proof {
            lemma_without_target_ids(old(self)@.targets, id);
            lemma_keep_target_ids(old(self)@, self.targets@);
        }
    }

    /// Removes every target whose health is zero or below.
    pub fn remove_dead_targets(&mut self)
        requires
            old(self)@.wf(),
        ensures
            final(self)@.targets == living(old(self)@.targets),
            final(self)@.towers == old(self)@.towers,
            final(self)@.bullets == old(self)@.bullets,
            final(self)@.next_id == old(self)@.next_id,
            final(self)@.wf(),
    {
        let mut kept: Vec<Target> = Vec::new();
        let mut k: usize = 0;
        while k < self.targets.len()
            invariant
                k <= self.targets@.len(),
                targets_wf(self.targets@),
                targets_wf(kept@),
                kept@ == living(self.targets@.subrange(0, k as int)),
                self.targets@ == old(self).targets@,
                self.towers@ == old(self).towers@,
                self.bullets@ == old(self).bullets@,
                self.next_id == old(self).next_id,
            decreases self.targets@.len() - k,
        {
            let t = self.targets[k];
            assert(self.targets@.subrange(0, k + 1).drop_last() =~= self.targets@.subrange(
                0,
                k as int,
            ));
            if t.health > 0 {
                kept.push(t);
            }
            k = k + 1;
        }
        assert(self.targets@.subrange(0, self.targets@.len() as int) =~= self.targets@);
        self.targets = kept;
        proof {
            lemma_living_ids(old(self)@.targets);
            lemma_keep_target_ids(old(self)@, self.targets@);
        }
    }

    pub fn towers(&self) -> (r: &Vec<Tower>)
        ensures
            r@ == self@.towers,
    {
        &self.towers
    }

    pub fn targets(&self) -> (r: &Vec<Target>)
        ensures
            r@ == self@.targets,
    {
        &self.targets
    }

    pub fn bullets(&self) -> (r: &Vec<Bullet>)
        ensures
            r@ == self@.bullets,
    {
        &self.bullets
    }
}

} // verus!
