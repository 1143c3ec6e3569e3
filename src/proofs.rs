use vstd::prelude::*;
use crate::body::{Bullet, Target};
use crate::tower::Tower;
use crate::ids::{lemma_age_ids, lemma_fire_ids};
use crate::world::{has_bullet_id, 
    WorldState, advance_targets, advance_bullets, misses, resolve, fire, age, step,
    without_bullet, without_target,
};

verus! {

proof fn lemma_misses_shrinks(bs: Seq<Bullet>, t: Target)
    ensures
        misses(bs, t).len() <= bs.len(),
        forall|x: Bullet| misses(bs, t).contains(x) ==> bs.contains(x) && !x.hits(t),
    decreases bs.len(),
{
    if bs.len() > 0 {
        lemma_misses_shrinks(bs.drop_last(), t);
        let r = misses(bs.drop_last(), t);
        assert forall|x: Bullet| misses(bs, t).contains(x) implies bs.contains(x) && !x.hits(
            t,
        ) by {
            if r.contains(x) {
                let k = choose|k: int| 0 <= k < r.len() && r[k] == x;
                assert(bs.drop_last().contains(x));
                let m = choose|m: int| 0 <= m < bs.drop_last().len() && bs.drop_last()[m] == x;
                assert(bs[m] == x);
            } else {
                assert(misses(bs, t)[misses(bs, t).len() - 1] == x || exists|k: int|
                    0 <= k < r.len() && r[k] == x);
                assert(bs[bs.len() - 1] == x);
            }
        }
    }
}

/// Collision resolution keeps every target, in order and with its identifier, and never
/// raises a target's health.
pub proof fn lemma_resolve_health_non_increasing(ts: Seq<Target>, bs: Seq<Bullet>)
    ensures
        resolve(ts, bs).0.len() == ts.len(),
        forall|i: int|
            0 <= i < ts.len() ==> (#[trigger] resolve(ts, bs).0[i]).health <= ts[i].health
                && resolve(ts, bs).0[i].id == ts[i].id,
    decreases ts.len(),
{
    if ts.len() > 0 {
        lemma_resolve_health_non_increasing(ts.drop_last(), bs);
        let prev = resolve(ts.drop_last(), bs);
        lemma_misses_shrinks(prev.1, ts.last());
        assert forall|i: int| 0 <= i < ts.len() implies (#[trigger] resolve(ts, bs).0[i]).health
            <= ts[i].health && resolve(ts, bs).0[i].id == ts[i].id by {
            if i < ts.len() - 1 {
                assert(resolve(ts, bs).0[i] == prev.0[i]);
                assert(ts.drop_last()[i] == ts[i]);
            }
        }
    }
}

/// Over one tick every target stays, in order and with its identifier, and its health
/// never rises: `health(t + 1) <= health(t)`.
pub proof fn lemma_tick_health_non_increasing(w: WorldState, dt: u64)
    ensures
        step(w, dt).targets.len() == w.targets.len(),
        forall|i: int|
            0 <= i < w.targets.len() ==> (#[trigger] step(w, dt).targets[i]).health
                <= w.targets[i].health && step(w, dt).targets[i].id == w.targets[i].id,
{
    let moved = advance_targets(w.targets, dt);
    lemma_resolve_health_non_increasing(moved, advance_bullets(w.bullets, dt));
    assert forall|i: int| 0 <= i < w.targets.len() implies (#[trigger] step(
        w,
        dt,
    ).targets[i]).health <= w.targets[i].health && step(w, dt).targets[i].id
        == w.targets[i].id by {
        assert(moved[i] == w.targets[i].advanced(dt));
    }
}

/// No bullet that survives collision resolution overlaps any target.
pub proof fn lemma_survivors_miss_all(ts: Seq<Target>, bs: Seq<Bullet>)
    ensures
        forall|x: Bullet|
            #[trigger] resolve(ts, bs).1.contains(x) ==> bs.contains(x) && forall|i: int|
                0 <= i < ts.len() ==> !x.hits(#[trigger] ts[i]),
    decreases ts.len(),
{
    if ts.len() > 0 {
        lemma_survivors_miss_all(ts.drop_last(), bs);
        let prev = resolve(ts.drop_last(), bs);
        lemma_misses_shrinks(prev.1, ts.last());
        assert forall|x: Bullet| resolve(ts, bs).1.contains(x) implies bs.contains(x) && forall|
            i: int,
        | 0 <= i < ts.len() ==> !x.hits(#[trigger] ts[i]) by {
            assert(resolve(ts, bs).1 == misses(prev.1, ts.last()));
            assert(prev.1.contains(x));
            assert(!x.hits(ts.last()));
            assert(forall|i: int| 0 <= i < ts.drop_last().len() ==> !x.hits(ts.drop_last()[i]));
            assert forall|i: int| 0 <= i < ts.len() implies !x.hits(#[trigger] ts[i]) by {
                if i < ts.len() - 1 {
                    assert(ts.drop_last()[i] == ts[i]);
                } else {
                    assert(ts.last() == ts[i]);
                }
            }
        }
    }
}

/// A bullet that overlaps a target is consumed by collision resolution.
pub proof fn lemma_hitting_bullet_consumed(ts: Seq<Target>, bs: Seq<Bullet>, i: int, j: int)
    requires
        0 <= i < ts.len(),
        0 <= j < bs.len(),
        bs[j].hits(ts[i]),
    ensures
        !resolve(ts, bs).1.contains(bs[j]),
{
    lemma_survivors_miss_all(ts, bs);
    if resolve(ts, bs).1.contains(bs[j]) {
        assert(!bs[j].hits(ts[i]));
    }
}

/// One bullet overlapping one target: the target loses exactly one point of health and
/// the bullet is gone.
pub proof fn lemma_single_hit(t: Target, b: Bullet)
    requires
        b.hits(t),
        t.health > i64::MIN,
    ensures
        resolve(seq![t], seq![b]).0 == seq![t.damaged(1)],
        t.damaged(1).health == t.health - 1,
        resolve(seq![t], seq![b]).1.len() == 0,
{
    let ts = seq![t];
    let bs = seq![b];
    assert(ts.drop_last() =~= Seq::<Target>::empty());
    assert(bs.drop_last() =~= Seq::<Bullet>::empty());
    assert(bs.last() == b);
    assert(ts.last() == t);
    assert(misses(Seq::<Bullet>::empty(), t) == Seq::<Bullet>::empty());
    assert(misses(bs, t) =~= Seq::<Bullet>::empty());
    assert(resolve(Seq::<Target>::empty(), bs) == (Seq::<Target>::empty(), bs));
    assert(resolve(ts, bs).0 =~= seq![t.damaged(1)]);
}

/// Aging by `dt`: every bullet left has a positive lifetime, each bullet whose lifetime
/// exceeds `dt` stays with `dt` less, and nothing else is left; so a lifetime that
/// reaches zero removes its bullet.
pub proof fn lemma_age_lifetimes(bs: Seq<Bullet>, dt: u64)
    ensures
        forall|j: int| 0 <= j < age(bs, dt).len() ==> (#[trigger] age(bs, dt)[j]).lifetime > 0,
        forall|i: int|
            0 <= i < bs.len() && (#[trigger] bs[i]).lifetime > dt ==> age(bs, dt).contains(
                bs[i].aged(dt),
            ),
        forall|j: int|
            0 <= j < age(bs, dt).len() ==> exists|i: int|
                0 <= i < bs.len() && bs[i].lifetime > dt && #[trigger] age(bs, dt)[j] == bs[i].aged(dt),
    decreases bs.len(),
{
    if bs.len() > 0 {
        let init = bs.drop_last();
        lemma_age_lifetimes(init, dt);
        let r = age(init, dt);
        let b = bs.last();
        let a = age(bs, dt);
        assert forall|i: int|
            0 <= i < bs.len() && (#[trigger] bs[i]).lifetime > dt implies a.contains(
            bs[i].aged(dt),
        ) by {
            if i < bs.len() - 1 {
                assert(init[i] == bs[i]);
                let x = bs[i].aged(dt);
                assert(r.contains(x));
                let k = choose|k: int| 0 <= k < r.len() && r[k] == x;
                assert(a[k] == x);
            } else {
                assert(a[a.len() - 1] == b.aged(dt));
            }
        }
        assert forall|j: int| 0 <= j < a.len() implies exists|i: int|
            0 <= i < bs.len() && bs[i].lifetime > dt && #[trigger] a[j] == bs[i].aged(dt) by {
            if j < r.len() {
                assert(a[j] == r[j]);
                let i = choose|i: int|
                    0 <= i < init.len() && init[i].lifetime > dt && r[j] == init[i].aged(dt);
                assert(bs[i] == init[i]);
            } else {
                assert(bs[bs.len() - 1] == b);
            }
        }
    }
}

/// Removing the bullet `id` a second time changes nothing.
pub proof fn lemma_remove_bullet_idempotent(bs: Seq<Bullet>, id: u64)
    ensures
        without_bullet(without_bullet(bs, id), id) == without_bullet(bs, id),
    decreases bs.len(),
{
    if bs.len() > 0 {
        lemma_remove_bullet_idempotent(bs.drop_last(), id);
        let r = without_bullet(bs.drop_last(), id);
        if bs.last().id != id {
            assert(r.push(bs.last()).drop_last() =~= r);
        }
    }
}

/// Removing the target `id` a second time changes nothing.
pub proof fn lemma_remove_target_idempotent(ts: Seq<Target>, id: u64)
    ensures
        without_target(without_target(ts, id), id) == without_target(ts, id),
    decreases ts.len(),
{
    if ts.len() > 0 {
        lemma_remove_target_idempotent(ts.drop_last(), id);
        let r = without_target(ts.drop_last(), id);
        if ts.last().id != id {
            assert(r.push(ts.last()).drop_last() =~= r);
        }
    }
}

/// Removing an identifier that no bullet has leaves the bullets as they are.
pub proof fn lemma_remove_absent_bullet(bs: Seq<Bullet>, id: u64)
    requires
        forall|i: int| 0 <= i < bs.len() ==> (#[trigger] bs[i]).id != id,
    ensures
        without_bullet(bs, id) == bs,
    decreases bs.len(),
{
    if bs.len() > 0 {
        lemma_remove_absent_bullet(bs.drop_last(), id);
        assert(bs.drop_last().push(bs.last()) =~= bs);
    }
}

/// Removing an identifier that no target has leaves the targets as they are.
pub proof fn lemma_remove_absent_target(ts: Seq<Target>, id: u64)
    requires
        forall|i: int| 0 <= i < ts.len() ==> (#[trigger] ts[i]).id != id,
    ensures
        without_target(ts, id) == ts,
    decreases ts.len(),
{
    if ts.len() > 0 {
        lemma_remove_absent_target(ts.drop_last(), id);
        assert(ts.drop_last().push(ts.last()) =~= ts);
    }
}

/// In one tick each tower fires at most once, however long the tick, and keeps its
/// place.
pub proof fn lemma_at_most_one_shot_per_tower(
    tws: Seq<Tower>,
    ts: Seq<Target>,
    dt: u64,
    next: u64,
)
    ensures
        fire(tws, ts, dt, next).0.len() == tws.len(),
        fire(tws, ts, dt, next).1.len() <= tws.len(),
    decreases tws.len(),
{
    if tws.len() > 0 {
        lemma_at_most_one_shot_per_tower(tws.drop_last(), ts, dt, next);
    }
}

/// A tick in a world of one target and one bullet whose boxes overlap once the bodies
/// have advanced: the target loses exactly one point of health and that bullet is gone
/// for good.
pub proof fn lemma_tick_hit(w: WorldState, dt: u64)
    requires
        w.wf(),
        w.targets.len() == 1,
        w.bullets.len() == 1,
        w.bullets[0].advanced(dt).hits(w.targets[0].advanced(dt)),
        w.targets[0].health > i64::MIN,
    ensures
        step(w, dt).targets.len() == 1,
        step(w, dt).targets[0].health == w.targets[0].health - 1,
        forall|k: int|
            0 <= k < step(w, dt).bullets.len() ==> (#[trigger] step(w, dt).bullets[k]).id
                != w.bullets[0].id,
{
    let t = w.targets[0].advanced(dt);
    let b = w.bullets[0].advanced(dt);
    let mt = advance_targets(w.targets, dt);
    let mb = advance_bullets(w.bullets, dt);
    assert(mt =~= seq![t]);
    assert(mb =~= seq![b]);
    lemma_single_hit(t, b);
    let res = resolve(mt, mb);
    let f = fire(w.towers, res.0, dt, w.next_id);
    lemma_fire_ids(w.towers, res.0, dt, w.next_id);
    assert(res.1 + f.1 =~= f.1);
    lemma_age_ids(f.1, dt);
    let out = step(w, dt).bullets;
    assert forall|k: int| 0 <= k < out.len() implies (#[trigger] out[k]).id != w.bullets[0].id by {
        assert(has_bullet_id(f.1, out[k].id));
        let i = choose|i: int| 0 <= i < f.1.len() && #[trigger] f.1[i].id == out[k].id;
        assert(w.next_id <= f.1[i].id);
    }
}

} // verus!
