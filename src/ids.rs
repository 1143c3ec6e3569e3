use vstd::prelude::*;
use crate::body::{Bullet, Target};
use crate::tower::Tower;
use crate::world::{
    WorldState, misses, resolve, fire, age, without_bullet, without_target, living, bullets_sorted,
    targets_sorted, bullet_ids_within, target_ids_within, has_bullet_id, has_target_id,
};

verus! {

pub(crate) proof fn lemma_misses_ids(bs: Seq<Bullet>, t: Target)
    requires
        bullets_sorted(bs),
    ensures
        bullets_sorted(misses(bs, t)),
        bullet_ids_within(misses(bs, t), bs),
    decreases bs.len(),
{
    if bs.len() > 0 {
        let init = bs.drop_last();
        let last = bs.last();
        assert(bullets_sorted(init)) by {
            assert forall|i: int, j: int| 0 <= i < j < init.len() implies init[i].id < init[j].id by {
                assert(init[i] == bs[i] && init[j] == bs[j]);
            }
        }
        lemma_misses_ids(init, t);
        let r = misses(init, t);
        let res = misses(bs, t);
        assert forall|k: int| 0 <= k < r.len() implies r[k].id < last.id by {
            let i = choose|i: int| 0 <= i < init.len() && r[k].id == init[i].id;
            assert(init[i] == bs[i]);
        }
        assert forall|k: int| 0 <= k < res.len() implies has_bullet_id(bs, #[trigger] res[k].id) by {
            if k < r.len() {
                assert(res[k] == r[k]);
                let i = choose|i: int| 0 <= i < init.len() && r[k].id == init[i].id;
                assert(init[i] == bs[i]);
            } else {
                assert(res[k].id == bs[bs.len() - 1].id);
            }
        }
        assert forall|i: int, j: int| 0 <= i < j < res.len() implies res[i].id < res[j].id by {
            if j < r.len() {
                assert(res[i] == r[i] && res[j] == r[j]);
            } else {
                assert(res[i] == r[i]);
                assert(res[j].id == last.id);
            }
        }
    }
}

pub(crate) proof fn lemma_age_ids(bs: Seq<Bullet>, dt: u64)
    requires
        bullets_sorted(bs),
    ensures
        bullets_sorted(age(bs, dt)),
        bullet_ids_within(age(bs, dt), bs),
    decreases bs.len(),
{
    if bs.len() > 0 {
        let init = bs.drop_last();
        let last = bs.last();
        assert(bullets_sorted(init)) by {
            assert forall|i: int, j: int| 0 <= i < j < init.len() implies init[i].id < init[j].id by {
                assert(init[i] == bs[i] && init[j] == bs[j]);
            }
        }
        lemma_age_ids(init, dt);
        let r = age(init, dt);
        let res = age(bs, dt);
        assert forall|k: int| 0 <= k < r.len() implies r[k].id < last.id by {
            let i = choose|i: int| 0 <= i < init.len() && r[k].id == init[i].id;
            assert(init[i] == bs[i]);
        }
        assert forall|k: int| 0 <= k < res.len() implies has_bullet_id(bs, #[trigger] res[k].id) by {
            if k < r.len() {
                assert(res[k] == r[k]);
                let i = choose|i: int| 0 <= i < init.len() && r[k].id == init[i].id;
                assert(init[i] == bs[i]);
            } else {
                assert(res[k].id == bs[bs.len() - 1].id);
            }
        }
        assert forall|i: int, j: int| 0 <= i < j < res.len() implies res[i].id < res[j].id by {
            if j < r.len() {
                assert(res[i] == r[i] && res[j] == r[j]);
            } else {
                assert(res[i] == r[i]);
                assert(res[j].id == last.id);
            }
        }
    }
}

pub(crate) proof fn lemma_without_bullet_ids(bs: Seq<Bullet>, id: u64)
    requires
        bullets_sorted(bs),
    ensures
        bullets_sorted(without_bullet(bs, id)),
        bullet_ids_within(without_bullet(bs, id), bs),
    decreases bs.len(),
{
    if bs.len() > 0 {
        let init = bs.drop_last();
        let last = bs.last();
        assert(bullets_sorted(init)) by {
            assert forall|i: int, j: int| 0 <= i < j < init.len() implies init[i].id < init[j].id by {
                assert(init[i] == bs[i] && init[j] == bs[j]);
            }
        }
        lemma_without_bullet_ids(init, id);
        let r = without_bullet(init, id);
        let res = without_bullet(bs, id);
        assert forall|k: int| 0 <= k < r.len() implies r[k].id < last.id by {
            let i = choose|i: int| 0 <= i < init.len() && r[k].id == init[i].id;
            assert(init[i] == bs[i]);
        }
        assert forall|k: int| 0 <= k < res.len() implies has_bullet_id(bs, #[trigger] res[k].id) by {
            if k < r.len() {
                assert(res[k] == r[k]);
                let i = choose|i: int| 0 <= i < init.len() && r[k].id == init[i].id;
                assert(init[i] == bs[i]);
            } else {
                assert(res[k].id == bs[bs.len() - 1].id);
            }
        }
        assert forall|i: int, j: int| 0 <= i < j < res.len() implies res[i].id < res[j].id by {
            if j < r.len() {
                assert(res[i] == r[i] && res[j] == r[j]);
            } else {
                assert(res[i] == r[i]);
                assert(res[j].id == last.id);
            }
        }
    }
}

pub(crate) proof fn lemma_without_target_ids(bs: Seq<Target>, id: u64)
    requires
        targets_sorted(bs),
    ensures
        targets_sorted(without_target(bs, id)),
        target_ids_within(without_target(bs, id), bs),
    decreases bs.len(),
{
    if bs.len() > 0 {
        let init = bs.drop_last();
        let last = bs.last();
        assert(targets_sorted(init)) by {
            assert forall|i: int, j: int| 0 <= i < j < init.len() implies init[i].id < init[j].id by {
                assert(init[i] == bs[i] && init[j] == bs[j]);
            }
        }
        lemma_without_target_ids(init, id);
        let r = without_target(init, id);
        let res = without_target(bs, id);
        assert forall|k: int| 0 <= k < r.len() implies r[k].id < last.id by {
            let i = choose|i: int| 0 <= i < init.len() && r[k].id == init[i].id;
            assert(init[i] == bs[i]);
        }
        assert forall|k: int| 0 <= k < res.len() implies has_target_id(bs, #[trigger] res[k].id) by {
            if k < r.len() {
                assert(res[k] == r[k]);
                let i = choose|i: int| 0 <= i < init.len() && r[k].id == init[i].id;
                assert(init[i] == bs[i]);
            } else {
                assert(res[k].id == bs[bs.len() - 1].id);
            }
        }
        assert forall|i: int, j: int| 0 <= i < j < res.len() implies res[i].id < res[j].id by {
            if j < r.len() {
                assert(res[i] == r[i] && res[j] == r[j]);
            } else {
                assert(res[i] == r[i]);
                assert(res[j].id == last.id);
            }
        }
    }
}

pub(crate) proof fn lemma_living_ids(bs: Seq<Target>)
    requires
        targets_sorted(bs),
    ensures
        targets_sorted(living(bs)),
        target_ids_within(living(bs), bs),
    decreases bs.len(),
{
    if bs.len() > 0 {
        let init = bs.drop_last();
        let last = bs.last();
        assert(targets_sorted(init)) by {
            assert forall|i: int, j: int| 0 <= i < j < init.len() implies init[i].id < init[j].id by {
                assert(init[i] == bs[i] && init[j] == bs[j]);
            }
        }
        lemma_living_ids(init);
        let r = living(init);
        let res = living(bs);
        assert forall|k: int| 0 <= k < r.len() implies r[k].id < last.id by {
            let i = choose|i: int| 0 <= i < init.len() && r[k].id == init[i].id;
            assert(init[i] == bs[i]);
        }
        assert forall|k: int| 0 <= k < res.len() implies has_target_id(bs, #[trigger] res[k].id) by {
            if k < r.len() {
                assert(res[k] == r[k]);
                let i = choose|i: int| 0 <= i < init.len() && r[k].id == init[i].id;
                assert(init[i] == bs[i]);
            } else {
                assert(res[k].id == bs[bs.len() - 1].id);
            }
        }
        assert forall|i: int, j: int| 0 <= i < j < res.len() implies res[i].id < res[j].id by {
            if j < r.len() {
                assert(res[i] == r[i] && res[j] == r[j]);
            } else {
                assert(res[i] == r[i]);
                assert(res[j].id == last.id);
            }
        }
    }
}


pub(crate) proof fn lemma_bullet_ids_within_trans(a: Seq<Bullet>, b: Seq<Bullet>, c: Seq<Bullet>)
    requires
        bullet_ids_within(a, b),
        bullet_ids_within(b, c),
    ensures
        bullet_ids_within(a, c),
{
    assert forall|k: int| 0 <= k < a.len() implies has_bullet_id(c, #[trigger] a[k].id) by {
        let x = a[k];
        let m = choose|m: int| 0 <= m < b.len() && a[k].id == b[m].id;
        let y = b[m];
        let i = choose|i: int| 0 <= i < c.len() && b[m].id == c[i].id;
        let w = c[i];
        assert(a[k].id == w.id);
    }
}

pub(crate) proof fn lemma_resolve_ids(ts: Seq<Target>, bs: Seq<Bullet>)
    requires
        bullets_sorted(bs),
    ensures
        bullets_sorted(resolve(ts, bs).1),
        bullet_ids_within(resolve(ts, bs).1, bs),
    decreases ts.len(),
{
    if ts.len() == 0 {
        assert forall|k: int| 0 <= k < bs.len() implies has_bullet_id(bs, #[trigger] bs[k].id) by {
            let w = bs[k];
        }
    } else {
        lemma_resolve_ids(ts.drop_last(), bs);
        let prev = resolve(ts.drop_last(), bs);
        lemma_misses_ids(prev.1, ts.last());
        lemma_bullet_ids_within_trans(misses(prev.1, ts.last()), prev.1, bs);
    }
}

pub(crate) proof fn lemma_fire_ids(tws: Seq<Tower>, ts: Seq<Target>, dt: u64, next: u64)
    ensures
        fire(tws, ts, dt, next).0.len() == tws.len(),
        forall|i: int| 0 <= i < tws.len() ==> #[trigger] fire(tws, ts, dt, next).0[i].id == tws[i].id,
        fire(tws, ts, dt, next).2 >= next,
        bullets_sorted(fire(tws, ts, dt, next).1),
        forall|k: int|
            0 <= k < fire(tws, ts, dt, next).1.len() ==> next <= #[trigger] fire(
                tws,
                ts,
                dt,
                next,
            ).1[k].id < fire(tws, ts, dt, next).2,
    decreases tws.len(),
{
    if tws.len() > 0 {
        lemma_fire_ids(tws.drop_last(), ts, dt, next);
        let prev = fire(tws.drop_last(), ts, dt, next);
        let f = fire(tws, ts, dt, next);
        assert forall|i: int| 0 <= i < tws.len() implies #[trigger] f.0[i].id == tws[i].id by {
            if i < tws.len() - 1 {
                assert(f.0[i] == prev.0[i]);
                assert(tws.drop_last()[i] == tws[i]);
            }
        }
        assert forall|k: int| 0 <= k < f.1.len() implies next <= #[trigger] f.1[k].id < f.2 by {
            if k < prev.1.len() {
                assert(f.1[k] == prev.1[k]);
            }
        }
        assert forall|i: int, j: int| 0 <= i < j < f.1.len() implies f.1[i].id < f.1[j].id by {
            if j < prev.1.len() {
                assert(f.1[i] == prev.1[i] && f.1[j] == prev.1[j]);
            } else {
                assert(f.1[i] == prev.1[i]);
                assert(prev.1[i].id < prev.2);
            }
        }
    }
}

/// Replacing the bullets by a sorted selection of them keeps identifiers in order.
pub(crate) proof fn lemma_keep_bullet_ids(w: WorldState, nb: Seq<Bullet>)
    requires
        w.ids_ok(),
        bullets_sorted(nb),
        bullet_ids_within(nb, w.bullets),
    ensures
        (WorldState { bullets: nb, ..w }).ids_ok(),
{
    assert forall|j: int| #![trigger nb[j]] 0 <= j < nb.len() implies nb[j].id < w.next_id
        && (forall|i: int| 0 <= i < w.towers.len() ==> w.towers[i].id != nb[j].id)
        && (forall|i: int| 0 <= i < w.targets.len() ==> w.targets[i].id != nb[j].id) by {
        let m = choose|m: int| 0 <= m < w.bullets.len() && nb[j].id == w.bullets[m].id;
    }
}

/// Replacing the targets by a sorted selection of them keeps identifiers in order.
pub(crate) proof fn lemma_keep_target_ids(w: WorldState, nt: Seq<Target>)
    requires
        w.ids_ok(),
        targets_sorted(nt),
        target_ids_within(nt, w.targets),
    ensures
        (WorldState { targets: nt, ..w }).ids_ok(),
{
    assert forall|j: int| #![trigger nt[j]] 0 <= j < nt.len() implies nt[j].id < w.next_id
        && (forall|i: int| 0 <= i < w.towers.len() ==> w.towers[i].id != nt[j].id)
        && (forall|i: int| 0 <= i < w.bullets.len() ==> nt[j].id != w.bullets[i].id) by {
        let m = choose|m: int| 0 <= m < w.targets.len() && nt[j].id == w.targets[m].id;
    }
}

/// Targets with the same identifiers, index by index, keep them in order.
pub(crate) proof fn lemma_same_target_ids(nt: Seq<Target>, ot: Seq<Target>)
    requires
        nt.len() == ot.len(),
        forall|i: int| 0 <= i < ot.len() ==> #[trigger] nt[i].id == ot[i].id,
        targets_sorted(ot),
    ensures
        targets_sorted(nt),
        target_ids_within(nt, ot),
{
    assert forall|i: int, j: int| 0 <= i < j < nt.len() implies nt[i].id < nt[j].id by {
        assert(nt[i].id == ot[i].id && nt[j].id == ot[j].id);
    }
    assert forall|k: int| 0 <= k < nt.len() implies has_target_id(ot, #[trigger] nt[k].id) by {
        let w = ot[k];
        assert(nt[k].id == w.id);
    }
}

/// Bullets with the same identifiers, index by index, keep them in order.
pub(crate) proof fn lemma_same_bullet_ids(nb: Seq<Bullet>, ob: Seq<Bullet>)
    requires
        nb.len() == ob.len(),
        forall|i: int| 0 <= i < ob.len() ==> #[trigger] nb[i].id == ob[i].id,
        bullets_sorted(ob),
    ensures
        bullets_sorted(nb),
        bullet_ids_within(nb, ob),
{
    assert forall|i: int, j: int| 0 <= i < j < nb.len() implies nb[i].id < nb[j].id by {
        assert(nb[i].id == ob[i].id && nb[j].id == ob[j].id);
    }
    assert forall|k: int| 0 <= k < nb.len() implies has_bullet_id(ob, #[trigger] nb[k].id) by {
        let w = ob[k];
        assert(nb[k].id == w.id);
    }
}

/// Towers that keep their identifiers, and new bullets numbered from the counter on,
/// keep identifiers unique.
pub(crate) proof fn lemma_fired_ids(w: WorldState, nt: Seq<Tower>, nb: Seq<Bullet>, next: u64)
    requires
        w.ids_ok(),
        nt.len() == w.towers.len(),
        forall|i: int| 0 <= i < nt.len() ==> #[trigger] nt[i].id == w.towers[i].id,
        bullets_sorted(nb),
        next >= w.next_id,
        forall|k: int| 0 <= k < nb.len() ==> w.next_id <= #[trigger] nb[k].id < next,
    ensures
        (WorldState { towers: nt, bullets: w.bullets + nb, next_id: next, ..w }).ids_ok(),
{
    let all = w.bullets + nb;
    assert forall|i: int, j: int| 0 <= i < j < nt.len() implies nt[i].id < nt[j].id by {
        assert(nt[i].id == w.towers[i].id && nt[j].id == w.towers[j].id);
    }
    assert forall|i: int, j: int| 0 <= i < j < all.len() implies all[i].id < all[j].id by {
        if j >= w.bullets.len() && i < w.bullets.len() {
            assert(nb[j - w.bullets.len()] == all[j]);
        } else if i >= w.bullets.len() {
            assert(nb[i - w.bullets.len()] == all[i] && nb[j - w.bullets.len()] == all[j]);
        }
    }
    assert forall|j: int| #![trigger all[j]] 0 <= j < all.len() implies all[j].id < next && (
    forall|i: int| 0 <= i < nt.len() ==> nt[i].id != all[j].id) && (forall|i: int|
        0 <= i < w.targets.len() ==> w.targets[i].id != all[j].id) by {
        if j >= w.bullets.len() {
            assert(nb[j - w.bullets.len()] == all[j]);
        }
        assert forall|i: int| 0 <= i < nt.len() implies nt[i].id != all[j].id by {
            assert(nt[i].id == w.towers[i].id);
        }
    }
    assert forall|i: int| 0 <= i < nt.len() implies nt[i].id < next by {
        assert(nt[i].id == w.towers[i].id);
    }
}

pub(crate) proof fn lemma_push_tower_ids(w: WorldState, t: Tower)
    requires
        w.ids_ok(),
        t.id == w.next_id,
        w.next_id < u64::MAX,
    ensures
        (WorldState { towers: w.towers.push(t), next_id: (w.next_id + 1) as u64, ..w }).ids_ok(),
{
    let nt = w.towers.push(t);
    assert forall|i: int| 0 <= i < w.towers.len() implies nt[i] == w.towers[i] by {}
}

pub(crate) proof fn lemma_push_target_ids(w: WorldState, t: Target)
    requires
        w.ids_ok(),
        t.id == w.next_id,
        w.next_id < u64::MAX,
    ensures
        (WorldState { targets: w.targets.push(t), next_id: (w.next_id + 1) as u64, ..w }).ids_ok(),
{
    let nt = w.targets.push(t);
    assert forall|i: int| 0 <= i < w.targets.len() implies nt[i] == w.targets[i] by {}
}

} // verus!
