//! The peripheral per-tick systems: the spatial index, melee resolution,
//! damage application, and the dead-collection pass.

use vstd::prelude::*;
use crate::components::{CombatStats, EntModel};
use crate::map::{MapGrid, TileType};
use crate::world::{sum_of, World};

verus! {

/// Every alive entity's position lies on the map.
pub open spec fn pos_ok(w: Seq<EntModel>, map: MapGrid) -> bool {
    forall|e: int|
        0 <= e < w.len() && (#[trigger] w[e]).alive && w[e].pos.is_some() ==> map.in_bounds(
            w[e].pos->Some_0,
        )
}

/// Per-tile occupant lists with nothing recorded yet.
pub open spec fn empty_content(n: int) -> Seq<Seq<usize>> {
    Seq::new(n as nat, |i: int| Seq::empty())
}

/// Blocking flags from the tile grid alone: walls block.
pub open spec fn base_blocked(tiles: Seq<TileType>) -> Seq<bool> {
    tiles.map_values(|t: TileType| t == TileType::Wall)
}

/// The spatial index after the first `i` entities were recorded: each
/// alive, positioned entity stands in its tile's occupant list, and marks
/// its tile blocked when it blocks.
pub open spec fn index_upto(
    w: Seq<EntModel>,
    map: MapGrid,
    content: Seq<Seq<usize>>,
    blocked: Seq<bool>,
    i: int,
) -> (Seq<Seq<usize>>, Seq<bool>)
    decreases i,
{
    if i <= 0 {
        (content, blocked)
    } else {
        let r = index_upto(w, map, content, blocked, i - 1);
        let j = i - 1;
        if w[j].alive && w[j].pos.is_some() {
            let p = w[j].pos->Some_0;
            let idx = map.idx_of(p.x as int, p.y as int);
            let c1 = r.0.update(idx, r.0[idx].push(j as usize));
            let b1 = if w[j].blocks_tile {
                r.1.update(idx, true)
            } else {
                r.1
            };
            (c1, b1)
        } else {
            r
        }
    }
}

/// The whole pass of the spatial index: occupant lists and blocking flags
/// rebuilt from scratch.
pub open spec fn index_model(w: Seq<EntModel>, map: MapGrid) -> (Seq<Seq<usize>>, Seq<bool>) {
    index_upto(
        w,
        map,
        empty_content(map.width * map.height),
        base_blocked(map.tiles@),
        w.len() as int,
    )
}

/// Rebuilds per-tile occupant lists and blocking flags after movement.
pub struct MapIndexingSystem {}

impl MapIndexingSystem {
    pub fn run(&mut self, world: &World, map: &mut MapGrid)
        requires
            old(map).wf(),
            pos_ok(world@, *old(map)),
        ensures
            final(map).contents() =~= index_model(world@, *old(map)).0,
            final(map).blocked@ =~= index_model(world@, *old(map)).1,
            final(map).width == old(map).width,
            final(map).height == old(map).height,
            final(map).depth == old(map).depth,
            final(map).tiles == old(map).tiles,
            final(map).rooms == old(map).rooms,
            final(map).wf(),
    {
        let ghost m0 = *map;
        let nt = map.tiles.len();
        proof {
            assert(map.blocked@.len() == nt);
            assert(map.tile_content@.len() == nt);
        }
        let mut t: usize = 0;
        while t < nt
            invariant
                t <= nt,
                nt == m0.tiles@.len(),
                map.wf(),
                map.width == m0.width,
                map.height == m0.height,
                map.depth == m0.depth,
                map.tiles == m0.tiles,
                map.rooms == m0.rooms,
                map.contents().len() == nt,
                map.blocked@.len() == nt,
                forall|j: int| 0 <= j < t ==> (#[trigger] map.contents()[j]).len() == 0,
                forall|j: int|
                    0 <= j < t ==> (#[trigger] map.blocked@[j]) == (m0.tiles@[j]
                        == TileType::Wall),
            decreases nt - t,
        {
            map.reset_tile(t);
            t = t + 1;
        }
        proof {
            assert(map.contents() =~~= empty_content(m0.width * m0.height));
            assert(map.blocked@ =~= base_blocked(m0.tiles@));
        }
        let n = world.len();
        let mut e: usize = 0;
        while e < n
            invariant
                e <= n,
                n == world@.len(),
                map.wf(),
                pos_ok(world@, m0),
                map.width == m0.width,
                map.height == m0.height,
                map.depth == m0.depth,
                map.tiles == m0.tiles,
                map.rooms == m0.rooms,
                map.contents() =~= index_upto(
                    world@,
                    m0,
                    empty_content(m0.width * m0.height),
                    base_blocked(m0.tiles@),
                    e as int,
                ).0,
                map.blocked@ =~= index_upto(
                    world@,
                    m0,
                    empty_content(m0.width * m0.height),
                    base_blocked(m0.tiles@),
                    e as int,
                ).1,
            decreases n - e,
        {
            let ghost c_pre = map.contents();
            let ghost b_pre = map.blocked@;
            let rec = world.ent(e);
            if rec.alive && rec.pos.is_some() {
                let p = rec.pos.unwrap();
                let idx = map.xy_idx(p.x, p.y);
                if rec.blocks_tile {
                    map.set_blocked(idx, true);
                }
                map.push_occupant(idx, e);
                proof {
                    assert(map.contents() =~= index_upto(
                        world@,
                        m0,
                        empty_content(m0.width * m0.height),
                        base_blocked(m0.tiles@),
                        e as int + 1,
                    ).0);
                    assert(map.blocked@ =~= index_upto(
                        world@,
                        m0,
                        empty_content(m0.width * m0.height),
                        base_blocked(m0.tiles@),
                        e as int + 1,
                    ).1);
                }
            }
            e = e + 1;
        }
    }
}

/// The attack lands: the attacker is alive with hit points and a melee
/// intent, and the defender still has combat stats and hit points.
pub open spec fn melee_applicable(w: Seq<EntModel>, e: int) -> bool {
    &&& 0 <= e < w.len()
    &&& w[e].alive
    &&& (w[e].melee_intent matches Some(t) && t < w.len())
    &&& (w[e].stats matches Some(sa) && sa.hp > 0)
    &&& (w[w[e].melee_intent->Some_0 as int].stats matches Some(sd) && sd.hp > 0)
}

/// One resolved attack: the defender gains a pending damage event of the
/// attacker's power less the defender's defense, when positive.
pub open spec fn melee_step(w: Seq<EntModel>, e: int) -> Seq<EntModel> {
    let t = w[e].melee_intent->Some_0 as int;
    let sa = w[e].stats->Some_0;
    let sd = w[t].stats->Some_0;
    let dmg = sa.power - sd.defense;
    if dmg > 0 {
        w.update(t, EntModel { damage_queue: w[t].damage_queue.push(dmg as i32), ..w[t] })
    } else {
        w
    }
}

/// The first `i` entities' melee intents resolved, in entity order.
pub open spec fn melee_upto(w: Seq<EntModel>, i: int) -> Seq<EntModel>
    decreases i,
{
    if i <= 0 {
        w
    } else {
        let r = melee_upto(w, i - 1);
        if melee_applicable(r, i - 1) {
            melee_step(r, i - 1)
        } else {
            r
        }
    }
}

/// All melee intents cleared.
pub open spec fn clear_melee(w: Seq<EntModel>) -> Seq<EntModel> {
    w.map_values(|m: EntModel| EntModel { melee_intent: None, ..m })
}

/// The whole pass of the melee system.
pub open spec fn melee_model(w: Seq<EntModel>) -> Seq<EntModel> {
    clear_melee(melee_upto(w, w.len() as int))
}

/// Combat stats carry no negative power or defense.
pub open spec fn stats_ok(w: Seq<EntModel>) -> bool {
    forall|e: int|
        0 <= e < w.len() && (#[trigger] w[e]).stats.is_some() ==> w[e].stats->Some_0.power >= 0
            && w[e].stats->Some_0.defense >= 0
}

/// Melee intents name existing entities.
pub open spec fn melee_ok(w: Seq<EntModel>) -> bool {
    forall|e: int|
        0 <= e < w.len() && (#[trigger] w[e]).melee_intent.is_some() ==> w[e].melee_intent->Some_0
            < w.len()
}

/// Converts melee intents into damage events using attacker and defender
/// stats.
pub struct MeleeCombatSystem {}

impl MeleeCombatSystem {
    pub fn run(&mut self, world: &mut World)
        requires
            stats_ok(old(world)@),
            melee_ok(old(world)@),
        ensures
            final(world)@ =~= melee_model(old(world)@),
    {
        let ghost w0 = world@;
        let n = world.len();
        let mut e: usize = 0;
        while e < n
            invariant
                e <= n,
                n == w0.len(),
                world@.len() == n,
                stats_ok(w0),
                melee_ok(w0),
                world@ =~= melee_upto(w0, e as int),
                forall|j: int|
                    0 <= j < n ==> {
                        &&& (#[trigger] world@[j]).melee_intent == w0[j].melee_intent
                        &&& world@[j].alive == w0[j].alive
                        &&& world@[j].stats == w0[j].stats
                    },
            decreases n - e,
        {
            let ghost w_pre = world@;
            let rec = world.ent(e);
            if rec.alive && rec.melee_intent.is_some() && rec.stats.is_some() {
                let t = world.ent(e).melee_intent.unwrap();
                let sa = world.ent(e).stats.unwrap();
                proof {
                    assert(w0[e as int].melee_intent.is_some());
                    assert(t == w0[e as int].melee_intent->Some_0);
                    assert(t < n);
                }
                if sa.hp > 0 {
                    let sd_opt = world.ent(t).stats;
                    match sd_opt {
                        Some(sd) => {
                            if sd.hp > 0 {
                                let dmg = sa.power - sd.defense;
                                if dmg > 0 {
                                    world.push_damage(t, dmg);
                                }
                                proof {
                                    assert(melee_applicable(w_pre, e as int));
                                    assert(world@ =~= melee_step(w_pre, e as int));
                                }
                            }
                        },
                        None => {},
                    }
                }
            }
            proof {
                assert(world@ =~= melee_upto(w0, e as int + 1));
            }
            e = e + 1;
        }
        let mut c: usize = 0;
        let ghost w_mid = world@;
        while c < n
            invariant
                n == w_mid.len(),
                c <= n,
                world@.len() == n,
                forall|j: int| 0 <= j < c ==> world@[j] == clear_melee(w_mid)[j],
                forall|j: int| c <= j < n ==> world@[j] == w_mid[j],
            decreases n - c,
        {
            world.set_melee_intent(c, None);
            c = c + 1;
        }
        proof {
            assert(world@ =~= melee_model(w0));
        }
    }
}

/// Queues are only ever filled with non-negative amounts.
pub open spec fn dmg_nonneg(w: Seq<EntModel>) -> bool {
    forall|e: int, i: int|
        0 <= e < w.len() && 0 <= i < w[e].damage_queue.len() ==> (
        #[trigger] w[e].damage_queue[i]) >= 0
}

/// The entity has pending damage to commit.
pub open spec fn damage_applicable(w: Seq<EntModel>, e: int) -> bool {
    0 <= e < w.len() && w[e].alive && w[e].stats.is_some() && w[e].damage_queue.len() > 0
}

/// Committing one entity's pending damage: its hit points drop by the
/// queue's sum and the queue empties.
pub open spec fn damage_step(w: Seq<EntModel>, e: int) -> Seq<EntModel> {
    let s = w[e].stats->Some_0;
    w.update(
        e,
        EntModel {
            stats: Some(CombatStats { hp: (s.hp - sum_of(w[e].damage_queue)) as i32, ..s }),
            damage_queue: Seq::empty(),
            ..w[e]
        },
    )
}

/// The first `i` entities' pending damage committed.
pub open spec fn damage_upto(w: Seq<EntModel>, i: int) -> Seq<EntModel>
    decreases i,
{
    if i <= 0 {
        w
    } else {
        let r = damage_upto(w, i - 1);
        if damage_applicable(r, i - 1) {
            damage_step(r, i - 1)
        } else {
            r
        }
    }
}

/// Every damage queue emptied, applied or not.
pub open spec fn clear_queues(w: Seq<EntModel>) -> Seq<EntModel> {
    w.map_values(|m: EntModel| EntModel { damage_queue: Seq::empty(), ..m })
}

/// The whole pass of the damage system.
pub open spec fn damage_model(w: Seq<EntModel>) -> Seq<EntModel> {
    clear_queues(damage_upto(w, w.len() as int))
}

/// Every pending sum fits the arithmetic: the machine-limit precondition
/// of the damage system.
pub open spec fn damage_fits(w: Seq<EntModel>) -> bool {
    forall|e: int|
        damage_applicable(w, e) ==> sum_of(#[trigger] w[e].damage_queue) <= i32::MAX && w[e].stats
            ->Some_0.hp - sum_of(w[e].damage_queue) >= i32::MIN
}

/// A queue of non-negative amounts has a non-negative sum.
pub proof fn lemma_sum_nonneg(s: Seq<i32>)
    requires
        forall|i: int| 0 <= i < s.len() ==> s[i] >= 0,
    ensures
        sum_of(s) >= 0,
    decreases s.len(),
{
    if s.len() > 0 {
        lemma_sum_nonneg(s.drop_last());
    }
}

/// A prefix of a queue of non-negative amounts sums to no more than the
/// whole.
pub proof fn lemma_sum_take(s: Seq<i32>, k: int)
    requires
        0 <= k <= s.len(),
        forall|i: int| 0 <= i < s.len() ==> s[i] >= 0,
    ensures
        0 <= sum_of(s.take(k)) <= sum_of(s),
    decreases s.len(),
{
    if k == s.len() {
        assert(s.take(k) =~= s);
        lemma_sum_nonneg(s);
    } else {
        assert(s.take(k) =~= s.drop_last().take(k));
        lemma_sum_take(s.drop_last(), k);
    }
}

/// Applies accumulated damage to stats; the dead-collection pass deletes
/// entities separately.
pub struct DamageSystem {}

impl DamageSystem {
    #[verifier::rlimit(30)]
    pub fn run(&mut self, world: &mut World)
        requires
            dmg_nonneg(old(world)@),
            damage_fits(old(world)@),
        ensures
            final(world)@ =~= damage_model(old(world)@),
    {
        let ghost w0 = world@;
        let n = world.len();
        let mut e: usize = 0;
        while e < n
            invariant
                e <= n,
                n == w0.len(),
                world@.len() == n,
                dmg_nonneg(w0),
                damage_fits(w0),
                world@ =~= damage_upto(w0, e as int),
                forall|j: int|
                    e <= j < n ==> (#[trigger] world@[j]).damage_queue == w0[j].damage_queue
                        && world@[j].alive == w0[j].alive && world@[j].stats == w0[j].stats,
            decreases n - e,
        {
            let ghost w_pre = world@;
            let rec = world.ent(e);
            if rec.alive && rec.stats.is_some() && rec.damage_queue.len() > 0 {
                let s = world.ent(e).stats.unwrap();
                proof {
                    assert(damage_applicable(w0, e as int));
                    assert(w_pre[e as int].damage_queue == w0[e as int].damage_queue);
                    lemma_sum_nonneg(w0[e as int].damage_queue);
                }
                let qn = world.ent(e).damage_queue.len();
                let mut acc: i64 = 0;
                let mut k: usize = 0;
                while k < qn
                    invariant
                        k <= qn,
                        e < world@.len(),
                        qn == world@[e as int].damage_queue.len(),
                        world@[e as int].damage_queue == w0[e as int].damage_queue,
                        dmg_nonneg(w0),
                        damage_fits(w0),
                        damage_applicable(w0, e as int),
                        acc == sum_of(w0[e as int].damage_queue.take(k as int)),
                        0 <= acc <= sum_of(w0[e as int].damage_queue),
                    decreases qn - k,
                {
                    let a = world.ent(e).damage_queue[k];
                    proof {
                        let q = w0[e as int].damage_queue;
                        assert(q.take(k as int + 1).drop_last() =~= q.take(k as int));
                        assert(q.take(k as int + 1).last() == q[k as int]);
                        lemma_sum_take(q, k as int + 1);
                        assert(sum_of(q) <= i32::MAX);
                    }
                    acc = acc + (a as i64);
                    k = k + 1;
                }
                proof {
                    assert(w0[e as int].damage_queue.take(qn as int) =~= w0[e as int].damage_queue);
                    assert(acc == sum_of(w0[e as int].damage_queue));
                    assert(sum_of(w0[e as int].damage_queue) <= i32::MAX);
                    assert(s == w0[e as int].stats->Some_0);
                    assert(s.hp - sum_of(w0[e as int].damage_queue) >= i32::MIN);
                }
                let newhp: i32 = ((s.hp as i64) - acc) as i32;
                world.set_stats(e, Some(CombatStats { hp: newhp, ..s }));
                world.clear_damage(e);
                proof {
                    assert(world@ =~= damage_step(w_pre, e as int));
                }
            }
            proof {
                assert(world@ =~= damage_upto(w0, e as int + 1));
            }
            e = e + 1;
        }
        let mut c: usize = 0;
        let ghost w_mid = world@;
        while c < n
            invariant
                n == w_mid.len(),
                c <= n,
                world@.len() == n,
                forall|j: int| 0 <= j < c ==> world@[j] == clear_queues(w_mid)[j],
                forall|j: int| c <= j < n ==> world@[j] == w_mid[j],
            decreases n - c,
        {
            world.clear_damage(c);
            c = c + 1;
        }
        proof {
            assert(world@ =~= damage_model(w0));
        }
    }
}

/// The world after the dead-collection pass: every creature at zero or
/// fewer hit points stops existing.
pub open spec fn dead_model(w: Seq<EntModel>) -> Seq<EntModel> {
    w.map_values(
        |m: EntModel|
            if m.alive && (m.stats matches Some(s) && s.hp < 1) {
                EntModel { alive: false, ..m }
            } else {
                m
            },
    )
}

/// Delete every entity whose hit points reached zero.
pub fn delete_the_dead(world: &mut World)
    ensures
        final(world)@ =~= dead_model(old(world)@),
{
    let ghost w0 = world@;
    let n = world.len();
    let mut e: usize = 0;
    while e < n
        invariant
            e <= n,
            n == w0.len(),
            world@.len() == n,
            forall|j: int| 0 <= j < e ==> world@[j] == dead_model(w0)[j],
            forall|j: int| e <= j < n ==> world@[j] == w0[j],
        decreases n - e,
    {
        let rec = world.ent(e);
        let mut kill = false;
        if rec.alive {
            match rec.stats {
                Some(s) => {
                    if s.hp < 1 {
                        kill = true;
                    }
                },
                None => {},
            }
        }
        if kill {
            world.delete_now(e);
        }
        proof {
            assert(world@[e as int] == dead_model(w0)[e as int]);
        }
        e = e + 1;
    }
}

} // verus!
