//! The three item systems: collection (floor to backpack), use (targeting,
//! equipping, healing, damage, confusion, consumption), and removal (worn
//! back to backpack).

use vstd::prelude::*;
use crate::components::{EntModel, EquippedInfo, PickupIntent};
use crate::world::World;
use crate::text::pickup_line;
use crate::map::{idx_at, in_bounds_at, interior_at, MapGrid, MAX_DIM};
use crate::components::{CombatStats, EquipSlot, Point, UseIntent};
use crate::text::{confusion_line, damage_line, equip_line, heal_line, unequip_line};

verus! {

/// A message log as the contracts see it: one character sequence per line.
pub open spec fn log_view(log: Seq<String>) -> Seq<Seq<char>> {
    log.map_values(|s: String| s@)
}

/// The name of an entity that has one.
pub open spec fn name_of(m: EntModel) -> Seq<char> {
    match m.name {
        Some(n) => n,
        None => Seq::empty(),
    }
}

/// Append one line to the log.
pub fn push_line(log: &mut Vec<String>, line: String)
    ensures
        log_view(final(log)@) =~= log_view(old(log)@).push(line@),
{
    log.push(line);
}

/// Whether entity `e` carries a pickup intent to process.
pub open spec fn has_pickup(w: Seq<EntModel>, e: int) -> bool {
    0 <= e < w.len() && w[e].alive && w[e].pickup.is_some()
}

/// The effect of resolving entity `e`'s pickup intent: the item loses its
/// floor position and gains a backpack edge to the collector; the player's
/// own pickups are narrated.
pub open spec fn pickup_step(
    w: Seq<EntModel>,
    log: Seq<Seq<char>>,
    player: usize,
    e: int,
) -> (Seq<EntModel>, Seq<Seq<char>>) {
    let p = w[e].pickup->Some_0;
    let w1 = w.update(
        p.item as int,
        EntModel { pos: None, backpack_owner: Some(p.collected_by), ..w[p.item as int] },
    );
    let log1 = if p.collected_by == player {
        log.push(pickup_line(name_of(w[p.item as int])))
    } else {
        log
    };
    (w1, log1)
}

/// The world and log after the first `i` entities' pickup intents have
/// been resolved, in entity order.
pub open spec fn pickup_upto(
    w: Seq<EntModel>,
    log: Seq<Seq<char>>,
    player: usize,
    i: int,
) -> (Seq<EntModel>, Seq<Seq<char>>)
    decreases i,
{
    if i <= 0 {
        (w, log)
    } else {
        let r = pickup_upto(w, log, player, i - 1);
        if has_pickup(r.0, i - 1) {
            pickup_step(r.0, r.1, player, i - 1)
        } else {
            r
        }
    }
}

/// All pickup intents cleared, matched or not.
pub open spec fn clear_pickups(w: Seq<EntModel>) -> Seq<EntModel> {
    w.map_values(|m: EntModel| EntModel { pickup: None, ..m })
}

/// The whole pass of the collection system.
pub open spec fn pickup_model(
    w: Seq<EntModel>,
    log: Seq<Seq<char>>,
    player: usize,
) -> (Seq<EntModel>, Seq<Seq<char>>) {
    let r = pickup_upto(w, log, player, w.len() as int);
    (clear_pickups(r.0), r.1)
}

/// Pickup intents are valid: the indices they mention exist, and an item
/// the player collects has a name to narrate.
pub open spec fn pickup_ok(w: Seq<EntModel>, player: usize) -> bool {
    forall|e: int|
        has_pickup(w, e) ==> {
            let p = #[trigger] w[e].pickup->Some_0;
            &&& p.item < w.len()
            &&& p.collected_by < w.len()
            &&& (p.collected_by == player ==> w[p.item as int].name.is_some())
        }
}

/// Moves an item entity from the floor into an owner's backpack.
pub struct ItemCollectionSystem {}

impl ItemCollectionSystem {
    /// Resolve every pending pickup intent, then clear them all.
    pub fn run(&mut self, world: &mut World, log: &mut Vec<String>, player: usize)
        requires
            pickup_ok(old(world)@, player),
        ensures
            final(world)@ =~= pickup_model(old(world)@, log_view(old(log)@), player).0,
            log_view(final(log)@) =~= pickup_model(old(world)@, log_view(old(log)@), player).1,
    {
        let ghost w0 = world@;
        let ghost log0 = log_view(log@);
        let n = world.len();
        let mut e: usize = 0;
        while e < n
            invariant
                n == w0.len(),
                e <= n,
                pickup_ok(w0, player),
                world@ =~= pickup_upto(w0, log0, player, e as int).0,
                log_view(log@) =~= pickup_upto(w0, log0, player, e as int).1,
                world@.len() == n,
                forall|j: int|
                    0 <= j < n ==> {
                        &&& (#[trigger] world@[j]).pickup == w0[j].pickup
                        &&& world@[j].alive == w0[j].alive
                        &&& world@[j].name == w0[j].name
                    },
            decreases n - e,
        {
            let ghost w_pre = world@;
            let ghost log_pre = log_view(log@);
            let r = world.ent(e);
            if r.alive && r.pickup.is_some() {
                let p = world.ent(e).pickup.unwrap();
                proof {
                    assert(has_pickup(w0, e as int));
                    assert(w0[e as int].pickup->Some_0.item < n);
                    assert(p == w0[e as int].pickup->Some_0);
                }
                world.set_pos(p.item, None);
                world.set_backpack(p.item, Some(p.collected_by));
                if p.collected_by == player {
                    match &world.ent(p.item).name {
                        Some(nm) => {
                            let line = crate::text::make_pickup_line(nm);
                            push_line(log, line);
                        },
                        None => {
                            proof {
                                assert(false);
                            }
                        },
                    }
                }
                proof {
                    assert(world@ =~= pickup_step(w_pre, log_pre, player, e as int).0);
                    assert(log_view(log@) =~= pickup_step(w_pre, log_pre, player, e as int).1);
                }
            }
            e = e + 1;
        }
        proof {
            assert(world@ =~= pickup_upto(w0, log0, player, n as int).0);
        }
        // defensive clear: every pickup intent goes, matched or not
        let mut c: usize = 0;
        let ghost w_mid = world@;
        while c < n
            invariant
                n == w_mid.len(),
                c <= n,
                world@.len() == n,
                forall|j: int| 0 <= j < c ==> world@[j] == clear_pickups(w_mid)[j],
                forall|j: int| c <= j < n ==> world@[j] == w_mid[j],
                log_view(log@) =~= pickup_upto(w0, log0, player, n as int).1,
            decreases n - c,
        {
            world.set_pickup(c, None);
            c = c + 1;
        }
    }
}

/// Whether entity `e` carries a remove intent to process.
pub open spec fn has_remove(w: Seq<EntModel>, e: int) -> bool {
    0 <= e < w.len() && w[e].alive && w[e].remove_intent.is_some()
}

/// The effect of resolving entity `e`'s remove intent: the named item
/// loses its equipped edge and lands in `e`'s backpack.
pub open spec fn remove_step(w: Seq<EntModel>, e: int) -> Seq<EntModel> {
    let item = w[e].remove_intent->Some_0;
    w.update(
        item as int,
        EntModel { equipped: None, backpack_owner: Some(e as usize), ..w[item as int] },
    )
}

/// The world after the first `i` entities' remove intents were resolved.
pub open spec fn remove_upto(w: Seq<EntModel>, i: int) -> Seq<EntModel>
    decreases i,
{
    if i <= 0 {
        w
    } else {
        let r = remove_upto(w, i - 1);
        if has_remove(r, i - 1) {
            remove_step(r, i - 1)
        } else {
            r
        }
    }
}

/// All remove intents cleared.
pub open spec fn clear_removes(w: Seq<EntModel>) -> Seq<EntModel> {
    w.map_values(|m: EntModel| EntModel { remove_intent: None, ..m })
}

/// The whole pass of the removal system.
pub open spec fn remove_model(w: Seq<EntModel>) -> Seq<EntModel> {
    clear_removes(remove_upto(w, w.len() as int))
}

/// Remove intents mention existing items.
pub open spec fn remove_ok(w: Seq<EntModel>) -> bool {
    forall|e: int| has_remove(w, e) ==> (#[trigger] w[e].remove_intent)->Some_0 < w.len()
}

/// Unequips an item back into backpack ownership.
pub struct ItemRemoveSystem {}

impl ItemRemoveSystem {
    /// Resolve every pending remove intent, then clear them all.
    pub fn run(&mut self, world: &mut World)
        requires
            remove_ok(old(world)@),
        ensures
            final(world)@ =~= remove_model(old(world)@),
    {
        let ghost w0 = world@;
        let n = world.len();
        let mut e: usize = 0;
        while e < n
            invariant
                n == w0.len(),
                e <= n,
                remove_ok(w0),
                world@ =~= remove_upto(w0, e as int),
                world@.len() == n,
                forall|j: int|
                    0 <= j < n ==> {
                        &&& (#[trigger] world@[j]).remove_intent == w0[j].remove_intent
                        &&& world@[j].alive == w0[j].alive
                    },
            decreases n - e,
        {
            let ghost w_pre = world@;
            let r = world.ent(e);
            if r.alive && r.remove_intent.is_some() {
                let item = world.ent(e).remove_intent.unwrap();
                world.set_equipped(item, None);
                world.set_backpack(item, Some(e));
                proof {
                    assert(world@ =~= remove_step(w_pre, e as int));
                }
            }
            e = e + 1;
        }
        let mut c: usize = 0;
        let ghost w_mid = world@;
        while c < n
            invariant
                n == w_mid.len(),
                c <= n,
                world@.len() == n,
                forall|j: int| 0 <= j < c ==> world@[j] == clear_removes(w_mid)[j],
                forall|j: int| c <= j < n ==> world@[j] == w_mid[j],
            decreases n - c,
        {
            world.set_remove_intent(c, None);
            c = c + 1;
        }
        proof {
            assert(world@ =~= remove_model(w0));
        }
    }
}

} // verus!

verus! {

/// The entities standing on one tile.
pub open spec fn tile_occupants(width: int, content: Seq<Seq<usize>>, p: Point) -> Seq<usize> {
    content[idx_at(width, p.x as int, p.y as int)]
}

/// The targets gathered from a blast region: the occupants of every tile
/// of the region that lies in the map's interior, in region order.
/// Occupants of border tiles are excluded even when the geometry reached
/// them.
pub open spec fn aoe_targets(
    width: int,
    height: int,
    content: Seq<Seq<usize>>,
    blast: Seq<Point>,
) -> Seq<usize>
    decreases blast.len(),
{
    if blast.len() == 0 {
        Seq::empty()
    } else {
        aoe_targets(width, height, content, blast.drop_last()) + (if interior_at(
            width,
            height,
            blast.last(),
        ) {
            tile_occupants(width, content, blast.last())
        } else {
            Seq::empty()
        })
    }
}

/// The target set of a use intent: the using entity itself when no point
/// is given; every occupant of the pointed-at tile for a plain item; the
/// blast-region occupants for an area-of-effect item.
pub open spec fn targets_model(
    w: Seq<EntModel>,
    width: int,
    height: int,
    content: Seq<Seq<usize>>,
    user: usize,
    u: UseIntent,
    blast: Seq<Point>,
) -> Seq<usize> {
    match u.target {
        None => seq![user],
        Some(pt) => {
            if w[u.item as int].aoe_radius.is_some() {
                aoe_targets(width, height, content, blast)
            } else {
                tile_occupants(width, content, pt)
            }
        },
    }
}

/// Every occupant the spatial index recorded names an existing entity.
pub open spec fn content_ok(content: Seq<Seq<usize>>, n: int) -> bool {
    forall|t: int, k: int|
        0 <= t < content.len() && 0 <= k < content[t].len() ==> (#[trigger] content[t][k]) < n
}

/// Blast-region targets name existing entities.
pub proof fn lemma_aoe_targets_in_range(
    width: int,
    height: int,
    content: Seq<Seq<usize>>,
    blast: Seq<Point>,
    n: int,
)
    requires
        0 < width <= MAX_DIM,
        0 < height <= MAX_DIM,
        content.len() == width * height,
        content_ok(content, n),
    ensures
        forall|k: int|
            0 <= k < aoe_targets(width, height, content, blast).len() ==> (#[trigger] aoe_targets(
                width,
                height,
                content,
                blast,
            )[k]) < n,
    decreases blast.len(),
{
    if blast.len() > 0 {
        lemma_aoe_targets_in_range(width, height, content, blast.drop_last(), n);
        let p = blast.last();
        if interior_at(width, height, p) {
            assert(0 <= idx_at(width, p.x as int, p.y as int) < content.len()) by {
                assert((p.y as int) * width + (p.x as int) < height * width) by (nonlinear_arith)
                    requires
                        0 <= p.x < width,
                        0 <= p.y < height,
                ;
                assert(height * width == width * height) by (nonlinear_arith);
                assert((p.y as int) * width + (p.x as int) >= 0) by (nonlinear_arith)
                    requires
                        0 <= p.x && 0 <= p.y && 0 < width,
                ;
            }
        }
        let pre = aoe_targets(width, height, content, blast.drop_last());
        assert forall|k: int| 0 <= k < aoe_targets(width, height, content, blast).len() implies (
        #[trigger] aoe_targets(width, height, content, blast)[k]) < n by {
            if k < pre.len() {
                assert(aoe_targets(width, height, content, blast)[k] == pre[k]);
            } else {
                assert(interior_at(width, height, p));
                assert(aoe_targets(width, height, content, blast)[k] == tile_occupants(
                    width,
                    content,
                    p,
                )[k - pre.len()]);
                assert(content[idx_at(width, p.x as int, p.y as int)][k - pre.len()] < n);
            }
        }
    }
}

/// All members of a target set name existing entities.
pub proof fn lemma_targets_in_range(
    w: Seq<EntModel>,
    width: int,
    height: int,
    content: Seq<Seq<usize>>,
    user: usize,
    u: UseIntent,
    blast: Seq<Point>,
    n: int,
)
    requires
        0 < width <= MAX_DIM,
        0 < height <= MAX_DIM,
        content.len() == width * height,
        content_ok(content, n),
        user < n,
        u.target matches Some(p) ==> in_bounds_at(width, height, p),
    ensures
        forall|k: int|
            0 <= k < targets_model(w, width, height, content, user, u, blast).len() ==> (
            #[trigger] targets_model(w, width, height, content, user, u, blast)[k]) < n,
{
    match u.target {
        None => {},
        Some(pt) => {
            if w[u.item as int].aoe_radius.is_some() {
                lemma_aoe_targets_in_range(width, height, content, blast, n);
            } else {
                assert(0 <= idx_at(width, pt.x as int, pt.y as int) < content.len()) by {
                    assert((pt.y as int) * width + (pt.x as int) < height * width)
                        by (nonlinear_arith)
                        requires
                            0 <= pt.x < width,
                            0 <= pt.y < height,
                    ;
                    assert(height * width == width * height) by (nonlinear_arith);
                    assert((pt.y as int) * width + (pt.x as int) >= 0) by (nonlinear_arith)
                        requires
                            0 <= pt.x && 0 <= pt.y && 0 < width,
                    ;
                }
            }
        },
    }
}

/// Gather the target set of one use intent.
pub fn resolve_targets(
    world: &World,
    map: &MapGrid,
    user: usize,
    u: UseIntent,
    blast: &Vec<Point>,
) -> (ts: Vec<usize>)
    requires
        map.wf(),
        u.item < world@.len(),
        u.target matches Some(p) ==> map.in_bounds(p),
    ensures
        ts@ == targets_model(
            world@,
            map.width as int,
            map.height as int,
            map.contents(),
            user,
            u,
            blast@,
        ),
{
    let ghost cv = map.contents();
    let ghost mw = map.width as int;
    let ghost mh = map.height as int;
    let mut ts: Vec<usize> = Vec::new();
    match u.target {
        None => {
            ts.push(user);
            proof {
                assert(ts@ =~= seq![user]);
            }
        },
        Some(pt) => {
            if world.ent(u.item).aoe_radius.is_some() {
                let mut bi: usize = 0;
                while bi < blast.len()
                    invariant
                        bi <= blast@.len(),
                        map.wf(),
                        cv == map.contents(),
                        mw == map.width as int,
                        mh == map.height as int,
                        ts@ =~= aoe_targets(mw, mh, cv, blast@.take(bi as int)),
                    decreases blast@.len() - bi,
                {
                    let p = blast[bi];
                    if p.x > 0 && p.x < map.width - 1 && p.y > 0 && p.y < map.height - 1 {
                        let idx = map.xy_idx(p.x, p.y);
                        let ghost pre = ts@;
                        let mut k: usize = 0;
                        while k < map.tile_content[idx].len()
                            invariant
                                k <= map.tile_content@[idx as int]@.len(),
                                idx < map.tile_content@.len(),
                                ts@ =~= pre + map.tile_content@[idx as int]@.take(k as int),
                            decreases map.tile_content@[idx as int]@.len() - k,
                        {
                            let mob = map.tile_content[idx][k];
                            ts.push(mob);
                            proof {
                                assert(map.tile_content@[idx as int]@.take(k as int + 1)
                                    =~= map.tile_content@[idx as int]@.take(k as int).push(
                                    map.tile_content@[idx as int]@[k as int],
                                ));
                            }
                            k = k + 1;
                        }
                        proof {
                            assert(map.tile_content@[idx as int]@.take(
                                map.tile_content@[idx as int]@.len() as int,
                            ) =~= map.tile_content@[idx as int]@);
                            assert(cv[idx as int] == map.tile_content@[idx as int]@);
                            assert(ts@ =~= pre + tile_occupants(mw, cv, p));
                        }
                    }
                    proof {
                        assert(blast@.take(bi as int + 1).drop_last() == blast@.take(bi as int));
                        assert(blast@.take(bi as int + 1).last() == blast@[bi as int]);
                        assert(ts@ =~= aoe_targets(mw, mh, cv, blast@.take(bi as int + 1)));
                    }
                    bi = bi + 1;
                }
                proof {
                    assert(blast@.take(blast@.len() as int) =~= blast@);
                }
            } else {
                let idx = map.xy_idx(pt.x, pt.y);
                let mut k: usize = 0;
                while k < map.tile_content[idx].len()
                    invariant
                        k <= map.tile_content@[idx as int]@.len(),
                        idx < map.tile_content@.len(),
                        ts@ =~= map.tile_content@[idx as int]@.take(k as int),
                    decreases map.tile_content@[idx as int]@.len() - k,
                {
                    let mob = map.tile_content[idx][k];
                    ts.push(mob);
                    proof {
                        assert(map.tile_content@[idx as int]@.take(k as int + 1)
                            =~= map.tile_content@[idx as int]@.take(k as int).push(
                            map.tile_content@[idx as int]@[k as int],
                        ));
                    }
                    k = k + 1;
                }
                proof {
                    assert(map.tile_content@[idx as int]@.take(
                        map.tile_content@[idx as int]@.len() as int,
                    ) =~= map.tile_content@[idx as int]@);
                    assert(cv[idx as int] == map.tile_content@[idx as int]@);
                }
            }
        },
    }
    ts
}

} // verus!

verus! {

/// The blast-tile lists as the contracts see them.
pub open spec fn blasts_view(bs: Seq<Vec<Point>>) -> Seq<Seq<Point>> {
    bs.map_values(|v: Vec<Point>| v@)
}

/// Whether entity `e` carries a use intent to process.
pub open spec fn has_use(w: Seq<EntModel>, e: int) -> bool {
    0 <= e < w.len() && w[e].alive && w[e].use_intent.is_some()
}

/// The intent is aimed at a point and its item has an area of effect, so
/// the shell owes it a blast-tile list.
pub open spec fn is_aoe_intent(w: Seq<EntModel>, e: int) -> bool {
    &&& has_use(w, e)
    &&& (w[e].use_intent matches Some(u) && u.target.is_some() && u.item < w.len()
        && w[u.item as int].aoe_radius.is_some())
}

/// How many of the first `i` entities carry an area-targeted use intent.
pub open spec fn aoe_count(w: Seq<EntModel>, i: int) -> int
    decreases i,
{
    if i <= 0 {
        0
    } else {
        aoe_count(w, i - 1) + if is_aoe_intent(w, i - 1) {
            1int
        } else {
            0int
        }
    }
}

/// The blast-tile list owed to entity `e`'s intent: area-targeted intents
/// consume the shell's lists in entity order.
pub open spec fn blast_for(w: Seq<EntModel>, blasts: Seq<Seq<Point>>, e: int) -> Seq<Point> {
    if is_aoe_intent(w, e) {
        blasts[aoe_count(w, e)]
    } else {
        Seq::empty()
    }
}

pub proof fn lemma_aoe_count_nonneg(w: Seq<EntModel>, i: int)
    ensures
        aoe_count(w, i) >= 0,
    decreases i,
{
    if i > 0 {
        lemma_aoe_count_nonneg(w, i - 1);
    }
}

pub proof fn lemma_aoe_count_bound(w: Seq<EntModel>, i: int, j: int)
    requires
        0 <= i < j,
    ensures
        aoe_count(w, i) + (if is_aoe_intent(w, i) {
            1int
        } else {
            0int
        }) <= aoe_count(w, j),
    decreases j,
{
    if i + 1 < j {
        lemma_aoe_count_bound(w, i, j - 1);
    }
}

/// The fields of one entity that the use system never writes.
pub open spec fn use_stable(a: EntModel, b: EntModel) -> bool {
    &&& a.alive == b.alive
    &&& a.pending_delete == b.pending_delete || a.pending_delete
    &&& a.is_player == b.is_player
    &&& a.pos == b.pos
    &&& a.use_intent == b.use_intent
    &&& a.name == b.name
    &&& a.aoe_radius == b.aoe_radius
    &&& a.equippable == b.equippable
    &&& a.healing == b.healing
    &&& a.inflicts == b.inflicts
    &&& a.consumable == b.consumable
    &&& a.ranged == b.ranged
    &&& a.stats.is_some() == b.stats.is_some()
}

/// No entity's stable fields changed.
pub open spec fn all_stable(w1: Seq<EntModel>, w0: Seq<EntModel>) -> bool {
    w1.len() == w0.len() && forall|j: int| 0 <= j < w0.len() ==> use_stable(#[trigger] w1[j], w0[j])
}

/// Every worn item has a name to narrate its eviction with.
pub open spec fn equip_named(w: Seq<EntModel>) -> bool {
    forall|j: int| 0 <= j < w.len() && (#[trigger] w[j]).equipped.is_some() ==> w[j].name.is_some()
}

/// Every wearable item has a name.
pub open spec fn equippable_named(w: Seq<EntModel>) -> bool {
    forall|j: int|
        0 <= j < w.len() && (#[trigger] w[j]).equippable.is_some() ==> w[j].name.is_some()
}

/// Eviction scan for an equip: each of the first `i` entities that wears
/// something in the wanted slot of the target hands it back to the
/// target's backpack; the player's evictions are narrated.
pub open spec fn evict_upto(
    w: Seq<EntModel>,
    log: Seq<Seq<char>>,
    t0: usize,
    slot: EquipSlot,
    player: usize,
    i: int,
) -> (Seq<EntModel>, Seq<Seq<char>>)
    decreases i,
{
    if i <= 0 {
        (w, log)
    } else {
        let r = evict_upto(w, log, t0, slot, player, i - 1);
        let j = i - 1;
        if r.0[j].alive && r.0[j].equipped == Some(EquippedInfo { owner: t0, slot }) {
            let w1 = r.0.update(
                j,
                EntModel { equipped: None, backpack_owner: Some(t0), ..r.0[j] },
            );
            let log1 = if t0 == player {
                r.1.push(unequip_line(name_of(r.0[j])))
            } else {
                r.1
            };
            (w1, log1)
        } else {
            r
        }
    }
}

/// The equip branch: evict whatever the first target wears in the slot,
/// then wield the item.
pub open spec fn equip_model(
    w: Seq<EntModel>,
    log: Seq<Seq<char>>,
    player: usize,
    item: usize,
    slot: EquipSlot,
    t0: usize,
) -> (Seq<EntModel>, Seq<Seq<char>>) {
    let r = evict_upto(w, log, t0, slot, player, w.len() as int);
    let w1 = r.0.update(
        item as int,
        EntModel {
            equipped: Some(EquippedInfo { owner: t0, slot }),
            backpack_owner: None,
            ..r.0[item as int]
        },
    );
    let log1 = if t0 == player {
        r.1.push(equip_line(name_of(r.0[item as int])))
    } else {
        r.1
    };
    (w1, log1)
}

/// The healing branch over the first `i` targets: each target with combat
/// stats is healed, clamped to its hit-point maximum; the item counts as
/// used once any target was healed.
pub open spec fn heal_upto(
    w: Seq<EntModel>,
    log: Seq<Seq<char>>,
    ts: Seq<usize>,
    amount: i32,
    narrate: bool,
    iname: Seq<char>,
    i: int,
) -> (Seq<EntModel>, Seq<Seq<char>>, bool)
    decreases i,
{
    if i <= 0 {
        (w, log, false)
    } else {
        let r = heal_upto(w, log, ts, amount, narrate, iname, i - 1);
        let t = ts[i - 1] as int;
        match r.0[t].stats {
            Some(s) => {
                let sum = s.hp + amount;
                let newhp: i32 = if s.max_hp <= sum {
                    s.max_hp
                } else {
                    sum as i32
                };
                let w1 = r.0.update(
                    t,
                    EntModel { stats: Some(CombatStats { hp: newhp, ..s }), ..r.0[t] },
                );
                let log1 = if narrate {
                    r.1.push(heal_line(iname, amount as int))
                } else {
                    r.1
                };
                (w1, log1, true)
            },
            None => r,
        }
    }
}

/// The healing branch's state after the first `i` targets, independent of
/// narration.
pub open spec fn heal_state(w: Seq<EntModel>, ts: Seq<usize>, amount: i32, i: int) -> Seq<
    EntModel,
> {
    heal_upto(w, Seq::empty(), ts, amount, false, Seq::empty(), i).0
}

/// The machine limit of the healing branch: at each application, either
/// the clamp takes the maximum, or the sum of the target's hit points and
/// the heal amount still fits the hit-point type. Always true for
/// non-negative amounts.
pub open spec fn heal_fits(w: Seq<EntModel>, ts: Seq<usize>, amount: i32, i: int) -> bool
    decreases i,
{
    if i <= 0 {
        true
    } else {
        heal_fits(w, ts, amount, i - 1) && (match heal_state(w, ts, amount, i - 1)[ts[i - 1]
            as int].stats {
            Some(s) => s.max_hp <= s.hp + amount || s.hp + amount >= i32::MIN,
            None => true,
        })
    }
}

/// The limit for a whole pass covers every prefix of it.
pub proof fn lemma_heal_fits_prefix(w: Seq<EntModel>, ts: Seq<usize>, amount: i32, i: int, j: int)
    requires
        0 <= i <= j,
        heal_fits(w, ts, amount, j),
    ensures
        heal_fits(w, ts, amount, i),
    decreases j,
{
    if i < j {
        lemma_heal_fits_prefix(w, ts, amount, i, j - 1);
    }
}

/// The healing branch's state and used flag depend only on the stats of
/// the world it starts from, never on the narration arguments.
#[verifier::rlimit(100)]
#[verifier::spinoff_prover]
pub proof fn lemma_heal_upto_stats(
    a: Seq<EntModel>,
    b: Seq<EntModel>,
    loga: Seq<Seq<char>>,
    logb: Seq<Seq<char>>,
    ts: Seq<usize>,
    amount: i32,
    na: bool,
    nb: bool,
    ia: Seq<char>,
    ib: Seq<char>,
    i: int,
)
    requires
        a.len() == b.len(),
        forall|j: int| 0 <= j < a.len() ==> (#[trigger] a[j]).stats == b[j].stats,
        forall|k: int| 0 <= k < ts.len() ==> (#[trigger] ts[k]) < a.len(),
        0 <= i <= ts.len(),
    ensures
        ({
            let ra = heal_upto(a, loga, ts, amount, na, ia, i);
            let rb = heal_upto(b, logb, ts, amount, nb, ib, i);
            &&& ra.0.len() == a.len()
            &&& rb.0.len() == b.len()
            &&& (forall|j: int| 0 <= j < a.len() ==> (#[trigger] ra.0[j]).stats == rb.0[j].stats)
            &&& ra.2 == rb.2
        }),
    decreases i,
{
    if i > 0 {
        lemma_heal_upto_stats(a, b, loga, logb, ts, amount, na, nb, ia, ib, i - 1);
        let ra0 = heal_upto(a, loga, ts, amount, na, ia, i - 1);
        let rb0 = heal_upto(b, logb, ts, amount, nb, ib, i - 1);
        let t = ts[i - 1] as int;
        assert(ra0.0[t].stats == rb0.0[t].stats);
        assert forall|j: int| 0 <= j < a.len() implies (#[trigger] heal_upto(
            a,
            loga,
            ts,
            amount,
            na,
            ia,
            i,
        ).0[j]).stats == heal_upto(b, logb, ts, amount, nb, ib, i).0[j].stats by {
            assert(ra0.0[j].stats == rb0.0[j].stats);
        }
    }
}

/// Two worlds with the same stats face the same healing machine limit.
pub proof fn lemma_heal_fits_congruent(
    a: Seq<EntModel>,
    b: Seq<EntModel>,
    ts: Seq<usize>,
    amount: i32,
    i: int,
)
    requires
        a.len() == b.len(),
        forall|j: int| 0 <= j < a.len() ==> (#[trigger] a[j]).stats == b[j].stats,
        forall|k: int| 0 <= k < ts.len() ==> (#[trigger] ts[k]) < a.len(),
        0 <= i <= ts.len(),
    ensures
        heal_fits(a, ts, amount, i) == heal_fits(b, ts, amount, i),
    decreases i,
{
    if i > 0 {
        lemma_heal_fits_congruent(a, b, ts, amount, i - 1);
        lemma_heal_upto_stats(
            a,
            b,
            Seq::empty(),
            Seq::empty(),
            ts,
            amount,
            false,
            false,
            Seq::empty(),
            Seq::empty(),
            i - 1,
        );
    }
}

/// The damage branch over the first `i` targets: each target gets a
/// pending damage event; the item counts as used once any target got one.
pub open spec fn damage_upto(
    w: Seq<EntModel>,
    log: Seq<Seq<char>>,
    ts: Seq<usize>,
    d: i32,
    narrate: bool,
    iname: Seq<char>,
    i: int,
) -> (Seq<EntModel>, Seq<Seq<char>>, bool)
    decreases i,
{
    if i <= 0 {
        (w, log, false)
    } else {
        let r = damage_upto(w, log, ts, d, narrate, iname, i - 1);
        let t = ts[i - 1] as int;
        let w1 = r.0.update(
            t,
            EntModel { damage_queue: r.0[t].damage_queue.push(d), ..r.0[t] },
        );
        let log1 = if narrate {
            r.1.push(damage_line(iname, name_of(r.0[t]), d as int))
        } else {
            r.1
        };
        (w1, log1, true)
    }
}

/// The confusion branch over the first `i` targets: each target's
/// confusion status is set, overwriting any prior one.
pub open spec fn confusion_upto(
    w: Seq<EntModel>,
    log: Seq<Seq<char>>,
    ts: Seq<usize>,
    turns: i32,
    narrate: bool,
    iname: Seq<char>,
    i: int,
) -> (Seq<EntModel>, Seq<Seq<char>>, bool)
    decreases i,
{
    if i <= 0 {
        (w, log, false)
    } else {
        let r = confusion_upto(w, log, ts, turns, narrate, iname, i - 1);
        let t = ts[i - 1] as int;
        let w1 = r.0.update(t, EntModel { confusion: Some(turns), ..r.0[t] });
        let log1 = if narrate {
            r.1.push(confusion_line(iname, name_of(r.0[t])))
        } else {
            r.1
        };
        (w1, log1, true)
    }
}

/// The effect branches of one use intent, after targeting and equipping:
/// healing, damage and confusion in that fixed order, then consumption of
/// a used consumable.
pub open spec fn effects_model(
    w: Seq<EntModel>,
    log: Seq<Seq<char>>,
    item: usize,
    ts: Seq<usize>,
    narrate: bool,
) -> (Seq<EntModel>, Seq<Seq<char>>) {
    let r2 = match w[item as int].healing {
        Some(a) => heal_upto(w, log, ts, a, narrate, name_of(w[item as int]), ts.len() as int),
        None => (w, log, false),
    };
    let r3 = match r2.0[item as int].inflicts {
        Some(d) => damage_upto(
            r2.0,
            r2.1,
            ts,
            d,
            narrate,
            name_of(r2.0[item as int]),
            ts.len() as int,
        ),
        None => (r2.0, r2.1, false),
    };
    let r4 = match r3.0[item as int].confusion {
        Some(turns) => confusion_upto(
            r3.0,
            r3.1,
            ts,
            turns,
            narrate,
            name_of(r3.0[item as int]),
            ts.len() as int,
        ),
        None => (r3.0, r3.1, false),
    };
    let used = r2.2 || r3.2 || r4.2;
    let w5 = if used && r4.0[item as int].consumable {
        r4.0.update(item as int, EntModel { pending_delete: true, ..r4.0[item as int] })
    } else {
        r4.0
    };
    (w5, r4.1)
}

/// Resolving one use intent: targeting, then the equip branch, then the
/// effect branches.
pub open spec fn use_step(
    w: Seq<EntModel>,
    log: Seq<Seq<char>>,
    width: int,
    height: int,
    content: Seq<Seq<usize>>,
    player: usize,
    e: int,
    blast: Seq<Point>,
) -> (Seq<EntModel>, Seq<Seq<char>>) {
    let u = w[e].use_intent->Some_0;
    let ts = targets_model(w, width, height, content, e as usize, u, blast);
    let narrate = e == player as int;
    let r1 = match w[u.item as int].equippable {
        Some(slot) => equip_model(w, log, player, u.item, slot, ts[0]),
        None => (w, log),
    };
    effects_model(r1.0, r1.1, u.item, ts, narrate)
}

/// The world and log after the first `i` entities' use intents were
/// resolved, in entity order.
pub open spec fn use_upto(
    w: Seq<EntModel>,
    log: Seq<Seq<char>>,
    width: int,
    height: int,
    content: Seq<Seq<usize>>,
    player: usize,
    blasts: Seq<Seq<Point>>,
    i: int,
) -> (Seq<EntModel>, Seq<Seq<char>>)
    decreases i,
{
    if i <= 0 {
        (w, log)
    } else {
        let r = use_upto(w, log, width, height, content, player, blasts, i - 1);
        if has_use(w, i - 1) {
            use_step(r.0, r.1, width, height, content, player, i - 1, blast_for(w, blasts, i - 1))
        } else {
            r
        }
    }
}

/// All use intents cleared, matched or not.
pub open spec fn clear_uses(w: Seq<EntModel>) -> Seq<EntModel> {
    w.map_values(|m: EntModel| EntModel { use_intent: None, ..m })
}

/// The whole pass of the use system.
pub open spec fn use_model(
    w: Seq<EntModel>,
    log: Seq<Seq<char>>,
    width: int,
    height: int,
    content: Seq<Seq<usize>>,
    player: usize,
    blasts: Seq<Seq<Point>>,
) -> (Seq<EntModel>, Seq<Seq<char>>) {
    let r = use_upto(w, log, width, height, content, player, blasts, w.len() as int);
    (clear_uses(r.0), r.1)
}

/// One use intent is valid in the state `wcur` it will be resolved in:
/// its indices exist, an equippable item has at least one target, the
/// names that its narration will read are present, and each heal
/// application fits the hit-point type.
pub open spec fn use_intent_ok(
    wcur: Seq<EntModel>,
    width: int,
    height: int,
    content: Seq<Seq<usize>>,
    player: usize,
    e: int,
    blast: Seq<Point>,
) -> bool {
    let u = wcur[e].use_intent->Some_0;
    let ts = targets_model(wcur, width, height, content, e as usize, u, blast);
    &&& u.item < wcur.len()
    &&& (u.target matches Some(p) ==> in_bounds_at(width, height, p))
    &&& (wcur[u.item as int].equippable.is_some() ==> ts.len() > 0 && (ts[0] == player
        ==> wcur[u.item as int].name.is_some()))
    &&& (wcur[u.item as int].healing matches Some(a) ==> heal_fits(wcur, ts, a, ts.len() as int)
        && (e == player as int ==> wcur[u.item as int].name.is_some()))
    &&& (e == player as int && wcur[u.item as int].inflicts.is_some() ==> wcur[u.item
        as int].name.is_some() && (forall|k: int|
        0 <= k < ts.len() ==> wcur[#[trigger] ts[k] as int].name.is_some()))
    &&& (e == player as int && wcur[u.item as int].confusion.is_some() ==> wcur[u.item
        as int].name.is_some() && (forall|k: int|
        0 <= k < ts.len() ==> wcur[#[trigger] ts[k] as int].name.is_some()))
}

/// The use system's precondition: the map is indexed, the shell supplied
/// one blast-tile list per area-targeted intent, worn and wearable items
/// are named, and every intent is valid in the state it will be resolved
/// in.
pub open spec fn use_ok(
    w: Seq<EntModel>,
    log: Seq<Seq<char>>,
    width: int,
    height: int,
    content: Seq<Seq<usize>>,
    player: usize,
    blasts: Seq<Seq<Point>>,
) -> bool {
    &&& 0 < width <= MAX_DIM
    &&& 0 < height <= MAX_DIM
    &&& player < w.len()
    &&& content.len() == width * height
    &&& content_ok(content, w.len() as int)
    &&& blasts.len() == aoe_count(w, w.len() as int)
    &&& equip_named(w)
    &&& equippable_named(w)
    &&& forall|e: int|
        has_use(w, e) ==> use_intent_ok(
            (#[trigger] use_upto(w, log, width, height, content, player, blasts, e)).0,
            width,
            height,
            content,
            player,
            e,
            blast_for(w, blasts, e),
        )
}

} // verus!


verus! {

/// The equip branch: evict whatever the first target wears in the slot,
/// then wield the item.
#[verifier::rlimit(30)]
fn equip_branch(
    world: &mut World,
    log: &mut Vec<String>,
    player: usize,
    item: usize,
    slot: EquipSlot,
    t0: usize,
)
    requires
        item < old(world)@.len(),
        equip_named(old(world)@),
        old(world)@[item as int].name.is_some(),
    ensures
        final(world)@ =~= equip_model(
            old(world)@,
            log_view(old(log)@),
            player,
            item,
            slot,
            t0,
        ).0,
        log_view(final(log)@) =~= equip_model(
            old(world)@,
            log_view(old(log)@),
            player,
            item,
            slot,
            t0,
        ).1,
        all_stable(final(world)@, old(world)@),
        equip_named(final(world)@),
        forall|j: int|
            0 <= j < old(world)@.len() ==> (#[trigger] final(world)@[j]).confusion == old(
                world,
            )@[j].confusion && final(world)@[j].stats == old(world)@[j].stats,
{
    let ghost w0 = world@;
    let ghost log0 = log_view(log@);
    let n = world.len();
    let mut j: usize = 0;
    while j < n
        invariant
            j <= n,
            n == w0.len(),
            world@.len() == n,
            item < n,
            w0[item as int].name.is_some(),
            world@ =~= evict_upto(w0, log0, t0, slot, player, j as int).0,
            log_view(log@) =~= evict_upto(w0, log0, t0, slot, player, j as int).1,
            all_stable(world@, w0),
            equip_named(world@),
            forall|j2: int|
                0 <= j2 < n ==> (#[trigger] world@[j2]).confusion == w0[j2].confusion
                    && world@[j2].stats == w0[j2].stats,
        decreases n - j,
    {
        let ghost w_j = world@;
        let ghost log_j = log_view(log@);
        let rj = world.ent(j);
        if rj.alive && rj.equipped.is_some() {
            let eqd = world.ent(j).equipped.unwrap();
            if eqd.owner == t0 && eqd.slot == slot {
                proof {
                    assert(eqd == (EquippedInfo { owner: t0, slot }));
                    assert(w_j[j as int].name.is_some());
                }
                world.set_equipped(j, None);
                world.set_backpack(j, Some(t0));
                if t0 == player {
                    match &world.ent(j).name {
                        Some(nm) => {
                            let line = crate::text::make_unequip_line(nm);
                            push_line(log, line);
                        },
                        None => {
                            proof {
                                assert(world@[j as int].name == w_j[j as int].name);
                                assert(false);
                            }
                        },
                    }
                }
            }
        }
        proof {
            assert(world@ =~= evict_upto(w0, log0, t0, slot, player, j as int + 1).0);
            assert(log_view(log@) =~= evict_upto(w0, log0, t0, slot, player, j as int + 1).1);
        }
        j = j + 1;
    }
    let ghost r_ev_w = world@;
    world.set_equipped(item, Some(EquippedInfo { owner: t0, slot }));
    world.set_backpack(item, None);
    if t0 == player {
        match &world.ent(item).name {
            Some(nm) => {
                let line = crate::text::make_equip_line(nm);
                push_line(log, line);
            },
            None => {
                proof {
                    assert(r_ev_w[item as int].name == w0[item as int].name);
                    assert(false);
                }
            },
        }
    }
    proof {
        assert(world@ =~= equip_model(w0, log0, player, item, slot, t0).0);
        assert(log_view(log@) =~= equip_model(w0, log0, player, item, slot, t0).1);
        assert(world@[item as int].name == w0[item as int].name);
        assert(equip_named(world@));
    }
}

/// The healing branch: heal every target that has combat stats, clamped
/// to its hit-point maximum; returns whether anything was healed.
#[verifier::rlimit(30)]
fn heal_branch(
    world: &mut World,
    log: &mut Vec<String>,
    item: usize,
    amount: i32,
    narrate: bool,
    ts: &Vec<usize>,
) -> (used: bool)
    requires
        item < old(world)@.len(),
        heal_fits(old(world)@, ts@, amount, ts@.len() as int),
        forall|k: int| 0 <= k < ts@.len() ==> (#[trigger] ts@[k]) < old(world)@.len(),
        narrate ==> old(world)@[item as int].name.is_some(),
    ensures
        final(world)@ =~= heal_upto(
            old(world)@,
            log_view(old(log)@),
            ts@,
            amount,
            narrate,
            name_of(old(world)@[item as int]),
            ts@.len() as int,
        ).0,
        log_view(final(log)@) =~= heal_upto(
            old(world)@,
            log_view(old(log)@),
            ts@,
            amount,
            narrate,
            name_of(old(world)@[item as int]),
            ts@.len() as int,
        ).1,
        used == heal_upto(
            old(world)@,
            log_view(old(log)@),
            ts@,
            amount,
            narrate,
            name_of(old(world)@[item as int]),
            ts@.len() as int,
        ).2,
        all_stable(final(world)@, old(world)@),
        forall|j: int|
            0 <= j < old(world)@.len() ==> (#[trigger] final(world)@[j]).equipped == old(
                world,
            )@[j].equipped && final(world)@[j].confusion == old(world)@[j].confusion,
{
    let ghost w0 = world@;
    let ghost log0 = log_view(log@);
    let ghost iname = name_of(w0[item as int]);
    let mut used: bool = false;
    let mut k: usize = 0;
    while k < ts.len()
        invariant
            k <= ts@.len(),
            world@.len() == w0.len(),
            item < w0.len(),
            heal_fits(w0, ts@, amount, ts@.len() as int),
            narrate ==> w0[item as int].name.is_some(),
            forall|k2: int| 0 <= k2 < ts@.len() ==> (#[trigger] ts@[k2]) < w0.len(),
            world@ =~= heal_upto(w0, log0, ts@, amount, narrate, iname, k as int).0,
            log_view(log@) =~= heal_upto(w0, log0, ts@, amount, narrate, iname, k as int).1,
            used == heal_upto(w0, log0, ts@, amount, narrate, iname, k as int).2,
            all_stable(world@, w0),
            world@[item as int].name == w0[item as int].name,
            iname == name_of(w0[item as int]),
            forall|j2: int|
                0 <= j2 < w0.len() ==> (#[trigger] world@[j2]).equipped == w0[j2].equipped
                    && world@[j2].confusion == w0[j2].confusion,
        decreases ts@.len() - k,
    {
        let t = ts[k];
        proof {
            lemma_heal_fits_prefix(w0, ts@, amount, k as int + 1, ts@.len() as int);
            lemma_heal_upto_stats(
                w0,
                w0,
                Seq::empty(),
                log0,
                ts@,
                amount,
                false,
                narrate,
                Seq::empty(),
                iname,
                k as int,
            );
            assert(heal_state(w0, ts@, amount, k as int)[t as int].stats == world@[t as int].stats);
        }
        let st_opt = world.ent(t).stats;
        match st_opt {
            Some(s) => {
                let sum: i64 = (s.hp as i64) + (amount as i64);
                let newhp: i32 = if (s.max_hp as i64) <= sum {
                    s.max_hp
                } else {
                    proof {
                        assert(i32::MIN <= sum < i32::MAX);
                    }
                    sum as i32
                };
                world.set_stats(t, Some(CombatStats { hp: newhp, ..s }));
                if narrate {
                    match &world.ent(item).name {
                        Some(nm) => {
                            let line = crate::text::make_heal_line(nm, amount);
                            push_line(log, line);
                        },
                        None => {
                            proof {
                                assert(false);
                            }
                        },
                    }
                }
                used = true;
            },
            None => {},
        }
        proof {
            assert(world@ =~= heal_upto(w0, log0, ts@, amount, narrate, iname, k as int + 1).0);
            assert(log_view(log@) =~= heal_upto(
                w0,
                log0,
                ts@,
                amount,
                narrate,
                iname,
                k as int + 1,
            ).1);
            assert(used == heal_upto(w0, log0, ts@, amount, narrate, iname, k as int + 1).2);
        }
        k = k + 1;
    }
    used
}

/// The damage branch: queue a pending damage event on every target;
/// returns whether any event was queued.
#[verifier::rlimit(30)]
fn damage_branch(
    world: &mut World,
    log: &mut Vec<String>,
    item: usize,
    d: i32,
    narrate: bool,
    ts: &Vec<usize>,
) -> (used: bool)
    requires
        item < old(world)@.len(),
        forall|k: int| 0 <= k < ts@.len() ==> (#[trigger] ts@[k]) < old(world)@.len(),
        narrate ==> old(world)@[item as int].name.is_some() && (forall|k: int|
            0 <= k < ts@.len() ==> old(world)@[#[trigger] ts@[k] as int].name.is_some()),
    ensures
        final(world)@ =~= damage_upto(
            old(world)@,
            log_view(old(log)@),
            ts@,
            d,
            narrate,
            name_of(old(world)@[item as int]),
            ts@.len() as int,
        ).0,
        log_view(final(log)@) =~= damage_upto(
            old(world)@,
            log_view(old(log)@),
            ts@,
            d,
            narrate,
            name_of(old(world)@[item as int]),
            ts@.len() as int,
        ).1,
        used == damage_upto(
            old(world)@,
            log_view(old(log)@),
            ts@,
            d,
            narrate,
            name_of(old(world)@[item as int]),
            ts@.len() as int,
        ).2,
        all_stable(final(world)@, old(world)@),
        forall|j: int|
            0 <= j < old(world)@.len() ==> (#[trigger] final(world)@[j]).equipped == old(
                world,
            )@[j].equipped && final(world)@[j].confusion == old(world)@[j].confusion,
{
    let ghost w0 = world@;
    let ghost log0 = log_view(log@);
    let ghost iname = name_of(w0[item as int]);
    let mut used: bool = false;
    let mut k: usize = 0;
    while k < ts.len()
        invariant
            k <= ts@.len(),
            world@.len() == w0.len(),
            item < w0.len(),
            narrate ==> w0[item as int].name.is_some() && (forall|k2: int|
                0 <= k2 < ts@.len() ==> w0[#[trigger] ts@[k2] as int].name.is_some()),
            forall|k2: int| 0 <= k2 < ts@.len() ==> (#[trigger] ts@[k2]) < w0.len(),
            world@ =~= damage_upto(w0, log0, ts@, d, narrate, iname, k as int).0,
            log_view(log@) =~= damage_upto(w0, log0, ts@, d, narrate, iname, k as int).1,
            used == damage_upto(w0, log0, ts@, d, narrate, iname, k as int).2,
            all_stable(world@, w0),
            world@[item as int].name == w0[item as int].name,
            iname == name_of(w0[item as int]),
            forall|j2: int|
                0 <= j2 < w0.len() ==> (#[trigger] world@[j2]).equipped == w0[j2].equipped
                    && world@[j2].confusion == w0[j2].confusion,
        decreases ts@.len() - k,
    {
        let t = ts[k];
        let ghost w_k = world@;
        world.push_damage(t, d);
        if narrate {
            proof {
                assert(use_stable(w_k[t as int], w0[t as int]));
                assert(w_k[t as int].name.is_some());
            }
            let line = match &world.ent(t).name {
                Some(tn) => {
                    match &world.ent(item).name {
                        Some(inm) => crate::text::make_damage_line(inm, tn, d),
                        None => {
                            proof {
                                assert(false);
                            }
                            String::new()
                        },
                    }
                },
                None => {
                    proof {
                        assert(world@[t as int].name == w_k[t as int].name);
                        assert(false);
                    }
                    String::new()
                },
            };
            push_line(log, line);
        }
        used = true;
        proof {
            assert(world@ =~= damage_upto(w0, log0, ts@, d, narrate, iname, k as int + 1).0);
            assert(log_view(log@) =~= damage_upto(w0, log0, ts@, d, narrate, iname, k as int + 1).1);
        }
        k = k + 1;
    }
    used
}

/// The confusion branch: set the confusion status of every target,
/// overwriting any prior one; returns whether any was set.
#[verifier::rlimit(30)]
fn confusion_branch(
    world: &mut World,
    log: &mut Vec<String>,
    item: usize,
    turns: i32,
    narrate: bool,
    ts: &Vec<usize>,
) -> (used: bool)
    requires
        item < old(world)@.len(),
        forall|k: int| 0 <= k < ts@.len() ==> (#[trigger] ts@[k]) < old(world)@.len(),
        narrate ==> old(world)@[item as int].name.is_some() && (forall|k: int|
            0 <= k < ts@.len() ==> old(world)@[#[trigger] ts@[k] as int].name.is_some()),
    ensures
        final(world)@ =~= confusion_upto(
            old(world)@,
            log_view(old(log)@),
            ts@,
            turns,
            narrate,
            name_of(old(world)@[item as int]),
            ts@.len() as int,
        ).0,
        log_view(final(log)@) =~= confusion_upto(
            old(world)@,
            log_view(old(log)@),
            ts@,
            turns,
            narrate,
            name_of(old(world)@[item as int]),
            ts@.len() as int,
        ).1,
        used == confusion_upto(
            old(world)@,
            log_view(old(log)@),
            ts@,
            turns,
            narrate,
            name_of(old(world)@[item as int]),
            ts@.len() as int,
        ).2,
        all_stable(final(world)@, old(world)@),
        forall|j: int|
            0 <= j < old(world)@.len() ==> (#[trigger] final(world)@[j]).equipped == old(
                world,
            )@[j].equipped,
{
    let ghost w0 = world@;
    let ghost log0 = log_view(log@);
    let ghost iname = name_of(w0[item as int]);
    let mut used: bool = false;
    let mut k: usize = 0;
    while k < ts.len()
        invariant
            k <= ts@.len(),
            world@.len() == w0.len(),
            item < w0.len(),
            narrate ==> w0[item as int].name.is_some() && (forall|k2: int|
                0 <= k2 < ts@.len() ==> w0[#[trigger] ts@[k2] as int].name.is_some()),
            forall|k2: int| 0 <= k2 < ts@.len() ==> (#[trigger] ts@[k2]) < w0.len(),
            world@ =~= confusion_upto(w0, log0, ts@, turns, narrate, iname, k as int).0,
            log_view(log@) =~= confusion_upto(w0, log0, ts@, turns, narrate, iname, k as int).1,
            used == confusion_upto(w0, log0, ts@, turns, narrate, iname, k as int).2,
            all_stable(world@, w0),
            world@[item as int].name == w0[item as int].name,
            iname == name_of(w0[item as int]),
            forall|j2: int|
                0 <= j2 < w0.len() ==> (#[trigger] world@[j2]).equipped == w0[j2].equipped,
        decreases ts@.len() - k,
    {
        let t = ts[k];
        let ghost w_k = world@;
        world.set_confusion(t, Some(turns));
        if narrate {
            proof {
                assert(use_stable(w_k[t as int], w0[t as int]));
                assert(w_k[t as int].name.is_some());
            }
            let line = match &world.ent(t).name {
                Some(tn) => {
                    match &world.ent(item).name {
                        Some(inm) => crate::text::make_confusion_line(inm, tn),
                        None => {
                            proof {
                                assert(false);
                            }
                            String::new()
                        },
                    }
                },
                None => {
                    proof {
                        assert(world@[t as int].name == w_k[t as int].name);
                        assert(false);
                    }
                    String::new()
                },
            };
            push_line(log, line);
        }
        used = true;
        proof {
            assert(world@ =~= confusion_upto(w0, log0, ts@, turns, narrate, iname, k as int + 1).0);
            assert(log_view(log@) =~= confusion_upto(
                w0,
                log0,
                ts@,
                turns,
                narrate,
                iname,
                k as int + 1,
            ).1);
        }
        k = k + 1;
    }
    used
}

} // verus!

verus! {


/// Stability is transitive.
pub proof fn lemma_stable_trans(a: Seq<EntModel>, b: Seq<EntModel>, c: Seq<EntModel>)
    requires
        all_stable(a, b),
        all_stable(b, c),
    ensures
        all_stable(a, c),
{
    assert forall|j: int| 0 <= j < c.len() implies use_stable(#[trigger] a[j], c[j]) by {
        assert(use_stable(a[j], b[j]));
        assert(use_stable(b[j], c[j]));
    }
}

/// The heal, damage and confusion branches and the consumption check, for
/// an already-resolved target list.
#[verifier::rlimit(100)]
#[verifier::spinoff_prover]
fn apply_effects(
    world: &mut World,
    log: &mut Vec<String>,
    item: usize,
    ts: &Vec<usize>,
    narrate: bool,
) -> (used: bool)
    requires
        item < old(world)@.len(),
        forall|k: int| 0 <= k < ts@.len() ==> (#[trigger] ts@[k]) < old(world)@.len(),
        old(world)@[item as int].healing matches Some(a) ==> heal_fits(
            old(world)@,
            ts@,
            a,
            ts@.len() as int,
        ),
        narrate && (old(world)@[item as int].healing.is_some() || old(world)@[item
            as int].inflicts.is_some() || old(world)@[item as int].confusion.is_some()) ==> old(
            world,
        )@[item as int].name.is_some(),
        narrate && (old(world)@[item as int].inflicts.is_some() || old(world)@[item
            as int].confusion.is_some()) ==> forall|k: int|
            0 <= k < ts@.len() ==> old(world)@[#[trigger] ts@[k] as int].name.is_some(),
        equip_named(old(world)@),
    ensures
        final(world)@ =~= effects_model(
            old(world)@,
            log_view(old(log)@),
            item,
            ts@,
            narrate,
        ).0,
        log_view(final(log)@) =~= effects_model(
            old(world)@,
            log_view(old(log)@),
            item,
            ts@,
            narrate,
        ).1,
        all_stable(final(world)@, old(world)@),
        equip_named(final(world)@),
{
    let ghost w_pre = world@;
    let ghost log_pre = log_view(log@);
    let ghost n = world@.len();
    let mut used_item = false;

    // healing branch
    let heal_opt = world.ent(item).healing;
    match heal_opt {
        Some(amount) => {
            let used_h = heal_branch(world, log, item, amount, narrate, ts);
            used_item = used_h;
        },
        None => {},
    }
    let ghost r2w = world@;
    let ghost r2log = log_view(log@);
    let ghost used2 = used_item;
    proof {
        assert(all_stable(r2w, w_pre));
        assert(forall|j: int|
            0 <= j < n ==> (#[trigger] r2w[j]).equipped == w_pre[j].equipped);
        assert(forall|j: int|
            0 <= j < n ==> (#[trigger] r2w[j]).confusion == w_pre[j].confusion);
        assert(equip_named(r2w));
    }

    // damage branch
    let dmg_opt = world.ent(item).inflicts;
    match dmg_opt {
        Some(d) => {
            proof {
                assert(use_stable(r2w[item as int], w_pre[item as int]));
                if narrate {
                    assert(w_pre[item as int].name.is_some());
                    assert forall|k: int| 0 <= k < ts@.len() implies r2w[#[trigger] ts@[k] as int].name.is_some() by {
                        assert(w_pre[ts@[k] as int].name.is_some());
                        assert(use_stable(r2w[ts@[k] as int], w_pre[ts@[k] as int]));
                    }
                }
            }
            let used_d = damage_branch(world, log, item, d, narrate, ts);
            if used_d {
                used_item = true;
            }
        },
        None => {},
    }
    let ghost r3w = world@;
    let ghost r3log = log_view(log@);
    let ghost used3 = used_item;
    proof {
        assert(all_stable(r3w, r2w));
        assert(forall|j: int|
            0 <= j < n ==> (#[trigger] r3w[j]).equipped == r2w[j].equipped);
        assert(forall|j: int|
            0 <= j < n ==> (#[trigger] r3w[j]).confusion == r2w[j].confusion);
        assert(equip_named(r3w));
        lemma_stable_trans(r3w, r2w, w_pre);
    }

    // confusion branch
    let conf_opt = world.ent(item).confusion;
    match conf_opt {
        Some(turns) => {
            proof {
                assert(r3w[item as int].confusion == w_pre[item as int].confusion);
                if narrate {
                    assert(w_pre[item as int].name.is_some());
                    assert forall|k: int| 0 <= k < ts@.len() implies r3w[#[trigger] ts@[k] as int].name.is_some() by {
                        assert(w_pre[ts@[k] as int].name.is_some());
                        assert(use_stable(r3w[ts@[k] as int], w_pre[ts@[k] as int]));
                    }
                }
            }
            let used_c = confusion_branch(world, log, item, turns, narrate, ts);
            if used_c {
                used_item = true;
            }
        },
        None => {},
    }
    let ghost r4w = world@;
    proof {
        assert(all_stable(r4w, r3w));
        assert(forall|j: int|
            0 <= j < n ==> (#[trigger] r4w[j]).equipped == r3w[j].equipped);
        assert(equip_named(r4w));
        lemma_stable_trans(r4w, r3w, w_pre);
    }

    // consumption
    if used_item {
        if world.ent(item).consumable {
            world.delete_deferred(item);
        }
    }
    proof {
        assert(world@ =~= effects_model(w_pre, log_pre, item, ts@, narrate).0);
        assert(log_view(log@) =~= effects_model(w_pre, log_pre, item, ts@, narrate).1);
        assert(all_stable(world@, r4w));
        lemma_stable_trans(world@, r4w, w_pre);
        assert(equip_named(world@));
    }
    used_item
}

/// Resolve one entity's use intent: targeting, then the equip branch,
/// then the effect branches with consumption.
#[verifier::rlimit(60)]
#[verifier::spinoff_prover]
pub fn process_use_intent(
    world: &mut World,
    map: &MapGrid,
    log: &mut Vec<String>,
    player: usize,
    e: usize,
    blast: &Vec<Point>,
)
    requires
        map.wf(),
        player < old(world)@.len(),
        has_use(old(world)@, e as int),
        use_intent_ok(
            old(world)@,
            map.width as int,
            map.height as int,
            map.contents(),
            player,
            e as int,
            blast@,
        ),
        content_ok(map.contents(), old(world)@.len() as int),
        equip_named(old(world)@),
        equippable_named(old(world)@),
    ensures
        final(world)@ =~= use_step(
            old(world)@,
            log_view(old(log)@),
            map.width as int,
            map.height as int,
            map.contents(),
            player,
            e as int,
            blast@,
        ).0,
        log_view(final(log)@) =~= use_step(
            old(world)@,
            log_view(old(log)@),
            map.width as int,
            map.height as int,
            map.contents(),
            player,
            e as int,
            blast@,
        ).1,
        all_stable(final(world)@, old(world)@),
        equip_named(final(world)@),
{
    let ghost w_pre = world@;
    let ghost log_pre = log_view(log@);
    let ghost n = world@.len();
    let u = world.ent(e).use_intent.unwrap();
    proof {
        assert(u == w_pre[e as int].use_intent->Some_0);
        assert(u.item < n);
    }
    let ts = resolve_targets(world, map, e, u, blast);
    proof {
        lemma_targets_in_range(
            w_pre,
            map.width as int,
            map.height as int,
            map.contents(),
            e,
            u,
            blast@,
            n as int,
        );
    }
    let narrate = e == player;

    // equip branch
    let eq_opt = world.ent(u.item).equippable;
    match eq_opt {
        Some(slot) => {
            proof {
                assert(ts@.len() > 0);
                assert(w_pre[u.item as int].name.is_some());
            }
            let t0 = ts[0];
            equip_branch(world, log, player, u.item, slot, t0);
        },
        None => {},
    }
    let ghost r1w = world@;
    let ghost r1log = log_view(log@);
    proof {
        assert(all_stable(r1w, w_pre));
        assert(equip_named(r1w));
        assert(use_stable(r1w[u.item as int], w_pre[u.item as int]));
        assert(r1w[u.item as int].confusion == w_pre[u.item as int].confusion);
        assert(forall|j: int| 0 <= j < n ==> (#[trigger] r1w[j]).stats == w_pre[j].stats);
        if r1w[u.item as int].healing is Some {
            let a = w_pre[u.item as int].healing->Some_0;
            assert(heal_fits(w_pre, ts@, a, ts@.len() as int));
            lemma_heal_fits_congruent(w_pre, r1w, ts@, a, ts@.len() as int);
            assert(heal_fits(r1w, ts@, a, ts@.len() as int));
        }
        if narrate {
            assert forall|k: int| 0 <= k < ts@.len() implies (r1w[#[trigger] ts@[k] as int].name
                == w_pre[ts@[k] as int].name) by {
                assert(use_stable(r1w[ts@[k] as int], w_pre[ts@[k] as int]));
            }
        }
    }

    let used = apply_effects(world, log, u.item, &ts, narrate);
    proof {
        assert(world@ =~= use_step(
            w_pre,
            log_pre,
            map.width as int,
            map.height as int,
            map.contents(),
            player,
            e as int,
            blast@,
        ).0);
        assert(log_view(log@) =~= use_step(
            w_pre,
            log_pre,
            map.width as int,
            map.height as int,
            map.contents(),
            player,
            e as int,
            blast@,
        ).1);
        lemma_stable_trans(world@, r1w, w_pre);
        assert(equip_named(world@));
    }
}

} // verus!

verus! {

/// Resolves targeting, equipping, healing, damage, confusion and
/// consumption for every pending use intent, then clears them all.
pub struct ItemUseSystem {}

impl ItemUseSystem {
    #[verifier::rlimit(60)]
    #[verifier::spinoff_prover]
    pub fn run(
        &mut self,
        world: &mut World,
        map: &MapGrid,
        log: &mut Vec<String>,
        player: usize,
        blasts: &Vec<Vec<Point>>,
    )
        requires
            map.wf(),
            use_ok(
                old(world)@,
                log_view(old(log)@),
                map.width as int,
                map.height as int,
                map.contents(),
                player,
                blasts_view(blasts@),
            ),
        ensures
            final(world)@ =~= use_model(
                old(world)@,
                log_view(old(log)@),
                map.width as int,
                map.height as int,
                map.contents(),
                player,
                blasts_view(blasts@),
            ).0,
            log_view(final(log)@) =~= use_model(
                old(world)@,
                log_view(old(log)@),
                map.width as int,
                map.height as int,
                map.contents(),
                player,
                blasts_view(blasts@),
            ).1,
    {
        let ghost w0 = world@;
        let ghost log0 = log_view(log@);
        let ghost bl = blasts_view(blasts@);
        let n = world.len();
        let empty_blast: Vec<Point> = Vec::new();
        let bn = blasts.len();
        let mut bi: usize = 0;
        let mut e: usize = 0;
        while e < n
            invariant
                n == w0.len(),
                e <= n,
                world@.len() == n,
                map.wf(),
                use_ok(w0, log0, map.width as int, map.height as int, map.contents(), player, bl),
                bl == blasts_view(blasts@),
                bn == blasts@.len(),
                empty_blast@.len() == 0,
                world@ =~= use_upto(
                    w0,
                    log0,
                    map.width as int,
                    map.height as int,
                    map.contents(),
                    player,
                    bl,
                    e as int,
                ).0,
                log_view(log@) =~= use_upto(
                    w0,
                    log0,
                    map.width as int,
                    map.height as int,
                    map.contents(),
                    player,
                    bl,
                    e as int,
                ).1,
                bi as int == aoe_count(w0, e as int),
                all_stable(world@, w0),
                equip_named(world@),
            decreases n - e,
        {
            let ghost w_pre = world@;
            let ghost log_pre = log_view(log@);
            let rec = world.ent(e);
            let active = rec.alive && rec.use_intent.is_some();
            if active {
                proof {
                    assert(use_stable(w_pre[e as int], w0[e as int]));
                    assert(has_use(w0, e as int));
                    assert(use_intent_ok(
                        w_pre,
                        map.width as int,
                        map.height as int,
                        map.contents(),
                        player,
                        e as int,
                        blast_for(w0, bl, e as int),
                    ));
                    assert(w_pre[e as int].use_intent->Some_0.item < n);
                }
                let u = world.ent(e).use_intent.unwrap();
                let is_aoe = u.target.is_some() && world.ent(u.item).aoe_radius.is_some();
                proof {
                    assert(use_stable(w_pre[u.item as int], w0[u.item as int]));
                    assert(is_aoe == is_aoe_intent(w0, e as int));
                    lemma_aoe_count_nonneg(w0, e as int);
                    if is_aoe_intent(w0, e as int) {
                        lemma_aoe_count_bound(w0, e as int, n as int);
                        assert((bi as int) < bl.len());
                        assert(bl.len() == blasts@.len());
                        assert(bi < bn);
                    }
                    assert(equippable_named(w_pre)) by {
                        assert forall|j: int|
                            0 <= j < n && (#[trigger] w_pre[j]).equippable.is_some() implies w_pre[j].name.is_some() by {
                            assert(use_stable(w_pre[j], w0[j]));
                            assert(w0[j].equippable.is_some());
                            assert(w0[j].name.is_some());
                        }
                    }
                }
                if is_aoe {
                    proof {
                        assert(bl[bi as int] == blasts@[bi as int]@);
                        assert(blast_for(w0, bl, e as int) == blasts@[bi as int]@);
                    }
                    process_use_intent(world, map, log, player, e, &blasts[bi]);
                    bi = bi + 1;
                } else {
                    proof {
                        assert(blast_for(w0, bl, e as int) =~= empty_blast@);
                    }
                    process_use_intent(world, map, log, player, e, &empty_blast);
                }
                proof {
                    assert(world@ =~= use_upto(
                        w0,
                        log0,
                        map.width as int,
                        map.height as int,
                        map.contents(),
                        player,
                        bl,
                        e as int + 1,
                    ).0);
                    assert(log_view(log@) =~= use_upto(
                        w0,
                        log0,
                        map.width as int,
                        map.height as int,
                        map.contents(),
                        player,
                        bl,
                        e as int + 1,
                    ).1);
                    lemma_stable_trans(world@, w_pre, w0);
                }
            } else {
                proof {
                    assert(use_stable(w_pre[e as int], w0[e as int]));
                    assert(!has_use(w0, e as int));
                    assert(!is_aoe_intent(w0, e as int));
                }
            }
            e = e + 1;
        }
        proof {
            assert(world@ =~= use_upto(
                w0,
                log0,
                map.width as int,
                map.height as int,
                map.contents(),
                player,
                bl,
                n as int,
            ).0);
        }
        // defensive clear: every use intent goes, matched or not
        let mut c: usize = 0;
        let ghost w_mid = world@;
        while c < n
            invariant
                n == w_mid.len(),
                c <= n,
                world@.len() == n,
                forall|j: int| 0 <= j < c ==> world@[j] == clear_uses(w_mid)[j],
                forall|j: int| c <= j < n ==> world@[j] == w_mid[j],
                log_view(log@) =~= use_upto(
                    w0,
                    log0,
                    map.width as int,
                    map.height as int,
                    map.contents(),
                    player,
                    bl,
                    n as int,
                ).1,
            decreases n - c,
        {
            world.set_use_intent(c, None);
            c = c + 1;
        }
    }
}

} // verus!
