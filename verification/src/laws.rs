//! The library's stated laws: properties of the item systems proved once,
//! over the same models the systems' contracts use.

use vstd::prelude::*;
use crate::components::{EntModel, EquipSlot, EquippedInfo, Point, UseIntent};
use crate::inventory::{
    aoe_targets, confusion_upto, damage_upto, effects_model, equip_model, evict_upto, has_pickup,
    heal_upto, name_of, pickup_model, pickup_ok, pickup_upto, targets_model, tile_occupants,
};
use crate::map::interior_at;

verus! {

/// After the collection pass, an item a pickup intent named has no floor
/// position and sits in the collector's backpack — provided no two
/// intents fought over the same item — and every pickup intent is gone.
pub proof fn lemma_pickup_effect(
    w: Seq<EntModel>,
    log: Seq<Seq<char>>,
    player: usize,
    e: int,
)
    requires
        pickup_ok(w, player),
        has_pickup(w, e),
        forall|e2: int|
            has_pickup(w, e2) && e2 != e ==> (#[trigger] w[e2].pickup)->Some_0.item
                != w[e].pickup->Some_0.item,
    ensures
        ({
            let p = w[e].pickup->Some_0;
            let r = pickup_model(w, log, player).0;
            &&& r[p.item as int].pos is None
            &&& r[p.item as int].backpack_owner == Some(p.collected_by)
            &&& forall|j: int| 0 <= j < r.len() ==> (#[trigger] r[j]).pickup is None
        }),
{
    let p = w[e].pickup->Some_0;
    lemma_pickup_upto_effect(w, log, player, e, w.len() as int);
}

/// Once entity `e`'s pickup intent has been resolved, and no later intent
/// names the same item, the item stays where the intent put it.
proof fn lemma_pickup_upto_effect(
    w: Seq<EntModel>,
    log: Seq<Seq<char>>,
    player: usize,
    e: int,
    i: int,
)
    requires
        pickup_ok(w, player),
        has_pickup(w, e),
        e < i <= w.len(),
        forall|e2: int|
            has_pickup(w, e2) && e2 != e ==> (#[trigger] w[e2].pickup)->Some_0.item
                != w[e].pickup->Some_0.item,
    ensures
        ({
            let p = w[e].pickup->Some_0;
            let r = pickup_upto(w, log, player, i).0;
            &&& r.len() == w.len()
            &&& r[p.item as int].pos is None
            &&& r[p.item as int].backpack_owner == Some(p.collected_by)
        }),
    decreases i,
{
    let p = w[e].pickup->Some_0;
    lemma_pickup_upto_stable(w, log, player, i - 1);
    let r0 = pickup_upto(w, log, player, i - 1).0;
    if e == i - 1 {
        assert(has_pickup(r0, e));
        assert(r0[e].pickup == w[e].pickup);
        assert(p.item < w.len());
    } else {
        lemma_pickup_upto_effect(w, log, player, e, i - 1);
        if has_pickup(r0, i - 1) {
            assert(has_pickup(w, i - 1));
            assert(r0[i - 1].pickup == w[i - 1].pickup);
            assert(w[i - 1].pickup->Some_0.item != p.item);
            assert(w[i - 1].pickup->Some_0.item < w.len());
        }
    }
}

/// The collection pass never touches the intent components themselves,
/// and never changes the set of entities.
proof fn lemma_pickup_upto_stable(w: Seq<EntModel>, log: Seq<Seq<char>>, player: usize, i: int)
    requires
        pickup_ok(w, player),
        i <= w.len(),
    ensures
        ({
            let r = pickup_upto(w, log, player, i).0;
            &&& r.len() == w.len()
            &&& forall|j: int|
                0 <= j < w.len() ==> (#[trigger] r[j]).pickup == w[j].pickup && r[j].alive
                    == w[j].alive
        }),
    decreases i,
{
    if i > 0 {
        lemma_pickup_upto_stable(w, log, player, i - 1);
        let r0 = pickup_upto(w, log, player, i - 1).0;
        if has_pickup(r0, i - 1) {
            assert(has_pickup(w, i - 1));
            assert(w[i - 1].pickup->Some_0.item < w.len());
        }
    }
}

/// A plain targeted use resolves to every entity on the pointed-at tile:
/// one target per occupant, no more, no fewer, in tile order.
pub proof fn lemma_single_tile_targets(
    w: Seq<EntModel>,
    width: int,
    height: int,
    content: Seq<Seq<usize>>,
    user: usize,
    u: UseIntent,
    pt: Point,
)
    requires
        u.target == Some(pt),
        0 <= u.item < w.len(),
        w[u.item as int].aoe_radius is None,
    ensures
        targets_model(w, width, height, content, user, u, Seq::empty()) == content[idx_at_of(
            width,
            pt,
        )],
        targets_model(w, width, height, content, user, u, Seq::empty()).len() == content[idx_at_of(
            width,
            pt,
        )].len(),
{
}

/// The row-major index of a point.
pub open spec fn idx_at_of(width: int, p: Point) -> int {
    crate::map::idx_at(width, p.x as int, p.y as int)
}

/// An area-targeted use resolves to exactly the occupants of the blast
/// region's interior tiles: an entity is a target precisely when some
/// interior blast tile holds it. Occupants of border tiles are excluded
/// even when the geometry reached them.
pub proof fn lemma_aoe_membership(
    width: int,
    height: int,
    content: Seq<Seq<usize>>,
    blast: Seq<Point>,
    t: usize,
)
    ensures
        aoe_targets(width, height, content, blast).contains(t) <==> exists|b: int|
            0 <= b < blast.len() && interior_at(width, height, #[trigger] blast[b])
                && content[idx_at_of(width, blast[b])].contains(t),
    decreases blast.len(),
{
    if blast.len() == 0 {
    } else {
        let pre = blast.drop_last();
        lemma_aoe_membership(width, height, content, pre, t);
        let p = blast.last();
        let whole = aoe_targets(width, height, content, blast);
        let prefix = aoe_targets(width, height, content, pre);
        if whole.contains(t) {
            let k = choose|k: int| 0 <= k < whole.len() && whole[k] == t;
            if k < prefix.len() {
                assert(prefix.contains(t));
                let b = choose|b: int|
                    0 <= b < pre.len() && interior_at(width, height, pre[b]) && content[idx_at_of(
                        width,
                        pre[b],
                    )].contains(t);
                assert(blast[b] == pre[b]);
            } else {
                assert(interior_at(width, height, p));
                assert(tile_occupants(width, content, p)[k - prefix.len()] == t);
                assert(content[idx_at_of(width, p)].contains(t));
                assert(blast[blast.len() - 1] == p);
            }
        }
        if exists|b: int|
            0 <= b < blast.len() && interior_at(width, height, #[trigger] blast[b])
                && content[idx_at_of(width, blast[b])].contains(t) {
            let b = choose|b: int|
                0 <= b < blast.len() && interior_at(width, height, #[trigger] blast[b])
                    && content[idx_at_of(width, blast[b])].contains(t);
            if b < blast.len() - 1 {
                assert(pre[b] == blast[b]);
                assert(prefix.contains(t));
                let k = choose|k: int| 0 <= k < prefix.len() && prefix[k] == t;
                assert(whole[k] == t);
                assert(whole.contains(t));
            } else {
                assert(interior_at(width, height, p));
                let occ = tile_occupants(width, content, p);
                let k = choose|k: int| 0 <= k < occ.len() && occ[k] == t;
                assert(whole[prefix.len() + k] == t);
                assert(whole.contains(t));
            }
        }
    }
}

/// The eviction scan, characterized entity by entity: exactly the alive
/// entities wearing something in the contested slot are stripped and
/// handed to the target's backpack; everything else is untouched.
proof fn lemma_evict_upto_effect(
    w: Seq<EntModel>,
    log: Seq<Seq<char>>,
    t0: usize,
    slot: EquipSlot,
    player: usize,
    i: int,
)
    requires
        i <= w.len(),
    ensures
        ({
            let r = evict_upto(w, log, t0, slot, player, i).0;
            &&& r.len() == w.len()
            &&& forall|j: int|
                0 <= j < w.len() ==> (#[trigger] r[j]) == (if j < i && w[j].alive && w[j].equipped
                    == Some(EquippedInfo { owner: t0, slot }) {
                    EntModel { equipped: None, backpack_owner: Some(t0), ..w[j] }
                } else {
                    w[j]
                })
        }),
    decreases i,
{
    if i > 0 {
        lemma_evict_upto_effect(w, log, t0, slot, player, i - 1);
    }
}

/// Equipping item X into slot S for owner O evicts every other item that
/// was equipped in (O, S) — each lands in O's backpack — and afterwards X
/// is the only item equipped in (O, S).
pub proof fn lemma_equip_eviction(
    w: Seq<EntModel>,
    log: Seq<Seq<char>>,
    player: usize,
    item: usize,
    slot: EquipSlot,
    t0: usize,
)
    requires
        item < w.len(),
    ensures
        ({
            let r = equip_model(w, log, player, item, slot, t0).0;
            &&& r.len() == w.len()
            &&& r[item as int].equipped == Some(EquippedInfo { owner: t0, slot })
            &&& r[item as int].backpack_owner is None
            &&& forall|j: int|
                0 <= j < w.len() && j != item && w[j].alive && (#[trigger] w[j]).equipped == Some(
                    EquippedInfo { owner: t0, slot },
                ) ==> r[j].equipped is None && r[j].backpack_owner == Some(t0)
            &&& forall|j: int|
                0 <= j < w.len() && (#[trigger] r[j]).equipped == Some(
                    EquippedInfo { owner: t0, slot },
                ) && r[j].alive ==> j == item
        }),
{
    lemma_evict_upto_effect(w, log, t0, slot, player, w.len() as int);
}

/// Healing never raises hit points above the maximum: each target with
/// combat stats ends at the smaller of its maximum and its old hit
/// points plus the heal amount — provided no target is named twice.
pub proof fn lemma_heal_clamp(
    w: Seq<EntModel>,
    log: Seq<Seq<char>>,
    ts: Seq<usize>,
    amount: i32,
    narrate: bool,
    iname: Seq<char>,
    i: int,
)
    requires
        0 <= i <= ts.len(),
        forall|k: int| 0 <= k < ts.len() ==> (#[trigger] ts[k]) < w.len(),
        forall|k1: int, k2: int|
            0 <= k1 < ts.len() && 0 <= k2 < ts.len() && k1 != k2 ==> ts[k1] != ts[k2],
    ensures
        ({
            let r = heal_upto(w, log, ts, amount, narrate, iname, i).0;
            &&& r.len() == w.len()
            &&& forall|j: int|
                0 <= j < w.len() && !ts.take(i).contains(j as usize) ==> (#[trigger] r[j]) == w[j]
            &&& forall|k: int|
                0 <= k < i ==> (#[trigger] r[ts[k] as int]).stats == (match w[ts[k] as int].stats {
                    Some(s) => Some(
                        crate::components::CombatStats {
                            hp: (if s.max_hp <= s.hp + amount {
                                s.max_hp as int
                            } else {
                                s.hp + amount
                            }) as i32,
                            ..s
                        },
                    ),
                    None => None,
                })
        }),
    decreases i,
{
    if i > 0 {
        lemma_heal_clamp(w, log, ts, amount, narrate, iname, i - 1);
        let r0 = heal_upto(w, log, ts, amount, narrate, iname, i - 1).0;
        let t = ts[i - 1];
        assert(!ts.take(i - 1).contains(t));
        assert(r0[t as int] == w[t as int]);
        assert forall|j: int|
            0 <= j < w.len() && !ts.take(i).contains(j as usize) implies (#[trigger] heal_upto(
            w,
            log,
            ts,
            amount,
            narrate,
            iname,
            i,
        ).0[j]) == w[j] by {
            assert(ts.take(i)[i - 1] == t);
            if j != t {
                assert(!ts.take(i - 1).contains(j as usize)) by {
                    if ts.take(i - 1).contains(j as usize) {
                        let k = choose|k: int|
                            0 <= k < i - 1 && #[trigger] ts.take(i - 1)[k] == j as usize;
                        assert(ts.take(i)[k] == j as usize);
                    }
                }
            }
        }
        assert forall|k: int| 0 <= k < i implies (#[trigger] heal_upto(
            w,
            log,
            ts,
            amount,
            narrate,
            iname,
            i,
        ).0[ts[k] as int]).stats == (match w[ts[k] as int].stats {
            Some(s) => Some(
                crate::components::CombatStats {
                    hp: (if s.max_hp <= s.hp + amount {
                        s.max_hp as int
                    } else {
                        s.hp + amount
                    }) as i32,
                    ..s
                },
            ),
            None => None,
        }) by {
            if k < i - 1 {
                assert(ts[k] != t);
            }
        }
    }
}

/// Equipping preserves the worn-item invariant: if at most one item was
/// equipped per (owner, slot) pair before, the same holds afterwards.
pub proof fn lemma_equip_uniqueness_preserved(
    w: Seq<EntModel>,
    log: Seq<Seq<char>>,
    player: usize,
    item: usize,
    slot: EquipSlot,
    t0: usize,
)
    requires
        item < w.len(),
        crate::world::wf_equip_unique(w),
    ensures
        crate::world::wf_equip_unique(equip_model(w, log, player, item, slot, t0).0),
{
    lemma_evict_upto_effect(w, log, t0, slot, player, w.len() as int);
    let r = equip_model(w, log, player, item, slot, t0).0;
    assert forall|i: int, j: int|
        0 <= i < r.len() && 0 <= j < r.len() && r[i].alive && r[j].alive && r[i].equipped.is_some()
            && r[i].equipped == r[j].equipped implies i == j by {
        if i != j {
            if i == item || j == item {
                let other = if i == item { j } else { i };
                assert(r[other].equipped == Some(EquippedInfo { owner: t0, slot }));
                assert(w[other].alive);
                assert(r[other].equipped is None || r[other].equipped == w[other].equipped);
                assert(w[other].equipped == Some(EquippedInfo { owner: t0, slot }));
                assert(r[other].equipped is None);
            } else {
                assert(r[i].equipped == w[i].equipped);
                assert(r[j].equipped == w[j].equipped);
                assert(w[i].alive && w[j].alive);
            }
        }
    }
}

/// The damage branch reports the item used exactly when it had targets.
proof fn lemma_damage_used(
    w: Seq<EntModel>,
    log: Seq<Seq<char>>,
    ts: Seq<usize>,
    d: i32,
    narrate: bool,
    iname: Seq<char>,
    i: int,
)
    ensures
        damage_upto(w, log, ts, d, narrate, iname, i).2 == (i > 0),
    decreases i,
{
    if i > 0 {
        lemma_damage_used(w, log, ts, d, narrate, iname, i - 1);
    }
}

/// The confusion branch reports the item used exactly when it had
/// targets.
proof fn lemma_confusion_used(
    w: Seq<EntModel>,
    log: Seq<Seq<char>>,
    ts: Seq<usize>,
    turns: i32,
    narrate: bool,
    iname: Seq<char>,
    i: int,
)
    ensures
        confusion_upto(w, log, ts, turns, narrate, iname, i).2 == (i > 0),
    decreases i,
{
    if i > 0 {
        lemma_confusion_used(w, log, ts, turns, narrate, iname, i - 1);
    }
}

/// The healing branch reports the item used exactly when some target had
/// combat stats, and it never touches stats presence, item components, or
/// deletion marks.
proof fn lemma_heal_used(
    w: Seq<EntModel>,
    log: Seq<Seq<char>>,
    ts: Seq<usize>,
    amount: i32,
    narrate: bool,
    iname: Seq<char>,
    i: int,
)
    requires
        forall|k: int| 0 <= k < ts.len() ==> (#[trigger] ts[k]) < w.len(),
        0 <= i <= ts.len(),
    ensures
        ({
            let r = heal_upto(w, log, ts, amount, narrate, iname, i);
            &&& r.0.len() == w.len()
            &&& forall|j: int|
                0 <= j < w.len() ==> (#[trigger] r.0[j]).stats.is_some() == w[j].stats.is_some()
                    && r.0[j].healing == w[j].healing && r.0[j].inflicts == w[j].inflicts
                    && r.0[j].confusion == w[j].confusion && r.0[j].consumable == w[j].consumable
                    && r.0[j].pending_delete == w[j].pending_delete
            &&& r.2 == exists|k: int| 0 <= k < i && w[#[trigger] ts[k] as int].stats.is_some()
        }),
    decreases i,
{
    if i > 0 {
        lemma_heal_used(w, log, ts, amount, narrate, iname, i - 1);
        let r0 = heal_upto(w, log, ts, amount, narrate, iname, i - 1);
        if w[ts[i - 1] as int].stats.is_some() {
            assert(r0.0[ts[i - 1] as int].stats.is_some());
        }
        let r = heal_upto(w, log, ts, amount, narrate, iname, i);
        if r.2 {
            if r0.2 {
                let k = choose|k: int| 0 <= k < i - 1 && w[#[trigger] ts[k] as int].stats.is_some();
                assert(0 <= k < i && w[ts[k] as int].stats.is_some());
            } else {
                assert(w[ts[i - 1] as int].stats.is_some());
            }
        }
    }
}

/// Whether a use with the given target list triggers any of healing,
/// damage or confusion.
pub open spec fn triggers_effect(w: Seq<EntModel>, item: usize, ts: Seq<usize>) -> bool {
    ||| (w[item as int].healing.is_some() && exists|k: int|
        0 <= k < ts.len() && w[#[trigger] ts[k] as int].stats.is_some())
    ||| (w[item as int].inflicts.is_some() && ts.len() > 0)
    ||| (w[item as int].confusion.is_some() && ts.len() > 0)
}

/// A consumable item that triggers at least one of healing, damage or
/// confusion is marked for deletion after its effects resolve; one whose
/// only applicable branch was equipping is not.
pub proof fn lemma_consumption(
    w: Seq<EntModel>,
    log: Seq<Seq<char>>,
    item: usize,
    ts: Seq<usize>,
    narrate: bool,
)
    requires
        item < w.len(),
        forall|k: int| 0 <= k < ts.len() ==> (#[trigger] ts[k]) < w.len(),
    ensures
        ({
            let r = effects_model(w, log, item, ts, narrate).0;
            &&& r.len() == w.len()
            &&& r[item as int].pending_delete == (w[item as int].pending_delete || (w[item
                as int].consumable && triggers_effect(w, item, ts)))
        }),
{
    let iname2 = name_of(w[item as int]);
    lemma_heal_used(w, log, ts, 0, narrate, iname2, ts.len() as int);
    let r2 = match w[item as int].healing {
        Some(a) => heal_upto(w, log, ts, a, narrate, name_of(w[item as int]), ts.len() as int),
        None => (w, log, false),
    };
    match w[item as int].healing {
        Some(a) => {
            lemma_heal_used(w, log, ts, a, narrate, name_of(w[item as int]), ts.len() as int);
        },
        None => {},
    }
    let r3 = match r2.0[item as int].inflicts {
        Some(d) => damage_upto(
            r2.0,
            r2.1,
            ts,
            d,
            narrate,
            name_of(r2.0[item as int]),
            ts.len() as int,
        ),
        None => (r2.0, r2.1, false),
    };
    match r2.0[item as int].inflicts {
        Some(d) => {
            lemma_damage_used(
                r2.0,
                r2.1,
                ts,
                d,
                narrate,
                name_of(r2.0[item as int]),
                ts.len() as int,
            );
            lemma_damage_frame(
                r2.0,
                r2.1,
                ts,
                d,
                narrate,
                name_of(r2.0[item as int]),
                ts.len() as int,
            );
        },
        None => {},
    }
    match r3.0[item as int].confusion {
        Some(t2) => {
            lemma_confusion_used(
                r3.0,
                r3.1,
                ts,
                t2,
                narrate,
                name_of(r3.0[item as int]),
                ts.len() as int,
            );
            lemma_confusion_frame(
                r3.0,
                r3.1,
                ts,
                t2,
                narrate,
                name_of(r3.0[item as int]),
                ts.len() as int,
            );
        },
        None => {},
    }
}

/// The damage branch never touches item components or deletion marks.
proof fn lemma_damage_frame(
    w: Seq<EntModel>,
    log: Seq<Seq<char>>,
    ts: Seq<usize>,
    d: i32,
    narrate: bool,
    iname: Seq<char>,
    i: int,
)
    requires
        0 <= i <= ts.len(),
        forall|k: int| 0 <= k < ts.len() ==> (#[trigger] ts[k]) < w.len(),
    ensures
        ({
            let r = damage_upto(w, log, ts, d, narrate, iname, i);
            &&& r.0.len() == w.len()
            &&& forall|j: int|
                0 <= j < w.len() ==> (#[trigger] r.0[j]).healing == w[j].healing && r.0[j].inflicts
                    == w[j].inflicts && r.0[j].confusion == w[j].confusion && r.0[j].consumable
                    == w[j].consumable && r.0[j].pending_delete == w[j].pending_delete
        }),
    decreases i,
{
    if i > 0 {
        lemma_damage_frame(w, log, ts, d, narrate, iname, i - 1);
    }
}

/// The confusion branch never touches item components other than the
/// confusion status, nor deletion marks.
proof fn lemma_confusion_frame(
    w: Seq<EntModel>,
    log: Seq<Seq<char>>,
    ts: Seq<usize>,
    turns: i32,
    narrate: bool,
    iname: Seq<char>,
    i: int,
)
    requires
        0 <= i <= ts.len(),
        forall|k: int| 0 <= k < ts.len() ==> (#[trigger] ts[k]) < w.len(),
    ensures
        ({
            let r = confusion_upto(w, log, ts, turns, narrate, iname, i);
            &&& r.0.len() == w.len()
            &&& forall|j: int|
                0 <= j < w.len() ==> (#[trigger] r.0[j]).healing == w[j].healing && r.0[j].inflicts
                    == w[j].inflicts && r.0[j].consumable == w[j].consumable
                    && r.0[j].pending_delete == w[j].pending_delete
        }),
    decreases i,
{
    if i > 0 {
        lemma_confusion_frame(w, log, ts, turns, narrate, iname, i - 1);
    }
}

} // verus!
