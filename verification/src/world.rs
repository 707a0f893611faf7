//! The world state store: every entity and its attached components, with
//! deferred deletion flushed at a defined point (`maintain`).

use vstd::prelude::*;
use crate::components::{CombatStats, EntModel, EntityRec, EquippedInfo, Point, UseIntent};

verus! {

/// Holds all entities. An entity is an index into `ents`; deletion clears
/// its `alive` flag and the record's slot is never reused, so indices are
/// stable.
pub struct World {
    pub ents: Vec<EntityRec>,
}

impl View for World {
    type V = Seq<EntModel>;

    open spec fn view(&self) -> Seq<EntModel> {
        self.ents@.map_values(|e: EntityRec| e@)
    }
}

/// At most one item is equipped per (owner, slot) pair.
pub open spec fn wf_equip_unique(w: Seq<EntModel>) -> bool {
    forall|i: int, j: int|
        0 <= i < w.len() && 0 <= j < w.len() && w[i].alive && w[j].alive && w[i].equipped.is_some()
            && w[i].equipped == w[j].equipped ==> i == j
}

/// The sum of a damage queue.
pub open spec fn sum_of(s: Seq<i32>) -> int
    decreases s.len(),
{
    if s.len() == 0 {
        0
    } else {
        sum_of(s.drop_last()) + s.last()
    }
}

/// One entity after the structural-edit flush.
pub open spec fn committed(m: EntModel) -> EntModel {
    EntModel { alive: m.alive && !m.pending_delete, pending_delete: false, ..m }
}

/// The world after the structural-edit flush: every entity whose deletion
/// was deferred stops being alive.
pub open spec fn maintain_model(w: Seq<EntModel>) -> Seq<EntModel> {
    w.map_values(|m: EntModel| committed(m))
}

impl World {
    /// An empty store.
    pub fn new() -> (r: World)
        ensures
            r@ =~= Seq::<EntModel>::empty(),
    {
        World { ents: Vec::new() }
    }

    pub fn len(&self) -> (n: usize)
        ensures
            n == self@.len(),
    {
        self.ents.len()
    }

    /// Create an entity from a prepared record; returns its index.
    pub fn push_entity(&mut self, e: EntityRec) -> (id: usize)
        ensures
            final(self)@ =~= old(self)@.push(e@),
            id == old(self)@.len(),
    {
        let id = self.ents.len();
        self.ents.push(e);
        id
    }

    /// Read an entity's record.
    pub fn ent(&self, e: usize) -> (r: &EntityRec)
        requires
            e < self@.len(),
        ensures
            r@ == self@[e as int],
    {
        &self.ents[e]
    }

    /// Delete an entity at once, as the level transition and the
    /// dead-collection pass do.
    pub fn delete_now(&mut self, e: usize)
        requires
            e < old(self)@.len(),
        ensures
            final(self)@ =~= old(self)@.update(
                e as int,
                EntModel { alive: false, ..old(self)@[e as int] },
            ),
    {
        self.ents[e].alive = false;
    }

    /// Queue an entity's deletion for the next flush, as the item-use
    /// system does when an item is consumed.
    pub fn delete_deferred(&mut self, e: usize)
        requires
            e < old(self)@.len(),
        ensures
            final(self)@ =~= old(self)@.update(
                e as int,
                EntModel { pending_delete: true, ..old(self)@[e as int] },
            ),
    {
        self.ents[e].pending_delete = true;
    }

    /// Commit one entity's queued deletion.
    fn commit_delete(&mut self, e: usize)
        requires
            e < old(self)@.len(),
        ensures
            final(self)@ =~= old(self)@.update(e as int, committed(old(self)@[e as int])),
    {
        if self.ents[e].pending_delete {
            self.ents[e].alive = false;
        }
        self.ents[e].pending_delete = false;
    }

    /// The structural-edit flush: commit queued deletions.
    pub fn maintain(&mut self)
        ensures
            final(self)@ =~= maintain_model(old(self)@),
    {
        let n = self.ents.len();
        let mut e: usize = 0;
        while e < n
            invariant
                n == old(self)@.len(),
                e <= n,
                self@.len() == n,
                forall|i: int| 0 <= i < e ==> self@[i] == committed(old(self)@[i]),
                forall|i: int| e <= i < n ==> self@[i] == old(self)@[i],
            decreases n - e,
        {
            self.commit_delete(e);
            e = e + 1;
        }
    }

    pub fn set_pos(&mut self, e: usize, v: Option<Point>)
        requires
            e < old(self)@.len(),
        ensures
            final(self)@ =~= old(self)@.update(
                e as int,
                EntModel { pos: v, ..old(self)@[e as int] },
            ),
    {
        self.ents[e].pos = v;
    }

    pub fn set_backpack(&mut self, e: usize, v: Option<usize>)
        requires
            e < old(self)@.len(),
        ensures
            final(self)@ =~= old(self)@.update(
                e as int,
                EntModel { backpack_owner: v, ..old(self)@[e as int] },
            ),
    {
        self.ents[e].backpack_owner = v;
    }

    pub fn set_equipped(&mut self, e: usize, v: Option<EquippedInfo>)
        requires
            e < old(self)@.len(),
        ensures
            final(self)@ =~= old(self)@.update(
                e as int,
                EntModel { equipped: v, ..old(self)@[e as int] },
            ),
    {
        self.ents[e].equipped = v;
    }

    pub fn set_stats(&mut self, e: usize, v: Option<CombatStats>)
        requires
            e < old(self)@.len(),
        ensures
            final(self)@ =~= old(self)@.update(
                e as int,
                EntModel { stats: v, ..old(self)@[e as int] },
            ),
    {
        self.ents[e].stats = v;
    }

    pub fn push_damage(&mut self, e: usize, amount: i32)
        requires
            e < old(self)@.len(),
        ensures
            final(self)@ =~= old(self)@.update(
                e as int,
                EntModel {
                    damage_queue: old(self)@[e as int].damage_queue.push(amount),
                    ..old(self)@[e as int]
                },
            ),
    {
        self.ents[e].damage_queue.push(amount);
    }

    pub fn clear_damage(&mut self, e: usize)
        requires
            e < old(self)@.len(),
        ensures
            final(self)@ =~= old(self)@.update(
                e as int,
                EntModel { damage_queue: Seq::empty(), ..old(self)@[e as int] },
            ),
    {
        self.ents[e].damage_queue.clear();
    }

    pub fn set_confusion(&mut self, e: usize, v: Option<i32>)
        requires
            e < old(self)@.len(),
        ensures
            final(self)@ =~= old(self)@.update(
                e as int,
                EntModel { confusion: v, ..old(self)@[e as int] },
            ),
    {
        self.ents[e].confusion = v;
    }

    pub fn set_viewshed_dirty(&mut self, e: usize, v: bool)
        requires
            e < old(self)@.len(),
        ensures
            final(self)@ =~= old(self)@.update(
                e as int,
                EntModel { viewshed_dirty: v, ..old(self)@[e as int] },
            ),
    {
        self.ents[e].viewshed_dirty = v;
    }

    pub fn set_pickup(&mut self, e: usize, v: Option<crate::components::PickupIntent>)
        requires
            e < old(self)@.len(),
        ensures
            final(self)@ =~= old(self)@.update(
                e as int,
                EntModel { pickup: v, ..old(self)@[e as int] },
            ),
    {
        self.ents[e].pickup = v;
    }

    pub fn set_use_intent(&mut self, e: usize, v: Option<UseIntent>)
        requires
            e < old(self)@.len(),
        ensures
            final(self)@ =~= old(self)@.update(
                e as int,
                EntModel { use_intent: v, ..old(self)@[e as int] },
            ),
    {
        self.ents[e].use_intent = v;
    }

    pub fn set_remove_intent(&mut self, e: usize, v: Option<usize>)
        requires
            e < old(self)@.len(),
        ensures
            final(self)@ =~= old(self)@.update(
                e as int,
                EntModel { remove_intent: v, ..old(self)@[e as int] },
            ),
    {
        self.ents[e].remove_intent = v;
    }

    pub fn set_melee_intent(&mut self, e: usize, v: Option<usize>)
        requires
            e < old(self)@.len(),
        ensures
            final(self)@ =~= old(self)@.update(
                e as int,
                EntModel { melee_intent: v, ..old(self)@[e as int] },
            ),
    {
        self.ents[e].melee_intent = v;
    }
}

} // verus!
