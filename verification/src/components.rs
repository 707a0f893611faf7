//! The component records that can be attached to an entity, and the ghost
//! model that contracts speak of.

use vstd::prelude::*;

verus! {

/// A map coordinate.
#[derive(Clone, Copy, PartialEq, Eq, Structural, Debug)]
pub struct Point {
    pub x: i32,
    pub y: i32,
}

/// The equipment slot an equippable item occupies.
#[derive(Clone, Copy, PartialEq, Eq, Structural, Debug)]
pub enum EquipSlot {
    Melee,
    Shield,
}

/// Mutable combat state of a creature.
#[derive(Clone, Copy, PartialEq, Eq, Structural, Debug)]
pub struct CombatStats {
    pub max_hp: i32,
    pub hp: i32,
    pub defense: i32,
    pub power: i32,
}

/// Ownership edge of a worn item: who wears it, and in which slot.
#[derive(Clone, Copy, PartialEq, Eq, Structural, Debug)]
pub struct EquippedInfo {
    pub owner: usize,
    pub slot: EquipSlot,
}

/// One-turn intent: an entity wants to pick an item up from the floor.
#[derive(Clone, Copy, Debug)]
pub struct PickupIntent {
    pub collected_by: usize,
    pub item: usize,
}

/// One-turn intent: an entity wants to use an item, aimed at an optional
/// target point.
#[derive(Clone, Copy, Debug)]
pub struct UseIntent {
    pub item: usize,
    pub target: Option<Point>,
}

/// One entity's attached components. `None` (or `false`, or an empty vector)
/// means the component is absent.
pub struct EntityRec {
    /// The entity exists. Cleared by entity deletion.
    pub alive: bool,
    /// A deferred deletion was queued; committed by `World::maintain`.
    pub pending_delete: bool,
    /// Tag: this is the player-controlled entity.
    pub is_player: bool,
    /// Tag: the entity blocks its tile.
    pub blocks_tile: bool,
    /// Floor location; absent while an item is held or worn.
    pub pos: Option<Point>,
    /// Ownership edge of a carried item: the holding entity.
    pub backpack_owner: Option<usize>,
    /// Ownership edge of a worn item.
    pub equipped: Option<EquippedInfo>,
    /// Combat state.
    pub stats: Option<CombatStats>,
    /// Pending damage amounts, committed by the damage system.
    pub damage_queue: Vec<i32>,
    /// Confusion status: remaining turns.
    pub confusion: Option<i32>,
    /// Item effect: heals this many hit points.
    pub healing: Option<i32>,
    /// Item effect: inflicts this much damage.
    pub inflicts: Option<i32>,
    /// Item effect: blast radius of an area-of-effect item.
    pub aoe_radius: Option<i32>,
    /// Tag: the item is destroyed after a successful use.
    pub consumable: bool,
    /// The item can be worn in this slot.
    pub equippable: Option<EquipSlot>,
    /// The item is aimed at a point within this range.
    pub ranged: Option<i32>,
    /// Display label used in narration.
    pub name: Option<String>,
    /// The entity's visible-tile set must be recomputed.
    pub viewshed_dirty: bool,
    /// One-turn intents, consumed by their systems.
    pub pickup: Option<PickupIntent>,
    pub use_intent: Option<UseIntent>,
    pub remove_intent: Option<usize>,
    pub melee_intent: Option<usize>,
}

/// Ghost mirror of `EntityRec`: vectors and strings become sequences.
pub ghost struct EntModel {
    pub alive: bool,
    pub pending_delete: bool,
    pub is_player: bool,
    pub blocks_tile: bool,
    pub pos: Option<Point>,
    pub backpack_owner: Option<usize>,
    pub equipped: Option<EquippedInfo>,
    pub stats: Option<CombatStats>,
    pub damage_queue: Seq<i32>,
    pub confusion: Option<i32>,
    pub healing: Option<i32>,
    pub inflicts: Option<i32>,
    pub aoe_radius: Option<i32>,
    pub consumable: bool,
    pub equippable: Option<EquipSlot>,
    pub ranged: Option<i32>,
    pub name: Option<Seq<char>>,
    pub viewshed_dirty: bool,
    pub pickup: Option<PickupIntent>,
    pub use_intent: Option<UseIntent>,
    pub remove_intent: Option<usize>,
    pub melee_intent: Option<usize>,
}

impl View for EntityRec {
    type V = EntModel;

    open spec fn view(&self) -> EntModel {
        EntModel {
            alive: self.alive,
            pending_delete: self.pending_delete,
            is_player: self.is_player,
            blocks_tile: self.blocks_tile,
            pos: self.pos,
            backpack_owner: self.backpack_owner,
            equipped: self.equipped,
            stats: self.stats,
            damage_queue: self.damage_queue@,
            confusion: self.confusion,
            healing: self.healing,
            inflicts: self.inflicts,
            aoe_radius: self.aoe_radius,
            consumable: self.consumable,
            equippable: self.equippable,
            ranged: self.ranged,
            name: match self.name {
                Some(ref n) => Some(n@),
                None => None,
            },
            viewshed_dirty: self.viewshed_dirty,
            pickup: self.pickup,
            use_intent: self.use_intent,
            remove_intent: self.remove_intent,
            melee_intent: self.melee_intent,
        }
    }
}

impl EntityRec {
    /// A fresh entity with no components attached.
    pub fn new() -> (r: EntityRec)
        ensures
            r@ == blank_ent(),
    {
        EntityRec {
            alive: true,
            pending_delete: false,
            is_player: false,
            blocks_tile: false,
            pos: None,
            backpack_owner: None,
            equipped: None,
            stats: None,
            damage_queue: Vec::new(),
            confusion: None,
            healing: None,
            inflicts: None,
            aoe_radius: None,
            consumable: false,
            equippable: None,
            ranged: None,
            name: None,
            viewshed_dirty: false,
            pickup: None,
            use_intent: None,
            remove_intent: None,
            melee_intent: None,
        }
    }
}

/// The model of a fresh entity with no components attached.
pub open spec fn blank_ent() -> EntModel {
    EntModel {
        alive: true,
        pending_delete: false,
        is_player: false,
        blocks_tile: false,
        pos: None,
        backpack_owner: None,
        equipped: None,
        stats: None,
        damage_queue: Seq::empty(),
        confusion: None,
        healing: None,
        inflicts: None,
        aoe_radius: None,
        consumable: false,
        equippable: None,
        ranged: None,
        name: None,
        viewshed_dirty: false,
        pickup: None,
        use_intent: None,
        remove_intent: None,
        melee_intent: None,
    }
}

} // verus!
