use roguelike_core::components::{CombatStats, EntityRec, EquipSlot, EquippedInfo, PickupIntent,
    Point, UseIntent};
use roguelike_core::inventory::{ItemCollectionSystem, ItemRemoveSystem, ItemUseSystem};
use roguelike_core::map::MapGrid;
use roguelike_core::systems::MapIndexingSystem;
use roguelike_core::world::World;

fn player_rec(hp: i32, max_hp: i32) -> EntityRec {
    let mut e = EntityRec::new();
    e.is_player = true;
    e.name = Some(String::from("Player"));
    e.stats = Some(CombatStats { max_hp, hp, defense: 2, power: 5 });
    e.pos = Some(Point { x: 1, y: 1 });
    e
}

#[test]
fn healing_potion_is_drunk_and_consumed() {
    // an entity at 5/20 hp drinks a consumable potion of healing 10:
    // hp becomes 15 and the potion stops existing
    let mut world = World::new();
    let player = world.push_entity(player_rec(5, 20));
    let mut potion = EntityRec::new();
    potion.name = Some(String::from("Health Potion"));
    potion.healing = Some(10);
    potion.consumable = true;
    potion.backpack_owner = Some(player);
    let potion_id = world.push_entity(potion);
    world.ents[player].use_intent = Some(UseIntent { item: potion_id, target: None });

    let map = MapGrid::new(10, 10, 1);
    let mut log: Vec<String> = Vec::new();
    let blasts: Vec<Vec<Point>> = Vec::new();
    let mut sys = ItemUseSystem {};
    sys.run(&mut world, &map, &mut log, player, &blasts);
    world.maintain();

    assert_eq!(world.ents[player].stats.unwrap().hp, 15);
    assert!(!world.ents[potion_id].alive);
    assert_eq!(log.len(), 1);
    assert_eq!(log[0], "You use the Health Potion, healing 10 hp");
    assert!(world.ents[player].use_intent.is_none());
}

#[test]
fn healing_clamps_at_max_hp() {
    // hp' = min(max_hp, hp + amount)
    let mut world = World::new();
    let player = world.push_entity(player_rec(18, 20));
    let mut potion = EntityRec::new();
    potion.name = Some(String::from("Health Potion"));
    potion.healing = Some(10);
    potion.consumable = true;
    let potion_id = world.push_entity(potion);
    world.ents[player].use_intent = Some(UseIntent { item: potion_id, target: None });

    let map = MapGrid::new(10, 10, 1);
    let mut log: Vec<String> = Vec::new();
    let blasts: Vec<Vec<Point>> = Vec::new();
    let mut sys = ItemUseSystem {};
    sys.run(&mut world, &map, &mut log, player, &blasts);

    assert_eq!(world.ents[player].stats.unwrap().hp, 20);
}

#[test]
fn aoe_scroll_damages_all_occupants_and_is_destroyed() {
    // a fireball of damage 8, radius 2, aimed at a tile region holding
    // three monsters: all three get a pending damage event of 8 and the
    // scroll is destroyed
    let mut world = World::new();
    let player = world.push_entity(player_rec(20, 20));
    let mut monster_ids = Vec::new();
    let spots = [(5, 5), (5, 6), (6, 5)];
    for (i, (x, y)) in spots.iter().enumerate() {
        let mut m = EntityRec::new();
        m.name = Some(format!("Goblin {}", i));
        m.stats = Some(CombatStats { max_hp: 16, hp: 16, defense: 1, power: 4 });
        m.pos = Some(Point { x: *x, y: *y });
        m.blocks_tile = true;
        monster_ids.push(world.push_entity(m));
    }
    let mut scroll = EntityRec::new();
    scroll.name = Some(String::from("Fireball Scroll"));
    scroll.inflicts = Some(8);
    scroll.aoe_radius = Some(2);
    scroll.consumable = true;
    scroll.backpack_owner = Some(player);
    let scroll_id = world.push_entity(scroll);
    world.ents[player].use_intent =
        Some(UseIntent { item: scroll_id, target: Some(Point { x: 5, y: 5 }) });

    let mut map = MapGrid::new(12, 12, 1);
    let mut idx = MapIndexingSystem {};
    idx.run(&world, &mut map);

    // the blast region the shell's geometry produced for radius 2
    let mut blast = Vec::new();
    for x in 3..=7 {
        for y in 3..=7 {
            blast.push(Point { x, y });
        }
    }
    let blasts = vec![blast];
    let mut log: Vec<String> = Vec::new();
    let mut sys = ItemUseSystem {};
    sys.run(&mut world, &map, &mut log, player, &blasts);
    world.maintain();

    for id in &monster_ids {
        assert_eq!(world.ents[*id].damage_queue, vec![8]);
    }
    assert!(!world.ents[scroll_id].alive);
    assert_eq!(log.len(), 3);
    assert_eq!(log[0], "You use Fireball Scroll on Goblin 0, inflicting 8 hp.");
}

#[test]
fn aoe_excludes_border_tiles() {
    // an occupant of the map's border ring is not targeted even when the
    // blast region reaches its tile
    let mut world = World::new();
    let player = world.push_entity(player_rec(20, 20));
    let mut edge = EntityRec::new();
    edge.name = Some(String::from("Edge Rat"));
    edge.stats = Some(CombatStats { max_hp: 5, hp: 5, defense: 0, power: 1 });
    edge.pos = Some(Point { x: 0, y: 1 });
    let edge_id = world.push_entity(edge);
    let mut inner = EntityRec::new();
    inner.name = Some(String::from("Inner Rat"));
    inner.stats = Some(CombatStats { max_hp: 5, hp: 5, defense: 0, power: 1 });
    inner.pos = Some(Point { x: 1, y: 1 });
    let inner_id = world.push_entity(inner);
    let mut scroll = EntityRec::new();
    scroll.name = Some(String::from("Fireball Scroll"));
    scroll.inflicts = Some(8);
    scroll.aoe_radius = Some(2);
    scroll.consumable = true;
    let scroll_id = world.push_entity(scroll);
    world.ents[player].use_intent =
        Some(UseIntent { item: scroll_id, target: Some(Point { x: 1, y: 1 }) });

    let mut map = MapGrid::new(8, 8, 1);
    let mut idx = MapIndexingSystem {};
    idx.run(&world, &mut map);

    let blast = vec![Point { x: 0, y: 1 }, Point { x: 1, y: 1 }];
    let blasts = vec![blast];
    let mut log: Vec<String> = Vec::new();
    let mut sys = ItemUseSystem {};
    sys.run(&mut world, &map, &mut log, player, &blasts);

    assert!(world.ents[edge_id].damage_queue.is_empty());
    assert_eq!(world.ents[inner_id].damage_queue, vec![8]);
}

#[test]
fn single_tile_target_hits_every_occupant() {
    // a non-area targeted use resolves to all entities on the tile
    let mut world = World::new();
    let player = world.push_entity(player_rec(20, 20));
    let mut ids = Vec::new();
    for i in 0..2 {
        let mut m = EntityRec::new();
        m.name = Some(format!("Rat {}", i));
        m.stats = Some(CombatStats { max_hp: 5, hp: 5, defense: 0, power: 1 });
        m.pos = Some(Point { x: 4, y: 4 });
        ids.push(world.push_entity(m));
    }
    let mut dart = EntityRec::new();
    dart.name = Some(String::from("Magic Missile Scroll"));
    dart.inflicts = Some(6);
    dart.consumable = true;
    let dart_id = world.push_entity(dart);
    world.ents[player].use_intent =
        Some(UseIntent { item: dart_id, target: Some(Point { x: 4, y: 4 }) });

    let mut map = MapGrid::new(8, 8, 1);
    let mut idx = MapIndexingSystem {};
    idx.run(&world, &mut map);
    let mut log: Vec<String> = Vec::new();
    let blasts: Vec<Vec<Point>> = Vec::new();
    let mut sys = ItemUseSystem {};
    sys.run(&mut world, &map, &mut log, player, &blasts);

    for id in &ids {
        assert_eq!(world.ents[*id].damage_queue, vec![6]);
    }
}

#[test]
fn equip_evicts_previous_item_in_slot() {
    // equipping into an occupied slot returns the old item to the
    // backpack and narrates both steps; equip alone does not consume
    let mut world = World::new();
    let player = world.push_entity(player_rec(20, 20));
    let mut old_sword = EntityRec::new();
    old_sword.name = Some(String::from("Old Sword"));
    old_sword.equippable = Some(EquipSlot::Melee);
    old_sword.equipped = Some(EquippedInfo { owner: player, slot: EquipSlot::Melee });
    let old_id = world.push_entity(old_sword);
    let mut new_sword = EntityRec::new();
    new_sword.name = Some(String::from("New Sword"));
    new_sword.equippable = Some(EquipSlot::Melee);
    new_sword.consumable = true;  // equip-only use must NOT consume
    new_sword.backpack_owner = Some(player);
    let new_id = world.push_entity(new_sword);
    world.ents[player].use_intent = Some(UseIntent { item: new_id, target: None });

    let map = MapGrid::new(8, 8, 1);
    let mut log: Vec<String> = Vec::new();
    let blasts: Vec<Vec<Point>> = Vec::new();
    let mut sys = ItemUseSystem {};
    sys.run(&mut world, &map, &mut log, player, &blasts);
    world.maintain();

    assert_eq!(world.ents[old_id].backpack_owner, Some(player));
    assert!(world.ents[old_id].equipped.is_none());
    let eq = world.ents[new_id].equipped.unwrap();
    assert_eq!(eq.owner, player);
    assert_eq!(eq.slot, EquipSlot::Melee);
    assert!(world.ents[new_id].backpack_owner.is_none());
    // an equip-only outcome is not a "use": the item survives
    assert!(world.ents[new_id].alive);
    assert_eq!(log.len(), 2);
    assert_eq!(log[0], "You unequip Old Sword.");
    assert_eq!(log[1], "You equip New Sword.");
}

#[test]
fn pickup_moves_item_to_backpack() {
    // the item loses its floor position, gains a backpack edge, the
    // intent is cleared, and the player's pickup is narrated
    let mut world = World::new();
    let player = world.push_entity(player_rec(20, 20));
    let mut item = EntityRec::new();
    item.name = Some(String::from("Rusty Dagger"));
    item.pos = Some(Point { x: 3, y: 3 });
    let item_id = world.push_entity(item);
    world.ents[player].pickup = Some(PickupIntent { collected_by: player, item: item_id });

    let mut log: Vec<String> = Vec::new();
    let mut sys = ItemCollectionSystem {};
    sys.run(&mut world, &mut log, player);

    assert!(world.ents[item_id].pos.is_none());
    assert_eq!(world.ents[item_id].backpack_owner, Some(player));
    assert!(world.ents[player].pickup.is_none());
    assert_eq!(log, vec![String::from("You pick up the Rusty Dagger.")]);
}

#[test]
fn remove_unequips_into_backpack() {
    let mut world = World::new();
    let player = world.push_entity(player_rec(20, 20));
    let mut shield = EntityRec::new();
    shield.name = Some(String::from("Tower Shield"));
    shield.equippable = Some(EquipSlot::Shield);
    shield.equipped = Some(EquippedInfo { owner: player, slot: EquipSlot::Shield });
    let shield_id = world.push_entity(shield);
    world.ents[player].remove_intent = Some(shield_id);

    let mut sys = ItemRemoveSystem {};
    sys.run(&mut world);

    assert!(world.ents[shield_id].equipped.is_none());
    assert_eq!(world.ents[shield_id].backpack_owner, Some(player));
    assert!(world.ents[player].remove_intent.is_none());
}

#[test]
fn confusion_is_applied_to_targets() {
    let mut world = World::new();
    let player = world.push_entity(player_rec(20, 20));
    let mut m = EntityRec::new();
    m.name = Some(String::from("Orc"));
    m.stats = Some(CombatStats { max_hp: 16, hp: 16, defense: 1, power: 4 });
    m.pos = Some(Point { x: 4, y: 4 });
    let orc = world.push_entity(m);
    let mut scroll = EntityRec::new();
    scroll.name = Some(String::from("Confusion Scroll"));
    scroll.confusion = Some(4);
    scroll.consumable = true;
    let scroll_id = world.push_entity(scroll);
    world.ents[player].use_intent =
        Some(UseIntent { item: scroll_id, target: Some(Point { x: 4, y: 4 }) });

    let mut map = MapGrid::new(8, 8, 1);
    let mut idx = MapIndexingSystem {};
    idx.run(&world, &mut map);
    let mut log: Vec<String> = Vec::new();
    let blasts: Vec<Vec<Point>> = Vec::new();
    let mut sys = ItemUseSystem {};
    sys.run(&mut world, &map, &mut log, player, &blasts);
    world.maintain();

    assert_eq!(world.ents[orc].confusion, Some(4));
    assert!(!world.ents[scroll_id].alive);
    assert_eq!(log, vec![String::from("You use Confusion Scroll on Orc, confusing them.")]);
}

#[test]
fn equip_under_area_targeting_takes_first_target_only() {
    // even with an area item, the equip branch applies to the first
    // entity of the target set alone
    let mut world = World::new();
    let player = world.push_entity(player_rec(20, 20));
    let mut a = EntityRec::new();
    a.name = Some(String::from("Orc A"));
    a.stats = Some(CombatStats { max_hp: 16, hp: 16, defense: 1, power: 4 });
    a.pos = Some(Point { x: 4, y: 4 });
    let orc_a = world.push_entity(a);
    let mut b = EntityRec::new();
    b.name = Some(String::from("Orc B"));
    b.stats = Some(CombatStats { max_hp: 16, hp: 16, defense: 1, power: 4 });
    b.pos = Some(Point { x: 4, y: 5 });
    let orc_b = world.push_entity(b);
    let mut oddity = EntityRec::new();
    oddity.name = Some(String::from("Cursed Buckler"));
    oddity.equippable = Some(EquipSlot::Shield);
    oddity.aoe_radius = Some(1);
    let oddity_id = world.push_entity(oddity);
    world.ents[player].use_intent =
        Some(UseIntent { item: oddity_id, target: Some(Point { x: 4, y: 4 }) });

    let mut map = MapGrid::new(8, 8, 1);
    let mut idx = MapIndexingSystem {};
    idx.run(&world, &mut map);
    let blast = vec![Point { x: 4, y: 4 }, Point { x: 4, y: 5 }];
    let blasts = vec![blast];
    let mut log: Vec<String> = Vec::new();
    let mut sys = ItemUseSystem {};
    sys.run(&mut world, &map, &mut log, player, &blasts);

    let eq = world.ents[oddity_id].equipped.unwrap();
    assert_eq!(eq.owner, orc_a);
    assert_eq!(eq.slot, EquipSlot::Shield);
    assert!(world.ents[orc_b].equipped.is_none());
}

#[test]
fn decimal_rendering_handles_signs() {
    let mut s = String::new();
    roguelike_core::text::append_decimal(&mut s, 0);
    s.push(' ');
    roguelike_core::text::append_decimal(&mut s, 2147483647);
    s.push(' ');
    roguelike_core::text::append_decimal(&mut s, -2147483648);
    assert_eq!(s, "0 2147483647 -2147483648");
}

#[test]
fn untargeted_use_heals_the_using_entity() {
    // with no target point, the sole target is the using entity itself:
    // a monster drinking its own potion heals itself, not the player
    let mut world = World::new();
    let player = world.push_entity(player_rec(5, 20));
    let mut m = EntityRec::new();
    m.name = Some(String::from("Orc"));
    m.stats = Some(CombatStats { max_hp: 16, hp: 6, defense: 1, power: 4 });
    let orc = world.push_entity(m);
    let mut potion = EntityRec::new();
    potion.name = Some(String::from("Health Potion"));
    potion.healing = Some(10);
    potion.consumable = true;
    potion.backpack_owner = Some(orc);
    let potion_id = world.push_entity(potion);
    world.ents[orc].use_intent = Some(UseIntent { item: potion_id, target: None });

    let map = MapGrid::new(10, 10, 1);
    let mut log: Vec<String> = Vec::new();
    let blasts: Vec<Vec<Point>> = Vec::new();
    let mut sys = ItemUseSystem {};
    sys.run(&mut world, &map, &mut log, player, &blasts);
    world.maintain();

    assert_eq!(world.ents[orc].stats.unwrap().hp, 16);
    assert_eq!(world.ents[player].stats.unwrap().hp, 5);
    assert!(!world.ents[potion_id].alive);
    // no narration: the user is not the player
    assert!(log.is_empty());
}

#[test]
fn negative_heal_amount_lowers_hp() {
    // the healing formula hp' = min(max_hp, hp + amount) holds for a
    // tainted potion with a negative amount too
    let mut world = World::new();
    let player = world.push_entity(player_rec(10, 20));
    let mut potion = EntityRec::new();
    potion.name = Some(String::from("Tainted Potion"));
    potion.healing = Some(-3);
    potion.consumable = true;
    let potion_id = world.push_entity(potion);
    world.ents[player].use_intent = Some(UseIntent { item: potion_id, target: None });

    let map = MapGrid::new(10, 10, 1);
    let mut log: Vec<String> = Vec::new();
    let blasts: Vec<Vec<Point>> = Vec::new();
    let mut sys = ItemUseSystem {};
    sys.run(&mut world, &map, &mut log, player, &blasts);

    assert_eq!(world.ents[player].stats.unwrap().hp, 7);
    assert_eq!(log[0], "You use the Tainted Potion, healing -3 hp");
}
