use roguelike_core::components::{CombatStats, EntityRec, EquipSlot, EquippedInfo, Point};
use roguelike_core::map::{MapGrid, Room};
use roguelike_core::state::{
    ItemMenuResult, MainMenuResult, MainMenuSelection, RunState, State, TickAction, TickInput,
};
use roguelike_core::systems::{delete_the_dead, DamageSystem, MeleeCombatSystem};
use roguelike_core::world::World;

fn base_state() -> (State, usize) {
    let mut world = World::new();
    let mut p = EntityRec::new();
    p.is_player = true;
    p.name = Some(String::from("Player"));
    p.stats = Some(CombatStats { max_hp: 30, hp: 30, defense: 2, power: 5 });
    p.pos = Some(Point { x: 2, y: 2 });
    let player = world.push_entity(p);
    let st = State {
        world,
        map: MapGrid::new(10, 10, 1),
        log: Vec::new(),
        player,
        runstate: RunState::PreRun,
        player_pos: Point { x: 2, y: 2 },
    };
    (st, player)
}

#[test]
fn prerun_moves_to_awaiting_input() {
    let (mut st, _) = base_state();
    let blasts: Vec<Vec<Point>> = Vec::new();
    let act = st.tick(TickInput::Nothing, &blasts);
    assert_eq!(act, TickAction::Proceed);
    assert_eq!(st.runstate, RunState::AwaitingInput);
}

#[test]
fn player_turn_runs_pipeline_then_monster_turn() {
    let (mut st, player) = base_state();
    st.runstate = RunState::PlayerTurn;
    // give the player a pickup to resolve during the pass
    let mut item = EntityRec::new();
    item.name = Some(String::from("Apple"));
    item.pos = Some(Point { x: 2, y: 2 });
    let item_id = st.world.push_entity(item);
    st.world.ents[player].pickup =
        Some(roguelike_core::components::PickupIntent { collected_by: player, item: item_id });
    let blasts: Vec<Vec<Point>> = Vec::new();
    let act = st.tick(TickInput::Nothing, &blasts);
    assert_eq!(act, TickAction::Proceed);
    assert_eq!(st.runstate, RunState::MonsterTurn);
    assert_eq!(st.world.ents[item_id].backpack_owner, Some(player));
    assert_eq!(st.log, vec![String::from("You pick up the Apple.")]);
}

#[test]
fn inventory_selection_of_ranged_item_opens_targeting() {
    let (mut st, _) = base_state();
    st.runstate = RunState::ShowInventory;
    let mut scroll = EntityRec::new();
    scroll.name = Some(String::from("Fireball Scroll"));
    scroll.ranged = Some(6);
    let scroll_id = st.world.push_entity(scroll);
    let blasts: Vec<Vec<Point>> = Vec::new();
    let act = st.tick(
        TickInput::ItemMenu { result: ItemMenuResult::Selected, item: Some(scroll_id) },
        &blasts,
    );
    assert_eq!(act, TickAction::Proceed);
    assert_eq!(st.runstate, RunState::ShowTargeting { range: 6, item: scroll_id });
}

#[test]
fn inventory_selection_of_plain_item_emits_use_intent() {
    let (mut st, player) = base_state();
    st.runstate = RunState::ShowInventory;
    let mut potion = EntityRec::new();
    potion.name = Some(String::from("Health Potion"));
    potion.healing = Some(8);
    let potion_id = st.world.push_entity(potion);
    let blasts: Vec<Vec<Point>> = Vec::new();
    let act = st.tick(
        TickInput::ItemMenu { result: ItemMenuResult::Selected, item: Some(potion_id) },
        &blasts,
    );
    assert_eq!(act, TickAction::Proceed);
    assert_eq!(st.runstate, RunState::PlayerTurn);
    let intent = st.world.ents[player].use_intent.unwrap();
    assert_eq!(intent.item, potion_id);
    assert!(intent.target.is_none());
}

#[test]
fn targeting_selection_emits_targeted_use_intent() {
    let (mut st, player) = base_state();
    let mut scroll = EntityRec::new();
    scroll.name = Some(String::from("Fireball Scroll"));
    scroll.ranged = Some(6);
    let scroll_id = st.world.push_entity(scroll);
    st.runstate = RunState::ShowTargeting { range: 6, item: scroll_id };
    let blasts: Vec<Vec<Point>> = Vec::new();
    let act = st.tick(
        TickInput::Target {
            result: ItemMenuResult::Selected,
            point: Some(Point { x: 5, y: 4 }),
        },
        &blasts,
    );
    assert_eq!(act, TickAction::Proceed);
    assert_eq!(st.runstate, RunState::PlayerTurn);
    let intent = st.world.ents[player].use_intent.unwrap();
    assert_eq!(intent.item, scroll_id);
    assert_eq!(intent.target, Some(Point { x: 5, y: 4 }));
}

#[test]
fn menu_save_quit_and_load_transitions() {
    let (mut st, _) = base_state();
    let blasts: Vec<Vec<Point>> = Vec::new();
    st.runstate = RunState::SaveGame;
    let act = st.tick(TickInput::Nothing, &blasts);
    assert_eq!(act, TickAction::SaveRequested);
    assert_eq!(st.runstate, RunState::AwaitingInput);

    st.runstate = RunState::QuitGame;
    let act = st.tick(TickInput::Nothing, &blasts);
    assert_eq!(act, TickAction::Proceed);
    assert_eq!(
        st.runstate,
        RunState::MainMenu { menu_selection: MainMenuSelection::NewGame }
    );

    let act = st.tick(
        TickInput::Menu {
            result: MainMenuResult::Selected { selected: MainMenuSelection::LoadGame },
        },
        &blasts,
    );
    assert_eq!(act, TickAction::LoadRequested);
    assert_eq!(st.runstate, RunState::AwaitingInput);

    st.runstate = RunState::MainMenu { menu_selection: MainMenuSelection::NewGame };
    let act = st.tick(
        TickInput::Menu {
            result: MainMenuResult::Selected { selected: MainMenuSelection::Quit },
        },
        &blasts,
    );
    assert_eq!(act, TickAction::ExitRequested);
}

#[test]
fn level_transition_keeps_party_deletes_the_rest() {
    // depth 3, player carrying 2 backpack items and wearing 1, with 5
    // unrelated monsters: the party survives, the monsters go, the player
    // stands at the new map's first room center with at least half health
    let (mut st, player) = base_state();
    st.map.depth = 3;
    st.world.ents[player].stats = Some(CombatStats { max_hp: 30, hp: 4, defense: 2, power: 5 });
    let mut carried = Vec::new();
    for i in 0..2 {
        let mut it = EntityRec::new();
        it.name = Some(format!("Trinket {}", i));
        it.backpack_owner = Some(player);
        carried.push(st.world.push_entity(it));
    }
    let mut worn = EntityRec::new();
    worn.name = Some(String::from("Old Sword"));
    worn.equipped = Some(EquippedInfo { owner: player, slot: EquipSlot::Melee });
    let worn_id = st.world.push_entity(worn);
    let mut monsters = Vec::new();
    for i in 0..5 {
        let mut m = EntityRec::new();
        m.name = Some(format!("Goblin {}", i));
        m.stats = Some(CombatStats { max_hp: 16, hp: 16, defense: 1, power: 4 });
        m.pos = Some(Point { x: 3 + i, y: 4 });
        monsters.push(st.world.push_entity(m));
    }
    st.runstate = RunState::NextLevel;

    let mut new_map = MapGrid::new(20, 20, 4);
    new_map.push_room(Room { x1: 2, y1: 2, x2: 8, y2: 8 });
    let blasts: Vec<Vec<Point>> = Vec::new();
    let act = st.tick(TickInput::NewMap { map: new_map }, &blasts);

    assert_eq!(act, TickAction::Proceed);
    assert_eq!(st.runstate, RunState::PreRun);
    assert_eq!(st.map.depth, 4);
    for id in &carried {
        assert!(st.world.ents[*id].alive);
        assert_eq!(st.world.ents[*id].backpack_owner, Some(player));
    }
    assert!(st.world.ents[worn_id].alive);
    assert_eq!(st.world.ents[worn_id].equipped.unwrap().owner, player);
    for id in &monsters {
        assert!(!st.world.ents[*id].alive);
    }
    let center = Point { x: 5, y: 5 };
    assert_eq!(st.player_pos, center);
    assert_eq!(st.world.ents[player].pos, Some(center));
    assert!(st.world.ents[player].viewshed_dirty);
    let s = st.world.ents[player].stats.unwrap();
    assert!(s.hp >= s.max_hp / 2);
    assert_eq!(s.hp, 15);
    assert_eq!(
        st.log,
        vec![String::from("You descend to the next level, and take a moment to heal.")]
    );
}

#[test]
fn melee_and_damage_resolution_then_dead_collection() {
    let mut world = World::new();
    let mut p = EntityRec::new();
    p.is_player = true;
    p.name = Some(String::from("Player"));
    p.stats = Some(CombatStats { max_hp: 30, hp: 30, defense: 2, power: 9 });
    let player = world.push_entity(p);
    let mut m = EntityRec::new();
    m.name = Some(String::from("Rat"));
    m.stats = Some(CombatStats { max_hp: 6, hp: 6, defense: 1, power: 2 });
    let rat = world.push_entity(m);
    world.ents[player].melee_intent = Some(rat);

    let mut melee = MeleeCombatSystem {};
    melee.run(&mut world);
    // power 9 against defense 1: one pending event of 8
    assert_eq!(world.ents[rat].damage_queue, vec![8]);
    assert!(world.ents[player].melee_intent.is_none());

    let mut dmg = DamageSystem {};
    dmg.run(&mut world);
    assert_eq!(world.ents[rat].stats.unwrap().hp, -2);
    assert!(world.ents[rat].damage_queue.is_empty());

    delete_the_dead(&mut world);
    assert!(!world.ents[rat].alive);
    assert!(world.ents[player].alive);
}

#[test]
fn dead_collection_spares_no_one() {
    // the pass removes every zero-health entity, the player included
    let mut world = World::new();
    let mut p = EntityRec::new();
    p.is_player = true;
    p.name = Some(String::from("Player"));
    p.stats = Some(CombatStats { max_hp: 30, hp: 0, defense: 2, power: 5 });
    let player = world.push_entity(p);
    let mut m = EntityRec::new();
    m.name = Some(String::from("Rat"));
    m.stats = Some(CombatStats { max_hp: 6, hp: -1, defense: 1, power: 2 });
    let rat = world.push_entity(m);

    delete_the_dead(&mut world);
    assert!(!world.ents[player].alive);
    assert!(!world.ents[rat].alive);
}
