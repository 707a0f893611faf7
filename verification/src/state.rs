//! The turn state machine: which systems run in which order per tick, and
//! the transitions between menu, input, gameplay, targeting and level
//! transition modes.

use vstd::prelude::*;
use crate::components::{CombatStats, EntModel, Point, UseIntent};
use crate::inventory::{
    blasts_view, log_view, pickup_model, pickup_ok, remove_model, remove_ok, use_model, use_ok,
    ItemCollectionSystem, ItemRemoveSystem, ItemUseSystem,
};
use crate::map::MapGrid;
use crate::systems::{
    damage_fits, damage_model, dead_model, delete_the_dead, dmg_nonneg, index_model, melee_model,
    melee_ok, pos_ok, stats_ok, DamageSystem, MapIndexingSystem, MeleeCombatSystem,
};
use crate::text::{descend_line, make_descend_line};
use crate::world::{maintain_model, World};

verus! {

/// The main menu's highlighted option.
#[derive(PartialEq, Eq, Structural, Copy, Clone, Debug)]
pub enum MainMenuSelection {
    NewGame,
    LoadGame,
    Quit,
}

/// The high-level mode the game is in.
#[derive(PartialEq, Eq, Structural, Copy, Clone, Debug)]
pub enum RunState {
    AwaitingInput,
    PreRun,
    PlayerTurn,
    MonsterTurn,
    ShowInventory,
    ShowRemoveItem,
    ShowTargeting { range: i32, item: usize },
    MainMenu { menu_selection: MainMenuSelection },
    SaveGame,
    QuitGame,
    NextLevel,
}

/// What an item or targeting menu came back with.
#[derive(PartialEq, Eq, Structural, Copy, Clone, Debug)]
pub enum ItemMenuResult {
    Cancel,
    NoResponse,
    Selected,
}

/// What the main menu came back with.
#[derive(PartialEq, Eq, Structural, Copy, Clone, Debug)]
pub enum MainMenuResult {
    NoSelection { selected: MainMenuSelection },
    Selected { selected: MainMenuSelection },
}

/// What the shell solicited for this tick: nothing for the world-simulation
/// and bookkeeping modes, a decoded command, a menu answer, or the next
/// level's freshly generated map.
pub enum TickInput {
    Nothing,
    Input { next: RunState },
    ItemMenu { result: ItemMenuResult, item: Option<usize> },
    Target { result: ItemMenuResult, point: Option<Point> },
    Menu { result: MainMenuResult },
    NewMap { map: MapGrid },
}

/// What the shell must do after this tick.
#[derive(PartialEq, Eq, Structural, Copy, Clone, Debug)]
pub enum TickAction {
    Proceed,
    SaveRequested,
    LoadRequested,
    ExitRequested,
}

/// The whole game state the tick loop owns.
pub struct State {
    pub world: World,
    pub map: MapGrid,
    pub log: Vec<String>,
    pub player: usize,
    pub runstate: RunState,
    pub player_pos: Point,
}

/// The modes that run the full system pipeline.
pub open spec fn pipeline_state(rs: RunState) -> bool {
    rs is AwaitingInput || rs is PreRun || rs is PlayerTurn || rs is MonsterTurn
}

/// The fixed-order pipeline: spatial index, melee, damage, item
/// collection, item use, item removal, then the structural-edit flush.
/// Returns the world, the log, and the rebuilt occupant lists and
/// blocking flags.
pub open spec fn pipeline_model(
    w: Seq<EntModel>,
    log: Seq<Seq<char>>,
    map: MapGrid,
    player: usize,
    blasts: Seq<Seq<Point>>,
) -> (Seq<EntModel>, Seq<Seq<char>>, Seq<Seq<usize>>, Seq<bool>) {
    let idx = index_model(w, map);
    let w1 = melee_model(w);
    let w2 = damage_model(w1);
    let p = pickup_model(w2, log, player);
    let u = use_model(p.0, p.1, map.width as int, map.height as int, idx.0, player, blasts);
    let w5 = remove_model(u.0);
    (maintain_model(w5), u.1, idx.0, idx.1)
}

/// Every stage's precondition holds at the state the stage will run in.
pub open spec fn pipeline_ok(
    w: Seq<EntModel>,
    log: Seq<Seq<char>>,
    map: MapGrid,
    player: usize,
    blasts: Seq<Seq<Point>>,
) -> bool {
    let idx = index_model(w, map);
    let w1 = melee_model(w);
    let w2 = damage_model(w1);
    let p = pickup_model(w2, log, player);
    let u = use_model(p.0, p.1, map.width as int, map.height as int, idx.0, player, blasts);
    &&& map.wf()
    &&& player < w.len()
    &&& pos_ok(w, map)
    &&& stats_ok(w)
    &&& melee_ok(w)
    &&& dmg_nonneg(w1)
    &&& damage_fits(w1)
    &&& pickup_ok(w2, player)
    &&& use_ok(p.0, p.1, map.width as int, map.height as int, idx.0, player, blasts)
    &&& remove_ok(u.0)
}

impl State {
    /// Run the fixed-order system pipeline once, ending with the
    /// structural-edit flush. Visibility and monster AI sit outside the
    /// verified pipeline: both consume field-of-view geometry that only
    /// the shell can compute, and hand their results in as components
    /// (positions, melee intents) before the tick.
    pub fn run_systems(&mut self, blasts: &Vec<Vec<Point>>)
        requires
            pipeline_ok(
                old(self).world@,
                log_view(old(self).log@),
                old(self).map,
                old(self).player,
                blasts_view(blasts@),
            ),
        ensures
            ({
                let r = pipeline_model(
                    old(self).world@,
                    log_view(old(self).log@),
                    old(self).map,
                    old(self).player,
                    blasts_view(blasts@),
                );
                &&& final(self).world@ =~= r.0
                &&& log_view(final(self).log@) =~= r.1
                &&& final(self).map.contents() =~= r.2
                &&& final(self).map.blocked@ =~= r.3
            }),
            final(self).map.width == old(self).map.width,
            final(self).map.height == old(self).map.height,
            final(self).map.depth == old(self).map.depth,
            final(self).map.tiles == old(self).map.tiles,
            final(self).map.rooms == old(self).map.rooms,
            final(self).map.wf(),
            final(self).player == old(self).player,
            final(self).runstate == old(self).runstate,
            final(self).player_pos == old(self).player_pos,
    {
        let ghost w0 = self.world@;
        let ghost log0 = log_view(self.log@);
        let ghost m0 = self.map;
        let mut mapindex = MapIndexingSystem {};
        mapindex.run(&self.world, &mut self.map);
        let mut melee = MeleeCombatSystem {};
        melee.run(&mut self.world);
        let mut damage = DamageSystem {};
        damage.run(&mut self.world);
        let mut pickup = ItemCollectionSystem {};
        pickup.run(&mut self.world, &mut self.log, self.player);
        proof {
            assert(self.map.contents() == index_model(w0, m0).0);
            assert(self.world@ == pickup_model(damage_model(melee_model(w0)), log0, self.player).0);
        }
        let mut items = ItemUseSystem {};
        items.run(&mut self.world, &self.map, &mut self.log, self.player, blasts);
        let mut item_remove = ItemRemoveSystem {};
        item_remove.run(&mut self.world);
        self.world.maintain();
    }

    /// The entity survives a level transition: the player, or an item the
    /// player carries or wears.
    pub open spec fn keep_on_level_change(w: Seq<EntModel>, player: usize, e: int) -> bool {
        ||| w[e].is_player
        ||| w[e].backpack_owner == Some(player)
        ||| (w[e].equipped matches Some(eq) && eq.owner == player)
    }

    /// The entities a level transition deletes, in entity order.
    pub open spec fn to_remove_model(w: Seq<EntModel>, player: usize, i: int) -> Seq<usize>
        decreases i,
    {
        if i <= 0 {
            Seq::empty()
        } else {
            let r = Self::to_remove_model(w, player, i - 1);
            if w[i - 1].alive && !Self::keep_on_level_change(w, player, i - 1) {
                r.push((i - 1) as usize)
            } else {
                r
            }
        }
    }

    /// Collect every entity that does not survive a level transition.
    pub fn entities_to_remove_on_level_change(&mut self) -> (r: Vec<usize>)
        ensures
            *final(self) == *old(self),
            r@ == Self::to_remove_model(
                old(self).world@,
                old(self).player,
                old(self).world@.len() as int,
            ),
    {
        let n = self.world.len();
        let mut to_delete: Vec<usize> = Vec::new();
        let mut e: usize = 0;
        while e < n
            invariant
                e <= n,
                n == self.world@.len(),
                *self == *old(self),
                to_delete@ =~= Self::to_remove_model(self.world@, self.player, e as int),
            decreases n - e,
        {
            let rec = self.world.ent(e);
            let mut keep = rec.is_player;
            match rec.backpack_owner {
                Some(o) => {
                    if o == self.player {
                        keep = true;
                    }
                },
                None => {},
            }
            match rec.equipped {
                Some(eq) => {
                    if eq.owner == self.player {
                        keep = true;
                    }
                },
                None => {},
            }
            if rec.alive && !keep {
                to_delete.push(e);
            }
            e = e + 1;
        }
        to_delete
    }

    /// The world after a level purge: everything dies except the player
    /// and what the player owns.
    pub open spec fn level_purge(w: Seq<EntModel>, player: usize) -> Seq<EntModel> {
        Seq::new(
            w.len(),
            |e: int|
                if w[e].alive && !Self::keep_on_level_change(w, player, e) {
                    EntModel { alive: false, ..w[e] }
                } else {
                    w[e]
                },
        )
    }

    /// Healing on arrival: hit points rise to at least half the maximum,
    /// and never drop.
    pub open spec fn level_heal(m: EntModel) -> EntModel {
        match m.stats {
            Some(s) => {
                if s.hp < s.max_hp / 2 {
                    EntModel { stats: Some(CombatStats { hp: (s.max_hp / 2) as i32, ..s }), ..m }
                } else {
                    m
                }
            },
            None => m,
        }
    }

    /// The world after a level transition: the purge, then the surviving
    /// player is moved to the new entry point, marked for a visibility
    /// recompute, and healed.
    pub open spec fn level_model(w: Seq<EntModel>, player: usize, center: Point) -> Seq<EntModel> {
        let w1 = Self::level_purge(w, player);
        let p1 = w1[player as int];
        let newpos = if p1.pos.is_some() {
            Some(center)
        } else {
            p1.pos
        };
        let w2 = w1.update(player as int, EntModel { pos: newpos, viewshed_dirty: true, ..p1 });
        w2.update(player as int, Self::level_heal(w2[player as int]))
    }

    /// Execute a level transition onto a freshly generated map: delete
    /// everything but the player's party, adopt the new map, place the
    /// player at its first room's center, force a visibility recompute,
    /// narrate, and heal the player to at least half health. Spawning the
    /// new level's monsters is the generator's business and happens
    /// afterwards.
    pub fn goto_next_level(&mut self, new_map: MapGrid)
        requires
            old(self).player < old(self).world@.len(),
            new_map.wf(),
            new_map.rooms@.len() > 0,
            new_map.depth == old(self).map.depth + 1,
            old(self).world@[old(self).player as int].stats matches Some(s) ==> s.max_hp >= 0,
        ensures
            final(self).world@ =~= Self::level_model(
                old(self).world@,
                old(self).player,
                new_map.rooms@[0].center_spec(),
            ),
            final(self).map == new_map,
            final(self).player_pos == new_map.rooms@[0].center_spec(),
            log_view(final(self).log@) =~= log_view(old(self).log@).push(descend_line()),
            final(self).player == old(self).player,
            final(self).runstate == old(self).runstate,
    {
        let ghost w0 = self.world@;
        let player = self.player;
        // delete everything that does not come along
        let n = self.world.len();
        let mut e: usize = 0;
        while e < n
            invariant
                e <= n,
                n == w0.len(),
                self.world@.len() == n,
                player == self.player,
                forall|j: int| 0 <= j < e ==> self.world@[j] == Self::level_purge(w0, player)[j],
                forall|j: int| e <= j < n ==> self.world@[j] == w0[j],
                self.map == old(self).map,
                self.log == old(self).log,
                self.player == old(self).player,
                self.runstate == old(self).runstate,
                self.player_pos == old(self).player_pos,
            decreases n - e,
        {
            let rec = self.world.ent(e);
            let mut keep = rec.is_player;
            match rec.backpack_owner {
                Some(o) => {
                    if o == player {
                        keep = true;
                    }
                },
                None => {},
            }
            match rec.equipped {
                Some(eq) => {
                    if eq.owner == player {
                        keep = true;
                    }
                },
                None => {},
            }
            if rec.alive && !keep {
                self.world.delete_now(e);
            }
            proof {
                assert(self.world@[e as int] == Self::level_purge(w0, player)[e as int]);
            }
            e = e + 1;
        }
        proof {
            assert(self.world@ =~= Self::level_purge(w0, player));
        }
        // adopt the generated map and place the player at its entry point
        let center = new_map.rooms[0].center(new_map.width, new_map.height);
        self.map = new_map;
        self.player_pos = center;
        let ghost w1 = self.world@;
        let has_pos = self.world.ent(player).pos.is_some();
        if has_pos {
            self.world.set_pos(player, Some(center));
        } else {
            let cur = self.world.ent(player).pos;
            self.world.set_pos(player, cur);
        }
        self.world.set_viewshed_dirty(player, true);
        let ghost w2 = self.world@;
        proof {
            assert(w2 =~= w1.update(
                player as int,
                EntModel {
                    pos: if w1[player as int].pos.is_some() {
                        Some(center)
                    } else {
                        w1[player as int].pos
                    },
                    viewshed_dirty: true,
                    ..w1[player as int]
                },
            ));
        }
        // narrate and heal
        let line = make_descend_line();
        crate::inventory::push_line(&mut self.log, line);
        let st_opt = self.world.ent(player).stats;
        match st_opt {
            Some(s) => {
                let half = s.max_hp / 2;
                if s.hp < half {
                    self.world.set_stats(player, Some(CombatStats { hp: half, ..s }));
                }
            },
            None => {},
        }
        proof {
            assert(self.world@ =~= w2.update(
                player as int,
                Self::level_heal(w2[player as int]),
            ));
            assert(self.world@ =~= Self::level_model(w0, player, new_map.rooms@[0].center_spec()));
        }
    }
}

} // verus!

verus! {

/// The solicited input fits the current mode.
pub open spec fn input_matches(rs: RunState, input: TickInput) -> bool {
    match rs {
        RunState::AwaitingInput => input is Input,
        RunState::ShowInventory => input is ItemMenu,
        RunState::ShowRemoveItem => input is ItemMenu,
        RunState::ShowTargeting { .. } => input is Target,
        RunState::MainMenu { .. } => input is Menu,
        RunState::NextLevel => input is NewMap,
        _ => input is Nothing,
    }
}

/// The tick's precondition: the input fits the mode, the pipeline's
/// preconditions hold when the mode runs it, a selected menu entry names
/// an existing item, and a level transition brings a usable map.
pub open spec fn tick_ok(st: State, input: TickInput, blasts: Seq<Seq<Point>>) -> bool {
    &&& st.player < st.world@.len()
    &&& input_matches(st.runstate, input)
    &&& (pipeline_state(st.runstate) ==> pipeline_ok(
        st.world@,
        log_view(st.log@),
        st.map,
        st.player,
        blasts,
    ))
    &&& (match input {
        TickInput::ItemMenu { result, item } => result is Selected ==> (item matches Some(i) && i
            < st.world@.len()),
        TickInput::Target { result, point } => result is Selected ==> point.is_some(),
        TickInput::NewMap { map } => {
            &&& map.wf()
            &&& map.rooms@.len() > 0
            &&& map.depth == st.map.depth + 1
            &&& (st.world@[st.player as int].stats matches Some(s) ==> s.max_hp >= 0)
        },
        _ => true,
    })
}

/// Everything the tick leaves alone in the bookkeeping modes.
pub open spec fn tick_frame(st0: State, st1: State) -> bool {
    &&& st1.map == st0.map
    &&& st1.log == st0.log
    &&& st1.player == st0.player
    &&& st1.player_pos == st0.player_pos
}

/// What one tick does, mode by mode. Every mode ends with the
/// dead-collection pass over whatever world the mode produced.
pub open spec fn tick_post(
    st0: State,
    st1: State,
    input: TickInput,
    blasts: Seq<Seq<Point>>,
    act: TickAction,
) -> bool {
    match st0.runstate {
        RunState::PreRun => pipeline_post(st0, st1, blasts, act, RunState::AwaitingInput),
        RunState::PlayerTurn => pipeline_post(st0, st1, blasts, act, RunState::MonsterTurn),
        RunState::MonsterTurn => pipeline_post(st0, st1, blasts, act, RunState::AwaitingInput),
        RunState::AwaitingInput => pipeline_post(st0, st1, blasts, act, input->Input_next),
        RunState::ShowInventory => {
            let result = input->ItemMenu_result;
            let item = input->ItemMenu_item;
            &&& tick_frame(st0, st1)
            &&& act == TickAction::Proceed
            &&& (match result {
                ItemMenuResult::Cancel => st1.world@ =~= dead_model(st0.world@) && st1.runstate
                    == RunState::AwaitingInput,
                ItemMenuResult::NoResponse => st1.world@ =~= dead_model(st0.world@) && st1.runstate
                    == st0.runstate,
                ItemMenuResult::Selected => {
                    let i = item->Some_0;
                    match st0.world@[i as int].ranged {
                        Some(rng) => st1.world@ =~= dead_model(st0.world@) && st1.runstate
                            == (RunState::ShowTargeting { range: rng, item: i }),
                        None => st1.world@ =~= dead_model(
                            st0.world@.update(
                                st0.player as int,
                                EntModel {
                                    use_intent: Some(UseIntent { item: i, target: None }),
                                    ..st0.world@[st0.player as int]
                                },
                            ),
                        ) && st1.runstate == RunState::PlayerTurn,
                    }
                },
            })
        },
        RunState::ShowRemoveItem => {
            let result = input->ItemMenu_result;
            let item = input->ItemMenu_item;
            &&& tick_frame(st0, st1)
            &&& act == TickAction::Proceed
            &&& (match result {
                ItemMenuResult::Cancel => st1.world@ =~= dead_model(st0.world@) && st1.runstate
                    == RunState::AwaitingInput,
                ItemMenuResult::NoResponse => st1.world@ =~= dead_model(st0.world@) && st1.runstate
                    == st0.runstate,
                ItemMenuResult::Selected => st1.world@ =~= dead_model(
                    st0.world@.update(
                        st0.player as int,
                        EntModel {
                            remove_intent: Some(item->Some_0),
                            ..st0.world@[st0.player as int]
                        },
                    ),
                ) && st1.runstate == RunState::PlayerTurn,
            })
        },
        RunState::ShowTargeting { range, item } => {
            let result = input->Target_result;
            let point = input->Target_point;
            &&& tick_frame(st0, st1)
            &&& act == TickAction::Proceed
            &&& (match result {
                ItemMenuResult::Cancel => st1.world@ =~= dead_model(st0.world@) && st1.runstate
                    == RunState::AwaitingInput,
                ItemMenuResult::NoResponse => st1.world@ =~= dead_model(st0.world@) && st1.runstate
                    == st0.runstate,
                ItemMenuResult::Selected => st1.world@ =~= dead_model(
                    st0.world@.update(
                        st0.player as int,
                        EntModel {
                            use_intent: Some(UseIntent { item, target: point }),
                            ..st0.world@[st0.player as int]
                        },
                    ),
                ) && st1.runstate == RunState::PlayerTurn,
            })
        },
        RunState::MainMenu { .. } => {
            &&& tick_frame(st0, st1)
            &&& st1.world@ =~= dead_model(st0.world@)
            &&& (match input->Menu_result {
                MainMenuResult::NoSelection { selected } => st1.runstate == (RunState::MainMenu {
                    menu_selection: selected,
                }) && act == TickAction::Proceed,
                MainMenuResult::Selected { selected } => match selected {
                    MainMenuSelection::NewGame => st1.runstate == RunState::PreRun && act
                        == TickAction::Proceed,
                    MainMenuSelection::LoadGame => st1.runstate == RunState::AwaitingInput && act
                        == TickAction::LoadRequested,
                    MainMenuSelection::Quit => st1.runstate == st0.runstate && act
                        == TickAction::ExitRequested,
                },
            })
        },
        RunState::SaveGame => {
            &&& tick_frame(st0, st1)
            &&& st1.world@ =~= dead_model(st0.world@)
            &&& st1.runstate == RunState::AwaitingInput
            &&& act == TickAction::SaveRequested
        },
        RunState::QuitGame => {
            &&& tick_frame(st0, st1)
            &&& st1.world@ =~= dead_model(st0.world@)
            &&& st1.runstate == (RunState::MainMenu { menu_selection: MainMenuSelection::NewGame })
            &&& act == TickAction::Proceed
        },
        RunState::NextLevel => {
            let m = input->NewMap_map;
            let center = m.rooms@[0].center_spec();
            &&& st1.world@ =~= dead_model(State::level_model(st0.world@, st0.player, center))
            &&& st1.map == m
            &&& st1.player_pos == center
            &&& log_view(st1.log@) =~= log_view(st0.log@).push(descend_line())
            &&& st1.player == st0.player
            &&& st1.runstate == RunState::PreRun
            &&& act == TickAction::Proceed
        },
    }
}

/// A world-simulation mode: the pipeline ran, the dead were collected,
/// and the mode moved on.
pub open spec fn pipeline_post(
    st0: State,
    st1: State,
    blasts: Seq<Seq<Point>>,
    act: TickAction,
    next: RunState,
) -> bool {
    let r = pipeline_model(st0.world@, log_view(st0.log@), st0.map, st0.player, blasts);
    &&& st1.world@ =~= dead_model(r.0)
    &&& log_view(st1.log@) =~= r.1
    &&& st1.map.contents() =~= r.2
    &&& st1.map.blocked@ =~= r.3
    &&& st1.map.width == st0.map.width
    &&& st1.map.height == st0.map.height
    &&& st1.map.depth == st0.map.depth
    &&& st1.map.tiles == st0.map.tiles
    &&& st1.map.rooms == st0.map.rooms
    &&& st1.player == st0.player
    &&& st1.player_pos == st0.player_pos
    &&& st1.runstate == next
    &&& act == TickAction::Proceed
}

impl State {
    /// Advance the game one tick: in world-simulation modes run the
    /// pipeline and move to the next mode; in interaction modes act on
    /// what the shell solicited; then collect the dead, every tick,
    /// whatever the mode.
    pub fn tick(&mut self, input: TickInput, blasts: &Vec<Vec<Point>>) -> (act: TickAction)
        requires
            tick_ok(*old(self), input, blasts_view(blasts@)),
        ensures
            tick_post(*old(self), *final(self), input, blasts_view(blasts@), act),
    {
        let mut act = TickAction::Proceed;
        match self.runstate {
            RunState::PreRun => {
                self.run_systems(blasts);
                self.runstate = RunState::AwaitingInput;
            },
            RunState::AwaitingInput => {
                self.run_systems(blasts);
                match input {
                    TickInput::Input { next } => {
                        self.runstate = next;
                    },
                    _ => {
                        proof {
                            assert(false);
                        }
                    },
                }
            },
            RunState::PlayerTurn => {
                self.run_systems(blasts);
                self.runstate = RunState::MonsterTurn;
            },
            RunState::MonsterTurn => {
                self.run_systems(blasts);
                self.runstate = RunState::AwaitingInput;
            },
            RunState::ShowInventory => {
                match input {
                    TickInput::ItemMenu { result, item } => {
                        match result {
                            ItemMenuResult::Cancel => {
                                self.runstate = RunState::AwaitingInput;
                            },
                            ItemMenuResult::NoResponse => {},
                            ItemMenuResult::Selected => {
                                let item_entity = item.unwrap();
                                let ranged = self.world.ent(item_entity).ranged;
                                match ranged {
                                    Some(rng) => {
                                        self.runstate = RunState::ShowTargeting {
                                            range: rng,
                                            item: item_entity,
                                        };
                                    },
                                    None => {
                                        self.world.set_use_intent(
                                            self.player,
                                            Some(UseIntent { item: item_entity, target: None }),
                                        );
                                        self.runstate = RunState::PlayerTurn;
                                    },
                                }
                            },
                        }
                    },
                    _ => {
                        proof {
                            assert(false);
                        }
                    },
                }
            },
            RunState::ShowRemoveItem => {
                match input {
                    TickInput::ItemMenu { result, item } => {
                        match result {
                            ItemMenuResult::Cancel => {
                                self.runstate = RunState::AwaitingInput;
                            },
                            ItemMenuResult::NoResponse => {},
                            ItemMenuResult::Selected => {
                                let item_entity = item.unwrap();
                                self.world.set_remove_intent(self.player, Some(item_entity));
                                self.runstate = RunState::PlayerTurn;
                            },
                        }
                    },
                    _ => {
                        proof {
                            assert(false);
                        }
                    },
                }
            },
            RunState::ShowTargeting { range: _, item } => {
                match input {
                    TickInput::Target { result, point } => {
                        match result {
                            ItemMenuResult::Cancel => {
                                self.runstate = RunState::AwaitingInput;
                            },
                            ItemMenuResult::NoResponse => {},
                            ItemMenuResult::Selected => {
                                self.world.set_use_intent(
                                    self.player,
                                    Some(UseIntent { item, target: point }),
                                );
                                self.runstate = RunState::PlayerTurn;
                            },
                        }
                    },
                    _ => {
                        proof {
                            assert(false);
                        }
                    },
                }
            },
            RunState::MainMenu { .. } => {
                match input {
                    TickInput::Menu { result } => {
                        match result {
                            MainMenuResult::NoSelection { selected } => {
                                self.runstate = RunState::MainMenu { menu_selection: selected };
                            },
                            MainMenuResult::Selected { selected } => {
                                match selected {
                                    MainMenuSelection::NewGame => {
                                        self.runstate = RunState::PreRun;
                                    },
                                    MainMenuSelection::LoadGame => {
                                        self.runstate = RunState::AwaitingInput;
                                        act = TickAction::LoadRequested;
                                    },
                                    MainMenuSelection::Quit => {
                                        act = TickAction::ExitRequested;
                                    },
                                }
                            },
                        }
                    },
                    _ => {
                        proof {
                            assert(false);
                        }
                    },
                }
            },
            RunState::SaveGame => {
                act = TickAction::SaveRequested;
                self.runstate = RunState::AwaitingInput;
            },
            RunState::QuitGame => {
                self.runstate = RunState::MainMenu { menu_selection: MainMenuSelection::NewGame };
            },
            RunState::NextLevel => {
                match input {
                    TickInput::NewMap { map } => {
                        self.goto_next_level(map);
                        self.runstate = RunState::PreRun;
                    },
                    _ => {
                        proof {
                            assert(false);
                        }
                    },
                }
            },
        }
        delete_the_dead(&mut self.world);
        act
    }
}

} // verus!
