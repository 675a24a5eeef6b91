use vstd::prelude::*;
use crate::components::{Entity, Point, Ranged, Player, InBackpack, CombatStats, Storage};
use crate::map::GameMap;
use crate::rect::{spec_center, half};

verus! {

/// The entries of the main menu.
#[derive(Clone, Copy, PartialEq, Eq, Structural, Debug)]
pub enum MainMenuSelection {
    NewGame,
    LoadGame,
    Quit,
}

/// What the game is doing between frames.
#[derive(Clone, Copy, PartialEq, Eq, Structural, Debug)]
pub enum RunState {
    AwaitingInput,
    PreRun,
    PlayerTurn,
    MonsterTurn,
    ShowInventory,
    ShowDropItem,
    ShowTargeting { range: i32, item: Entity },
    MainMenu { menu_selection: MainMenuSelection },
    SaveGame,
    Dead,
    NextLevel,
}

/// The answer of an item menu or of target selection.
#[derive(Clone, Copy, PartialEq, Eq, Structural, Debug)]
pub enum ItemMenuResult {
    Cancel,
    NoResponse,
    Selected,
}

/// The answer of the main menu.
#[derive(Clone, Copy, PartialEq, Eq, Structural, Debug)]
pub enum MainMenuResult {
    NoSelection { selected: MainMenuSelection },
    Selected { selected: MainMenuSelection },
}

/// What the frame's outside work reports to the state it is in.
#[derive(Clone, Copy, PartialEq, Eq, Structural, Debug)]
pub enum TickEvent {
    /// The state takes no input.
    NoInput,
    /// Awaiting input: whether the player is dead.
    PlayerStatus { dead: bool },
    /// The inventory or drop menu answered, with the chosen item.
    ItemMenu { result: ItemMenuResult, item: Option<Entity> },
    /// Target selection answered, with the chosen tile.
    Targeting { result: ItemMenuResult, target: Option<Point> },
    /// The main menu answered.
    MainMenu { answer: MainMenuResult },
}

/// What the frame must do before the next state takes over.
#[derive(Clone, Copy, PartialEq, Eq, Structural, Debug)]
pub enum TickAction {
    Nothing,
    /// Read the pressed key and move the player (see `player_input`).
    ReadInput,
    /// Run every system once.
    RunSystems,
    /// The player wants to use `item`, on `target` if given.
    UseItem { item: Entity, target: Option<Point> },
    /// The player wants to drop `item`.
    DropItem { item: Entity },
    LoadGame,
    SaveGame,
    /// Leave the program.
    Quit,
    /// Start a new game.
    ResetGame,
    /// Go down to a new level.
    NextLevel,
}

/// The event is the kind the state expects, and a chosen item comes with it.
pub open spec fn event_fits(state: RunState, event: TickEvent) -> bool {
    match state {
        RunState::AwaitingInput => event is PlayerStatus,
        RunState::ShowInventory | RunState::ShowDropItem => match event {
            TickEvent::ItemMenu { result, item } => result == ItemMenuResult::Selected ==> item is Some,
            _ => false,
        },
        RunState::ShowTargeting { .. } => event is Targeting,
        RunState::MainMenu { .. } => event is MainMenu,
        _ => event is NoInput,
    }
}

/// The state machine of a frame: the next state and the action to take.
pub open spec fn tick_outcome(state: RunState, event: TickEvent, ranged: Map<Entity, Ranged>) -> (RunState, TickAction) {
    match state {
        RunState::PreRun => (RunState::AwaitingInput, TickAction::RunSystems),
        RunState::AwaitingInput => match event {
            TickEvent::PlayerStatus { dead } => if dead {
                (RunState::Dead, TickAction::Nothing)
            } else {
                (RunState::PlayerTurn, TickAction::ReadInput)
            },
            _ => (state, TickAction::Nothing),
        },
        RunState::PlayerTurn => (RunState::MonsterTurn, TickAction::RunSystems),
        RunState::MonsterTurn => (RunState::AwaitingInput, TickAction::RunSystems),
        RunState::ShowInventory => match event {
            TickEvent::ItemMenu { result, item } => match result {
                ItemMenuResult::Cancel => (RunState::AwaitingInput, TickAction::Nothing),
                ItemMenuResult::NoResponse => (state, TickAction::Nothing),
                ItemMenuResult::Selected => {
                    let it = item.unwrap();
                    if ranged.dom().contains(it) {
                        (RunState::ShowTargeting { range: ranged[it].range, item: it }, TickAction::Nothing)
                    } else {
                        (RunState::PlayerTurn, TickAction::UseItem { item: it, target: None })
                    }
                },
            },
            _ => (state, TickAction::Nothing),
        },
        RunState::ShowTargeting { range, item } => match event {
            TickEvent::Targeting { result, target } => match result {
                ItemMenuResult::Cancel => (RunState::AwaitingInput, TickAction::Nothing),
                ItemMenuResult::NoResponse => (state, TickAction::Nothing),
                ItemMenuResult::Selected => (RunState::PlayerTurn, TickAction::UseItem { item, target }),
            },
            _ => (state, TickAction::Nothing),
        },
        RunState::ShowDropItem => match event {
            TickEvent::ItemMenu { result, item } => match result {
                ItemMenuResult::Cancel => (RunState::AwaitingInput, TickAction::Nothing),
                ItemMenuResult::NoResponse => (state, TickAction::Nothing),
                ItemMenuResult::Selected => (RunState::PlayerTurn, TickAction::DropItem { item: item.unwrap() }),
            },
            _ => (state, TickAction::Nothing),
        },
        RunState::MainMenu { .. } => match event {
            TickEvent::MainMenu { answer } => match answer {
                MainMenuResult::NoSelection { selected } => (
                    RunState::MainMenu { menu_selection: selected },
                    TickAction::Nothing,
                ),
                MainMenuResult::Selected { selected } => match selected {
                    MainMenuSelection::NewGame => (RunState::PreRun, TickAction::Nothing),
                    MainMenuSelection::LoadGame => (RunState::AwaitingInput, TickAction::LoadGame),
                    MainMenuSelection::Quit => (state, TickAction::Quit),
                },
            },
            _ => (state, TickAction::Nothing),
        },
        RunState::SaveGame => (
            RunState::MainMenu { menu_selection: MainMenuSelection::LoadGame },
            TickAction::SaveGame,
        ),
        RunState::Dead => (RunState::PreRun, TickAction::ResetGame),
        RunState::NextLevel => (RunState::PreRun, TickAction::NextLevel),
    }
}

/// The decisions of one frame: from the state and what the frame's outside
/// work reported (a menu answer, whether the player is dead), the next state
/// and what the frame must do. `ranged` tells whether a chosen item needs a target.
pub fn tick(state: RunState, event: TickEvent, ranged: &Storage<Ranged>) -> (r: (RunState, TickAction))
    requires
        ranged.wf(),
        event_fits(state, event),
    ensures
        r == tick_outcome(state, event, ranged@),
{
    match state {
        RunState::PreRun => (RunState::AwaitingInput, TickAction::RunSystems),
        RunState::AwaitingInput => match event {
            TickEvent::PlayerStatus { dead } => if dead {
                (RunState::Dead, TickAction::Nothing)
            } else {
                (RunState::PlayerTurn, TickAction::ReadInput)
            },
            _ => (state, TickAction::Nothing),
        },
        RunState::PlayerTurn => (RunState::MonsterTurn, TickAction::RunSystems),
        RunState::MonsterTurn => (RunState::AwaitingInput, TickAction::RunSystems),
        RunState::ShowInventory => match event {
            TickEvent::ItemMenu { result, item } => match result {
                ItemMenuResult::Cancel => (RunState::AwaitingInput, TickAction::Nothing),
                ItemMenuResult::NoResponse => (state, TickAction::Nothing),
                ItemMenuResult::Selected => {
                    let item_entity = item.unwrap();
                    match ranged.get(item_entity) {
                        Some(is_item_ranged) => (
                            RunState::ShowTargeting { range: is_item_ranged.range, item: item_entity },
                            TickAction::Nothing,
                        ),
                        None => (RunState::PlayerTurn, TickAction::UseItem { item: item_entity, target: None }),
                    }
                },
            },
            _ => (state, TickAction::Nothing),
        },
        RunState::ShowTargeting { range, item } => match event {
            TickEvent::Targeting { result, target } => match result {
                ItemMenuResult::Cancel => (RunState::AwaitingInput, TickAction::Nothing),
                ItemMenuResult::NoResponse => (state, TickAction::Nothing),
                ItemMenuResult::Selected => (RunState::PlayerTurn, TickAction::UseItem { item, target }),
            },
            _ => (state, TickAction::Nothing),
        },
        RunState::ShowDropItem => match event {
            TickEvent::ItemMenu { result, item } => match result {
                ItemMenuResult::Cancel => (RunState::AwaitingInput, TickAction::Nothing),
                ItemMenuResult::NoResponse => (state, TickAction::Nothing),
                ItemMenuResult::Selected => (RunState::PlayerTurn, TickAction::DropItem { item: item.unwrap() }),
            },
            _ => (state, TickAction::Nothing),
        },
        RunState::MainMenu { .. } => match event {
            TickEvent::MainMenu { answer } => match answer {
                MainMenuResult::NoSelection { selected } => (
                    RunState::MainMenu { menu_selection: selected },
                    TickAction::Nothing,
                ),
                MainMenuResult::Selected { selected } => match selected {
                    MainMenuSelection::NewGame => (RunState::PreRun, TickAction::Nothing),
                    MainMenuSelection::LoadGame => (RunState::AwaitingInput, TickAction::LoadGame),
                    MainMenuSelection::Quit => (state, TickAction::Quit),
                },
            },
            _ => (state, TickAction::Nothing),
        },
        RunState::SaveGame => (
            RunState::MainMenu { menu_selection: MainMenuSelection::LoadGame },
            TickAction::SaveGame,
        ),
        RunState::Dead => (RunState::PreRun, TickAction::ResetGame),
        RunState::NextLevel => (RunState::PreRun, TickAction::NextLevel),
    }
}

/// The entities that stay on a level change: the player and what the player carries.
pub open spec fn stays_on_level_change(
    e: Entity,
    players: Map<Entity, Player>,
    backpack: Map<Entity, InBackpack>,
    player_entity: Entity,
) -> bool {
    players.dom().contains(e) || (backpack.dom().contains(e) && backpack[e].owner == player_entity)
}

/// The entities, in order, that a level change deletes.
pub open spec fn to_delete_on_level_change(
    entities: Seq<Entity>,
    players: Map<Entity, Player>,
    backpack: Map<Entity, InBackpack>,
    player_entity: Entity,
) -> Seq<Entity>
    decreases entities.len(),
{
    if entities.len() == 0 {
        seq![]
    } else {
        let rest = to_delete_on_level_change(entities.drop_last(), players, backpack, player_entity);
        if stays_on_level_change(entities.last(), players, backpack, player_entity) {
            rest
        } else {
            rest.push(entities.last())
        }
    }
}

/// Every entity but the player and the player's equipment, in order.
pub fn entities_to_remove_on_level_change(
    entities: &Vec<Entity>,
    players: &Storage<Player>,
    backpack: &Storage<InBackpack>,
    player_entity: Entity,
) -> (to_delete: Vec<Entity>)
    requires
        players.wf(),
        backpack.wf(),
    ensures
        to_delete@ == to_delete_on_level_change(entities@, players@, backpack@, player_entity),
{
    let mut to_delete: Vec<Entity> = Vec::new();
    let mut k: usize = 0;
    while k < entities.len()
        invariant
            k <= entities@.len(),
            players.wf(),
            backpack.wf(),
            to_delete@ == to_delete_on_level_change(entities@.take(k as int), players@, backpack@, player_entity),
        decreases entities@.len() - k,
    {
        assert(entities@.take(k + 1).drop_last() =~= entities@.take(k as int));
        let entity = entities[k];
        let mut should_delete = true;
        if players.contains(entity) {
            should_delete = false;
        }
        match backpack.get(entity) {
            Some(bp) => {
                if bp.owner == player_entity {
                    should_delete = false;
                }
            },
            None => {},
        }
        if should_delete {
            to_delete.push(entity);
        }
        k = k + 1;
    }
    assert(entities@.take(k as int) =~= entities@);
    to_delete
}

/// Hit points after the rest taken on the way down: at least half the maximum.
pub open spec fn rested(s: CombatStats) -> CombatStats {
    CombatStats {
        hp: if s.hp >= half(s.max_hp as int) {
            s.hp
        } else {
            half(s.max_hp as int) as i32
        },
        ..s
    }
}

/// Heals the player on reaching a new level: hit points rise to half the maximum if below it.
pub fn rest_on_descent(stats: &mut CombatStats)
    ensures
        *final(stats) == rested(*old(stats)),
{
    let floor = stats.max_hp / 2;
    if stats.hp < floor {
        stats.hp = floor;
    }
}

/// Where the player starts on a map: the centre of its first room.
pub fn player_start(map: &GameMap) -> (p: (i32, i32))
    requires
        map.rooms@.len() >= 1,
        i32::MIN <= map.rooms@[0].x1 + map.rooms@[0].x2 <= i32::MAX,
        i32::MIN <= map.rooms@[0].y1 + map.rooms@[0].y2 <= i32::MAX,
    ensures
        (p.0 as int, p.1 as int) == spec_center(map.rooms@[0]),
{
    map.rooms[0].center()
}

/// A level change deletes exactly the entities that are neither the player
/// nor carried by the player, each once and in order.
pub proof fn lemma_level_change_keeps_player_and_equipment(
    entities: Seq<Entity>,
    players: Map<Entity, Player>,
    backpack: Map<Entity, InBackpack>,
    player_entity: Entity,
)
    ensures
        forall|e: Entity| #[trigger] to_delete_on_level_change(entities, players, backpack, player_entity).contains(e)
            <==> (entities.contains(e) && !stays_on_level_change(e, players, backpack, player_entity)),
        to_delete_on_level_change(entities, players, backpack, player_entity).len() <= entities.len(),
    decreases entities.len(),
{
    if entities.len() > 0 {
        let t = entities.drop_last();
        lemma_level_change_keeps_player_and_equipment(t, players, backpack, player_entity);
        let r0 = to_delete_on_level_change(t, players, backpack, player_entity);
        let r = to_delete_on_level_change(entities, players, backpack, player_entity);
        assert forall|e: Entity| #[trigger] r.contains(e) <==> (entities.contains(e) && !stays_on_level_change(
            e,
            players,
            backpack,
            player_entity,
        )) by {
            if entities.contains(e) {
                let k = choose|k: int| 0 <= k < entities.len() && entities[k] == e;
                if k < t.len() {
                    assert(t[k] == e);
                    assert(t.contains(e));
                }
            }
            if t.contains(e) {
                let k = choose|k: int| 0 <= k < t.len() && t[k] == e;
                assert(entities[k] == e);
            }
            if r.contains(e) {
                let k = choose|k: int| 0 <= k < r.len() && r[k] == e;
                if k < r0.len() {
                    assert(r0[k] == e);
                    assert(r0.contains(e));
                } else {
                    assert(entities[entities.len() - 1] == e);
                }
            }
            if r0.contains(e) {
                let k = choose|k: int| 0 <= k < r0.len() && r0[k] == e;
                assert(r[k] == e);
            }
            if e == entities.last() && !stays_on_level_change(e, players, backpack, player_entity) {
                assert(r[r.len() - 1] == e);
            }
        }
    }
}

/// Only a menu answer leads to an item being used or dropped, and then it is
/// the player's turn; a death always starts a new game.
pub proof fn lemma_tick_actions(state: RunState, event: TickEvent, ranged: Map<Entity, Ranged>)
    ensures
        (tick_outcome(state, event, ranged).1 is UseItem || tick_outcome(state, event, ranged).1 is DropItem)
            ==> tick_outcome(state, event, ranged).0 == RunState::PlayerTurn && (state is ShowInventory
            || state is ShowTargeting || state is ShowDropItem),
        state == RunState::Dead ==> tick_outcome(state, event, ranged) == (RunState::PreRun, TickAction::ResetGame),
{
}

/// A menu (inventory, drop or targeting) that got no answer this frame stays
/// open and does nothing; one answered with Cancel closes and hands control
/// back to the player, doing nothing.
pub proof fn lemma_menus_wait_for_an_answer(state: RunState, event: TickEvent, ranged: Map<Entity, Ranged>)
    requires
        state is ShowInventory || state is ShowDropItem || state is ShowTargeting,
    ensures
        (event matches TickEvent::ItemMenu { result: ItemMenuResult::NoResponse, .. }) || (event matches TickEvent::Targeting {
            result: ItemMenuResult::NoResponse,
            ..
        }) ==> tick_outcome(state, event, ranged) == (state, TickAction::Nothing),
        (state is ShowTargeting ==> event matches TickEvent::Targeting { result: ItemMenuResult::Cancel, .. })
            && (!(state is ShowTargeting) ==> event matches TickEvent::ItemMenu { result: ItemMenuResult::Cancel, .. })
            ==> tick_outcome(state, event, ranged) == (RunState::AwaitingInput, TickAction::Nothing),
{
}

} // verus!
