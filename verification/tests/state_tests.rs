use time_tunnel::components::{CombatStats, Entity, InBackpack, Player, Point, Ranged, Storage};
use time_tunnel::rect::Rect;
use time_tunnel::spawner::{
    count_die, room_table, spawn_kind, spawn_room, spawns_from_points, tile_dice, RandomTable, Spawn, SpawnDrawing,
    SpawnKind, SpawnNeed,
};
use time_tunnel::state::{
    entities_to_remove_on_level_change, rest_on_descent, tick, ItemMenuResult, MainMenuResult,
    MainMenuSelection, RunState, TickAction, TickEvent,
};

fn ent(id: u32) -> Entity {
    Entity { id, gen: 1 }
}

#[test]
fn turns_cycle_through_the_systems() {
    let ranged: Storage<Ranged> = Storage::new();
    assert_eq!(tick(RunState::PreRun, TickEvent::NoInput, &ranged), (RunState::AwaitingInput, TickAction::RunSystems));
    assert_eq!(
        tick(RunState::AwaitingInput, TickEvent::PlayerStatus { dead: false }, &ranged),
        (RunState::PlayerTurn, TickAction::ReadInput)
    );
    assert_eq!(
        tick(RunState::AwaitingInput, TickEvent::PlayerStatus { dead: true }, &ranged),
        (RunState::Dead, TickAction::Nothing)
    );
    assert_eq!(tick(RunState::PlayerTurn, TickEvent::NoInput, &ranged), (RunState::MonsterTurn, TickAction::RunSystems));
    assert_eq!(tick(RunState::MonsterTurn, TickEvent::NoInput, &ranged), (RunState::AwaitingInput, TickAction::RunSystems));
    assert_eq!(tick(RunState::Dead, TickEvent::NoInput, &ranged), (RunState::PreRun, TickAction::ResetGame));
    assert_eq!(tick(RunState::NextLevel, TickEvent::NoInput, &ranged), (RunState::PreRun, TickAction::NextLevel));
    assert_eq!(
        tick(RunState::SaveGame, TickEvent::NoInput, &ranged),
        (RunState::MainMenu { menu_selection: MainMenuSelection::LoadGame }, TickAction::SaveGame)
    );
}

#[test]
fn menus_lead_to_item_use() {
    let mut ranged: Storage<Ranged> = Storage::new();
    ranged.insert(ent(7), Ranged { range: 6 });
    let pick = |item: u32| TickEvent::ItemMenu { result: ItemMenuResult::Selected, item: Some(ent(item)) };
    assert_eq!(
        tick(RunState::ShowInventory, pick(7), &ranged),
        (RunState::ShowTargeting { range: 6, item: ent(7) }, TickAction::Nothing)
    );
    assert_eq!(
        tick(RunState::ShowInventory, pick(8), &ranged),
        (RunState::PlayerTurn, TickAction::UseItem { item: ent(8), target: None })
    );
    let cancel = TickEvent::ItemMenu { result: ItemMenuResult::Cancel, item: None };
    assert_eq!(tick(RunState::ShowInventory, cancel, &ranged), (RunState::AwaitingInput, TickAction::Nothing));
    let wait = TickEvent::ItemMenu { result: ItemMenuResult::NoResponse, item: None };
    assert_eq!(tick(RunState::ShowDropItem, wait, &ranged), (RunState::ShowDropItem, TickAction::Nothing));
    assert_eq!(
        tick(RunState::ShowDropItem, pick(9), &ranged),
        (RunState::PlayerTurn, TickAction::DropItem { item: ent(9) })
    );
    let aim = TickEvent::Targeting { result: ItemMenuResult::Selected, target: Some(Point { x: 3, y: 4 }) };
    assert_eq!(
        tick(RunState::ShowTargeting { range: 6, item: ent(7) }, aim, &ranged),
        (RunState::PlayerTurn, TickAction::UseItem { item: ent(7), target: Some(Point { x: 3, y: 4 }) })
    );
}

#[test]
fn main_menu_choices() {
    let ranged: Storage<Ranged> = Storage::new();
    let menu = RunState::MainMenu { menu_selection: MainMenuSelection::NewGame };
    let choose = |s| TickEvent::MainMenu { answer: MainMenuResult::Selected { selected: s } };
    assert_eq!(tick(menu, choose(MainMenuSelection::NewGame), &ranged), (RunState::PreRun, TickAction::Nothing));
    assert_eq!(tick(menu, choose(MainMenuSelection::LoadGame), &ranged), (RunState::AwaitingInput, TickAction::LoadGame));
    assert_eq!(tick(menu, choose(MainMenuSelection::Quit), &ranged), (menu, TickAction::Quit));
    let hover = TickEvent::MainMenu { answer: MainMenuResult::NoSelection { selected: MainMenuSelection::Quit } };
    assert_eq!(
        tick(menu, hover, &ranged),
        (RunState::MainMenu { menu_selection: MainMenuSelection::Quit }, TickAction::Nothing)
    );
}

#[test]
fn level_change_keeps_player_and_equipment() {
    let player = ent(1);
    let mut players: Storage<Player> = Storage::new();
    players.insert(player, Player {});
    let mut backpack: Storage<InBackpack> = Storage::new();
    backpack.insert(ent(2), InBackpack { owner: player });
    backpack.insert(ent(3), InBackpack { owner: ent(4) });
    let all = vec![ent(1), ent(2), ent(3), ent(4), ent(5)];
    let gone = entities_to_remove_on_level_change(&all, &players, &backpack, player);
    assert_eq!(gone, vec![ent(3), ent(4), ent(5)]);
}

#[test]
fn descending_rests_to_half_health() {
    let mut s = CombatStats { max_hp: 110, hp: 20, defense: 2, power: 5, deflects: 0 };
    rest_on_descent(&mut s);
    assert_eq!(s.hp, 55);
    let mut t = CombatStats { max_hp: 111, hp: 80, defense: 2, power: 5, deflects: 0 };
    rest_on_descent(&mut t);
    assert_eq!(t.hp, 80);
    let mut u = CombatStats { max_hp: 111, hp: -3, defense: 2, power: 5, deflects: 0 };
    rest_on_descent(&mut u);
    assert_eq!(u.hp, 55);
}

#[test]
fn room_table_weights_grow_with_depth() {
    let t = room_table(1);
    assert_eq!(t.total_weight, 31);
    let names: Vec<&str> = t.entries.iter().map(|e| e.name.as_str()).collect();
    assert_eq!(
        names,
        vec!["Goblin", "Team Lead Fire Sword", "Orc", "Health Potion", "Magic Missile Scroll", "Fireball Scroll", "Vampire Shield"]
    );
    let weights: Vec<i32> = t.entries.iter().map(|e| e.weight).collect();
    assert_eq!(weights, vec![10, 3, 2, 6, 4, 3, 3]);
}

#[test]
fn table_pick_walks_the_weights() {
    let t = RandomTable::new().add("a", 2).add("skip", 0).add("b", 3);
    assert_eq!(t.entries.len(), 2);
    assert_eq!(t.total_weight, 5);
    assert_eq!(t.pick(0), "a");
    assert_eq!(t.pick(1), "a");
    assert_eq!(t.pick(2), "b");
    assert_eq!(t.pick(4), "b");
    let mut rng = rltk::RandomNumberGenerator::seeded(7);
    for _ in 0..50 {
        let n = t.roll(&mut rng);
        assert!(n == "a" || n == "b");
    }
    assert_eq!(RandomTable::new().roll(&mut rng), "None");
}

#[test]
fn spawn_names_map_to_kinds() {
    assert_eq!(spawn_kind(&"Goblin".to_string()), Some(SpawnKind::Goblin));
    assert_eq!(spawn_kind(&"Orc".to_string()), Some(SpawnKind::Orc));
    assert_eq!(spawn_kind(&"Health Potion".to_string()), Some(SpawnKind::HealthPotion));
    assert_eq!(spawn_kind(&"Magic Missile Scrol".to_string()), Some(SpawnKind::MagicMissileScroll));
    assert_eq!(spawn_kind(&"Magic Missile Scroll".to_string()), None);
    assert_eq!(spawn_kind(&"Fireball Scroll".to_string()), None);
    assert_eq!(spawn_kind(&"Team Lead Fire Sword".to_string()), Some(SpawnKind::TeamLeadFireSword));
    assert_eq!(spawn_kind(&"Vampire Shield".to_string()), Some(SpawnKind::VampireShield));
}

#[test]
fn spawn_points_decode_to_tiles() {
    let points = vec![(163usize, "Orc".to_string()), (5usize, "Fireball Scroll".to_string()), (241usize, "Goblin".to_string())];
    let spawns = spawns_from_points(&points);
    assert_eq!(
        spawns,
        vec![
            Spawn { x: 3, y: 2, kind: SpawnKind::Orc },
            Spawn { x: 1, y: 3, kind: SpawnKind::Goblin },
        ]
    );
}

#[test]
fn spawned_things_stay_in_the_room() {
    let mut rng = rltk::RandomNumberGenerator::seeded(11);
    let room = Rect::new(10, 10, 6, 6);
    for depth in 0..5 {
        for _ in 0..20 {
            let spawns = spawn_room(&mut rng, &room, depth);
            assert!(spawns.len() as i32 <= depth + 3);
            for (i, s) in spawns.iter().enumerate() {
                assert!(s.x > 10 && s.x <= 16 && s.y > 10 && s.y <= 16);
                assert_ne!(s.kind, SpawnKind::MagicMissileScroll);
                for t in spawns.iter().skip(i + 1) {
                    assert!(s.x != t.x || s.y != t.y);
                }
            }
        }
    }
}

#[test]
fn deep_rooms_get_spawns() {
    let mut rng = rltk::RandomNumberGenerator::seeded(3);
    let room = Rect::new(10, 10, 8, 8);
    let mut total = 0;
    for _ in 0..50 {
        let spawns = spawn_room(&mut rng, &room, 6);
        assert!(spawns.len() <= 9);
        total += spawns.len();
    }
    assert!(total > 0);
}

#[test]
fn room_table_at_negative_depth_keeps_positive_weights() {
    let t = room_table(-2);
    let names: Vec<&str> = t.entries.iter().map(|e| e.name.as_str()).collect();
    assert_eq!(names, vec!["Goblin", "Health Potion", "Magic Missile Scroll"]);
    let weights: Vec<i32> = t.entries.iter().map(|e| e.weight).collect();
    assert_eq!(weights, vec![10, 6, 4]);
    assert_eq!(t.total_weight, 20);
}

#[test]
fn a_drawing_places_a_named_point() {
    let room = Rect::new(10, 10, 6, 6);
    let mut d = SpawnDrawing::start(2, 3);
    assert_eq!(d.draws, 1);
    assert_eq!(d.draws_left, 1);
    assert_eq!(d.need(), SpawnNeed::Tile);
    d.take_tile(&room, 3, 2);
    assert_eq!(d.pending, Some(12 * 80 + 13));
    assert_eq!(d.need(), SpawnNeed::Name);
    d.take_name("Orc".to_string());
    assert_eq!(d.points.len(), 1);
    assert_eq!(d.points.get(&(12 * 80 + 13)), Some(&"Orc".to_string()));
    assert_eq!(d.pending, None);
    assert_eq!(d.need(), SpawnNeed::Done);
}

#[test]
fn twenty_taken_tiles_end_a_draw() {
    let room = Rect::new(10, 10, 6, 6);
    let mut d = SpawnDrawing::start(7, 1);
    assert_eq!(d.draws_left, 4);
    d.take_tile(&room, 1, 1);
    d.take_name("Goblin".to_string());
    assert_eq!(d.draws_left, 3);
    for i in 0..19 {
        d.take_tile(&room, 1, 1);
        assert_eq!(d.tries, i + 1);
        assert_eq!(d.draws_left, 3);
        assert_eq!(d.need(), SpawnNeed::Tile);
    }
    d.take_tile(&room, 1, 1);
    assert_eq!(d.tries, 0);
    assert_eq!(d.draws_left, 2);
    assert_eq!(d.points.len(), 1);
}

#[test]
fn a_negative_draw_count_draws_nothing() {
    let d = SpawnDrawing::start(1, -5);
    assert_eq!(d.draws_left, -8);
    assert_eq!(d.need(), SpawnNeed::Done);
}

#[test]
fn shallow_rooms_get_at_most_depth_plus_three_spawns() {
    let mut rng = rltk::RandomNumberGenerator::seeded(5);
    let room = Rect::new(10, 10, 6, 6);
    for depth in -4..0 {
        for _ in 0..20 {
            let spawns = spawn_room(&mut rng, &room, depth);
            assert!(spawns.len() as i32 <= (depth + 3).max(0));
        }
    }
}

#[test]
fn rooms_past_the_last_column_wrap_to_the_next_row() {
    let mut rng = rltk::RandomNumberGenerator::seeded(9);
    let room = Rect::new(70, 5, 20, 4);
    for _ in 0..30 {
        let spawns = spawn_room(&mut rng, &room, 5);
        assert!(spawns.len() <= 8);
        for s in spawns.iter() {
            let idx = s.y * 80 + s.x;
            assert!((0..80).contains(&s.x));
            assert!((71..=90).any(|x| (6..=9).any(|y| y * 80 + x == idx)));
        }
    }
}

#[test]
fn the_spawn_dice_follow_the_room() {
    assert_eq!(count_die(), 7);
    assert_eq!(tile_dice(&Rect::new(10, 10, 6, -4)), (6, 4));
    assert_eq!(tile_dice(&Rect::new(3, 2, 9, 5)), (9, 5));
}
