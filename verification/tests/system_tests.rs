use time_tunnel::components::{
    AreaOfEffect, BlocksTile, CombatStats, Consumable, Entity, InBackpack, InflictsDamage, Name,
    Point, Position, Protects, ProvidesHealing, ProvidesWhack, Storage, SufferDamage,
    WantsToDropItem, WantsToExplode, WantsToPickupItem, WantsToUseItem,
};
use time_tunnel::damage_system::{bury, delete_the_dead, sweep_the_dead, DamageSystem};
use time_tunnel::gamelog::LogEntry;
use time_tunnel::inventory_system::{ItemCatalog, ItemCollectionSystem, ItemDropSystem, ItemUseSystem};
use time_tunnel::map::{GameMap, MAPWIDTH};
use time_tunnel::map_indexing_system::MapIndexingSystem;
use time_tunnel::player::{check_if_dead, player_input, try_move_player, Key, Player as MovingPlayer};
use time_tunnel::rect::Rect;

fn ent(id: u32) -> Entity {
    Entity { id, gen: 1 }
}

fn stats(hp: i32, max_hp: i32, deflects: i32) -> CombatStats {
    CombatStats { max_hp, hp, defense: 1, power: 4, deflects }
}

fn storage<T>(items: Vec<(Entity, T)>) -> Storage<T> {
    let mut s = Storage::new();
    for (e, v) in items {
        s.insert(e, v);
    }
    s
}

fn idx(x: i32, y: i32) -> usize {
    (y as usize) * MAPWIDTH + x as usize
}

fn empty_catalog() -> ItemCatalog {
    ItemCatalog {
        consumables: Storage::new(),
        healing: Storage::new(),
        inflict_damage: Storage::new(),
        aoe: Storage::new(),
        protects: Storage::new(),
        whack: Storage::new(),
    }
}

#[test]
fn storage_insert_get_remove() {
    let mut s: Storage<Position> = Storage::new();
    s.insert(ent(1), Position { x: 1, y: 2 });
    s.insert(ent(2), Position { x: 3, y: 4 });
    s.insert(ent(1), Position { x: 5, y: 6 });
    assert_eq!(s.entries.len(), 2);
    assert_eq!(s.get(ent(1)), Some(&Position { x: 5, y: 6 }));
    assert!(s.contains(ent(2)));
    assert!(!s.contains(Entity { id: 2, gen: 2 }));
    s.remove(ent(2));
    assert!(!s.contains(ent(2)));
    assert_eq!(s.get(ent(2)), None);
    s.remove(ent(7));
    assert_eq!(s.entries.len(), 1);
    s.clear();
    assert!(s.entries.is_empty());
}

#[test]
fn new_damage_appends_hits() {
    let mut store: Storage<SufferDamage> = Storage::new();
    SufferDamage::new_damage(&mut store, ent(3), 5);
    assert_eq!(store.get(ent(3)).unwrap().amount, vec![5]);
    SufferDamage::new_damage(&mut store, ent(3), 7);
    SufferDamage::new_damage(&mut store, ent(4), 1);
    assert_eq!(store.get(ent(3)).unwrap().amount, vec![5, 7]);
    assert_eq!(store.get(ent(4)).unwrap().amount, vec![1]);
}

#[test]
fn damage_system_sums_hits_or_deflects() {
    let mut st = storage(vec![
        (ent(1), stats(20, 30, 0)),
        (ent(2), stats(20, 30, 2)),
        (ent(3), stats(30, 30, 1)),
        (ent(4), stats(10, 30, 0)),
    ]);
    let mut dmg = storage(vec![
        (ent(1), SufferDamage { amount: vec![3, 4] }),
        (ent(2), SufferDamage { amount: vec![100] }),
        (ent(3), SufferDamage { amount: vec![5] }),
        (ent(9), SufferDamage { amount: vec![5] }),
    ]);
    DamageSystem {}.run(&mut st, &mut dmg);
    assert_eq!(st.get(ent(1)).unwrap().hp, 13);
    assert_eq!(*st.get(ent(2)).unwrap(), CombatStats { hp: 21, deflects: 1, ..stats(20, 30, 2) });
    assert_eq!(*st.get(ent(3)).unwrap(), CombatStats { hp: 30, deflects: 0, ..stats(30, 30, 1) });
    assert_eq!(*st.get(ent(4)).unwrap(), stats(10, 30, 0));
    assert!(dmg.entries.is_empty());
}

#[test]
fn delete_the_dead_spares_the_player() {
    let st = storage(vec![
        (ent(1), stats(0, 30, 0)),
        (ent(2), stats(-4, 30, 0)),
        (ent(3), stats(1, 30, 0)),
        (ent(4), stats(0, 30, 0)),
    ]);
    let players = storage(vec![(ent(1), MovingPlayer {})]);
    let names = storage(vec![(ent(2), Name { name: "Orc".to_string() })]);
    let report = delete_the_dead(&st, &players, &names);
    assert_eq!(report.dead, vec![ent(2), ent(4)]);
    assert_eq!(report.log, vec![LogEntry::Dead { victim: ent(2) }]);
    assert_eq!(report.player_deaths, 1);
}

#[test]
fn burying_the_dead_leaves_only_the_player_dead() {
    let mut st = storage(vec![
        (ent(1), stats(0, 30, 0)),
        (ent(2), stats(-4, 30, 0)),
        (ent(3), stats(1, 30, 0)),
        (ent(4), stats(0, 30, 0)),
    ]);
    let players = storage(vec![(ent(1), MovingPlayer {})]);
    let mut names = storage(vec![
        (ent(2), Name { name: "Orc".to_string() }),
        (ent(3), Name { name: "Goblin".to_string() }),
    ]);
    let report = delete_the_dead(&st, &players, &names);
    bury(&report.dead, &mut st, &mut names);
    let left: Vec<Entity> = st.entries.iter().map(|(e, _)| *e).collect();
    assert_eq!(left, vec![ent(1), ent(3)]);
    assert!(names.get(ent(2)).is_none());
    assert_eq!(names.get(ent(3)).map(|n| n.name.as_str()), Some("Goblin"));
    for (e, s) in st.entries.iter() {
        assert!(s.hp >= 1 || players.contains(*e));
    }
    let again = delete_the_dead(&st, &players, &names);
    assert!(again.dead.is_empty());
    assert!(again.log.is_empty());
    assert_eq!(again.player_deaths, 1);
}

#[test]
fn the_player_is_dead_with_a_position_and_no_hit_points() {
    let players = storage(vec![(ent(1), time_tunnel::components::Player {})]);
    let alive = storage(vec![(ent(1), stats(5, 30, 0)), (ent(2), stats(0, 30, 0))]);
    let dead = storage(vec![(ent(1), stats(0, 30, 0))]);
    let placed = storage(vec![(ent(1), Position { x: 3, y: 4 })]);
    let nowhere: Storage<Position> = storage(vec![]);
    assert!(!check_if_dead(&players, &alive, &placed));
    assert!(check_if_dead(&players, &dead, &placed));
    assert!(!check_if_dead(&players, &dead, &nowhere));
}

#[test]
fn map_indexing_lists_and_blocks() {
    let mut map = GameMap::default();
    map.add_room(&Rect::new(10, 10, 6, 6), true);
    map.tile_content[0].push(ent(99));
    let positions = storage(vec![
        (ent(1), Position { x: 12, y: 12 }),
        (ent(2), Position { x: 12, y: 12 }),
        (ent(3), Position { x: 13, y: 12 }),
    ]);
    let blockers = storage(vec![(ent(1), BlocksTile {})]);
    MapIndexingSystem {}.run(&mut map, &positions, &blockers);
    assert_eq!(map.tile_content[idx(12, 12)], vec![ent(1), ent(2)]);
    assert_eq!(map.tile_content[idx(13, 12)], vec![ent(3)]);
    assert!(map.tile_content[0].is_empty());
    assert!(map.blocked[idx(12, 12)]);
    assert!(!map.blocked[idx(13, 12)]);
    assert!(map.blocked[idx(10, 10)]);
}

#[test]
fn moving_clamps_to_the_screen() {
    let mut positions = storage(vec![
        (ent(1), Position { x: 0, y: 49 }),
        (ent(2), Position { x: 5, y: 5 }),
    ]);
    let players = storage(vec![(ent(1), MovingPlayer {})]);
    try_move_player(-1, 1, &mut positions, &players);
    assert_eq!(*positions.get(ent(1)).unwrap(), Position { x: 0, y: 49 });
    try_move_player(100, -100, &mut positions, &players);
    assert_eq!(*positions.get(ent(1)).unwrap(), Position { x: 79, y: 0 });
    assert_eq!(*positions.get(ent(2)).unwrap(), Position { x: 5, y: 5 });
}

#[test]
fn player_input_moves_by_key() {
    let mut positions = storage(vec![(ent(1), Position { x: 10, y: 10 })]);
    let players = storage(vec![(ent(1), MovingPlayer {})]);
    player_input(Some(Key::A), &mut positions, &players);
    player_input(Some(Key::S), &mut positions, &players);
    player_input(Some(Key::S), &mut positions, &players);
    player_input(Some(Key::D), &mut positions, &players);
    player_input(Some(Key::D), &mut positions, &players);
    player_input(Some(Key::W), &mut positions, &players);
    player_input(Some(Key::Other), &mut positions, &players);
    player_input(None, &mut positions, &players);
    assert_eq!(*positions.get(ent(1)).unwrap(), Position { x: 11, y: 11 });
}

#[test]
fn pickup_moves_item_to_backpack() {
    let player = ent(1);
    let mut log = Vec::new();
    let mut wants = storage(vec![
        (ent(1), WantsToPickupItem { collected_by: player, item: ent(5) }),
        (ent(2), WantsToPickupItem { collected_by: ent(2), item: ent(6) }),
    ]);
    let mut positions = storage(vec![
        (ent(5), Position { x: 3, y: 3 }),
        (ent(6), Position { x: 4, y: 4 }),
        (ent(1), Position { x: 3, y: 3 }),
    ]);
    let mut backpack = Storage::new();
    ItemCollectionSystem {}.run(player, &mut log, &mut wants, &mut positions, &mut backpack);
    assert!(!positions.contains(ent(5)) && !positions.contains(ent(6)));
    assert!(positions.contains(ent(1)));
    assert_eq!(backpack.get(ent(5)), Some(&InBackpack { owner: player }));
    assert_eq!(backpack.get(ent(6)), Some(&InBackpack { owner: ent(2) }));
    assert_eq!(log, vec![LogEntry::PickedUp { item: ent(5) }]);
    assert!(wants.entries.is_empty());
}

#[test]
fn drop_places_item_and_sets_bombs() {
    let player = ent(1);
    let mut log = Vec::new();
    let mut wants = storage(vec![
        (ent(1), WantsToDropItem { item: ent(5) }),
        (ent(2), WantsToDropItem { item: ent(6) }),
    ]);
    let mut positions = storage(vec![
        (ent(1), Position { x: 3, y: 3 }),
        (ent(2), Position { x: 8, y: 9 }),
    ]);
    let mut backpack = storage(vec![
        (ent(5), InBackpack { owner: player }),
        (ent(6), InBackpack { owner: ent(2) }),
    ]);
    let mut explode = storage(vec![(ent(6), WantsToExplode { set: false, timer: 3 })]);
    ItemDropSystem {}.run(player, &mut log, &mut wants, &mut positions, &mut backpack, &mut explode);
    assert_eq!(positions.get(ent(5)), Some(&Position { x: 3, y: 3 }));
    assert_eq!(positions.get(ent(6)), Some(&Position { x: 8, y: 9 }));
    assert!(backpack.entries.is_empty());
    assert_eq!(explode.get(ent(6)), Some(&WantsToExplode { set: true, timer: 3 }));
    assert_eq!(log, vec![LogEntry::Dropped { item: ent(5) }, LogEntry::BombSet]);
    assert!(wants.entries.is_empty());
}

#[test]
fn pickup_then_drop_returns_item_to_collector() {
    let player = ent(1);
    let mut log = Vec::new();
    let mut positions = storage(vec![
        (ent(1), Position { x: 20, y: 20 }),
        (ent(5), Position { x: 20, y: 20 }),
    ]);
    let mut backpack = Storage::new();
    let mut pick = storage(vec![(player, WantsToPickupItem { collected_by: player, item: ent(5) })]);
    ItemCollectionSystem {}.run(player, &mut log, &mut pick, &mut positions, &mut backpack);
    positions.insert(player, Position { x: 30, y: 31 });
    let mut drop = storage(vec![(player, WantsToDropItem { item: ent(5) })]);
    let mut explode = Storage::new();
    ItemDropSystem {}.run(player, &mut log, &mut drop, &mut positions, &mut backpack, &mut explode);
    assert_eq!(positions.get(ent(5)), Some(&Position { x: 30, y: 31 }));
    assert!(!backpack.contains(ent(5)));
}

#[test]
fn healing_potion_heals_to_the_cap_and_is_deleted() {
    let player = ent(1);
    let potion = ent(10);
    let map = GameMap::default();
    let mut cat = empty_catalog();
    cat.consumables.insert(potion, Consumable {});
    cat.healing.insert(potion, ProvidesHealing { heal_amount: 8 });
    let mut st = storage(vec![(player, stats(25, 30, 0))]);
    let mut suffer = Storage::new();
    let mut wants = storage(vec![(player, WantsToUseItem { item: potion, target: None })]);
    let mut log = Vec::new();
    let mut deleted = Vec::new();
    ItemUseSystem {}.run(player, &mut log, &mut deleted, &mut wants, &cat, &mut st, &map, &mut suffer, &vec![Vec::new()]);
    assert_eq!(st.get(player).unwrap().hp, 30);
    assert_eq!(log, vec![LogEntry::Healed { item: potion, amount: 8 }]);
    assert_eq!(deleted, vec![potion, potion]);
    assert!(wants.entries.is_empty());
}

#[test]
fn uses_fit_finds_an_overflowing_use() {
    let player = ent(1);
    let potion = ent(10);
    let sword = ent(11);
    let map = GameMap::default();
    let mut cat = empty_catalog();
    cat.healing.insert(potion, ProvidesHealing { heal_amount: 8 });
    cat.whack.insert(sword, ProvidesWhack { whack_amount: i32::MAX - 2 });
    let st = storage(vec![(player, stats(25, 30, 0))]);
    let suffer = Storage::new();
    let log = Vec::new();
    let deleted = Vec::new();
    let heal = storage(vec![(player, WantsToUseItem { item: potion, target: None })]);
    assert!(ItemUseSystem {}.uses_fit(player, &log, &deleted, &heal, &cat, &st, &map, &suffer, &vec![Vec::new()]));
    let whack = storage(vec![(player, WantsToUseItem { item: sword, target: None })]);
    assert!(!ItemUseSystem {}.uses_fit(player, &log, &deleted, &whack, &cat, &st, &map, &suffer, &vec![Vec::new()]));
    let far = storage(vec![(player, WantsToUseItem { item: potion, target: Some(Point { x: 5, y: 60 }) })]);
    assert!(!ItemUseSystem {}.uses_fit(player, &log, &deleted, &far, &cat, &st, &map, &suffer, &vec![Vec::new()]));
    assert_eq!(st.get(player).unwrap().power, 4);
}

#[test]
fn sword_empowers_and_shield_protects() {
    let player = ent(1);
    let sword = ent(10);
    let shield = ent(11);
    let map = GameMap::default();
    let mut cat = empty_catalog();
    cat.whack.insert(sword, ProvidesWhack { whack_amount: 25 });
    cat.protects.insert(shield, Protects { deflections: 3 });
    cat.consumables.insert(shield, Consumable {});
    let mut st = storage(vec![(player, stats(25, 30, 1))]);
    let mut suffer = Storage::new();
    let mut wants = storage(vec![
        (player, WantsToUseItem { item: sword, target: None }),
        (ent(2), WantsToUseItem { item: shield, target: None }),
    ]);
    let mut log = Vec::new();
    let mut deleted = Vec::new();
    ItemUseSystem {}.run(
        player, &mut log, &mut deleted, &mut wants, &cat, &mut st, &map, &mut suffer,
        &vec![Vec::new(), Vec::new()],
    );
    let s = st.get(player).unwrap();
    assert_eq!(s.power, 29);
    assert_eq!(s.deflects, 4);
    assert_eq!(log, vec![LogEntry::Empowered { item: sword, amount: 25 }]);
    assert_eq!(deleted, vec![shield, shield]);
}

#[test]
fn missile_damages_everyone_on_the_target_tile() {
    let player = ent(1);
    let scroll = ent(10);
    let mut map = GameMap::default();
    map.tile_content[idx(5, 6)] = vec![ent(2), ent(3)];
    let mut cat = empty_catalog();
    cat.inflict_damage.insert(scroll, InflictsDamage { damage: 10 });
    cat.consumables.insert(scroll, Consumable {});
    let mut st = storage(vec![(ent(2), stats(16, 16, 0))]);
    let mut suffer = storage(vec![(ent(2), SufferDamage { amount: vec![1] })]);
    let mut wants = storage(vec![(player, WantsToUseItem { item: scroll, target: Some(Point { x: 5, y: 6 }) })]);
    let mut log = Vec::new();
    let mut deleted = Vec::new();
    ItemUseSystem {}.run(player, &mut log, &mut deleted, &mut wants, &cat, &mut st, &map, &mut suffer, &vec![Vec::new()]);
    assert_eq!(suffer.get(ent(2)).unwrap().amount, vec![1, 10]);
    assert_eq!(suffer.get(ent(3)).unwrap().amount, vec![10]);
    assert_eq!(
        log,
        vec![
            LogEntry::Inflicted { item: scroll, target: ent(2), amount: 10 },
            LogEntry::Inflicted { item: scroll, target: ent(3), amount: 10 },
        ]
    );
    assert_eq!(deleted, vec![scroll]);
    assert_eq!(*st.get(ent(2)).unwrap(), stats(16, 16, 0));
}

#[test]
fn fireball_hits_the_blast_inside_the_frame() {
    let player = ent(1);
    let scroll = ent(10);
    let mut map = GameMap::default();
    map.tile_content[idx(5, 6)] = vec![ent(2)];
    map.tile_content[idx(0, 6)] = vec![ent(3)];
    map.tile_content[idx(6, 6)] = vec![ent(4)];
    let mut cat = empty_catalog();
    cat.inflict_damage.insert(scroll, InflictsDamage { damage: 10 });
    cat.aoe.insert(scroll, AreaOfEffect { radius: 3 });
    let mut st = Storage::new();
    let mut suffer = Storage::new();
    let mut wants = storage(vec![(ent(7), WantsToUseItem { item: scroll, target: Some(Point { x: 5, y: 6 }) })]);
    let blast = vec![Point { x: 5, y: 6 }, Point { x: 0, y: 6 }, Point { x: 6, y: 6 }];
    let mut log = Vec::new();
    let mut deleted = Vec::new();
    ItemUseSystem {}.run(player, &mut log, &mut deleted, &mut wants, &cat, &mut st, &map, &mut suffer, &vec![blast]);
    assert_eq!(suffer.get(ent(2)).unwrap().amount, vec![10]);
    assert!(!suffer.contains(ent(3)));
    assert_eq!(suffer.get(ent(4)).unwrap().amount, vec![10]);
    assert!(log.is_empty());
    assert!(deleted.is_empty());
}

#[test]
fn item_without_targets_is_kept() {
    let player = ent(1);
    let scroll = ent(10);
    let map = GameMap::default();
    let mut cat = empty_catalog();
    cat.inflict_damage.insert(scroll, InflictsDamage { damage: 10 });
    cat.consumables.insert(scroll, Consumable {});
    let mut st = Storage::new();
    let mut suffer = Storage::new();
    let mut wants = storage(vec![(player, WantsToUseItem { item: scroll, target: Some(Point { x: 40, y: 20 }) })]);
    let mut log = Vec::new();
    let mut deleted = Vec::new();
    ItemUseSystem {}.run(player, &mut log, &mut deleted, &mut wants, &cat, &mut st, &map, &mut suffer, &vec![Vec::new()]);
    assert!(deleted.is_empty());
    assert!(suffer.entries.is_empty());
}

#[test]
fn plain_consumable_is_used_up() {
    let player = ent(1);
    let junk = ent(10);
    let map = GameMap::default();
    let mut cat = empty_catalog();
    cat.consumables.insert(junk, Consumable {});
    let mut st = Storage::new();
    let mut suffer = Storage::new();
    let mut wants = storage(vec![(player, WantsToUseItem { item: junk, target: None })]);
    let mut log = Vec::new();
    let mut deleted = Vec::new();
    ItemUseSystem {}.run(player, &mut log, &mut deleted, &mut wants, &cat, &mut st, &map, &mut suffer, &vec![Vec::new()]);
    assert_eq!(deleted, vec![junk]);
}

#[test]
fn a_sweep_buries_the_dead_but_the_player() {
    let mut st = storage(vec![
        (ent(1), stats(-2, 30, 0)),
        (ent(2), stats(0, 30, 0)),
        (ent(3), stats(9, 30, 0)),
    ]);
    let players = storage(vec![(ent(1), MovingPlayer {})]);
    let mut names = storage(vec![(ent(2), Name { name: "Orc".to_string() })]);
    let report = sweep_the_dead(&mut st, &players, &mut names);
    assert_eq!(report.dead, vec![ent(2)]);
    assert_eq!(report.log, vec![LogEntry::Dead { victim: ent(2) }]);
    assert_eq!(report.player_deaths, 1);
    let left: Vec<Entity> = st.entries.iter().map(|(e, _)| *e).collect();
    assert_eq!(left, vec![ent(1), ent(3)]);
    assert!(names.entries.is_empty());
    let again = sweep_the_dead(&mut st, &players, &mut names);
    assert!(again.dead.is_empty());
    assert!(again.log.is_empty());
}
