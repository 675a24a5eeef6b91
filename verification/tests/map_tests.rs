use time_tunnel::map::{draw_map, intersects_any, GameMap, RoomAttempt, TileType, MAPCOUNT, MAPWIDTH};
use time_tunnel::rect::Rect;
use time_tunnel::state::player_start;

fn idx(x: i32, y: i32) -> usize {
    (y as usize) * MAPWIDTH + x as usize
}

#[test]
fn xy_idx_is_row_major() {
    let map = GameMap::default();
    assert_eq!(map.xy_idx(0, 0), 0);
    assert_eq!(map.xy_idx(3, 2), 163);
    assert_eq!(map.xy_idx(79, 42), 3439);
}

#[test]
fn xy_idx_wraps_a_negative_column() {
    let map = GameMap::default();
    assert_eq!(map.xy_idx(-5, 0), usize::MAX - 4);
    assert_eq!(map.xy_idx(-81, 1), usize::MAX);
    assert_eq!(map.xy_idx(-200, 2), usize::MAX - 39);
}

#[test]
fn xy_idx_round_trip() {
    let map = GameMap::default();
    for y in 0..43 {
        for x in 0..80 {
            let i = map.xy_idx(x, y);
            assert_eq!((i % MAPWIDTH) as i32, x);
            assert_eq!((i / MAPWIDTH) as i32, y);
        }
    }
}

#[test]
fn default_map_is_all_wall() {
    let map = GameMap::default();
    assert_eq!(map.width, 80);
    assert_eq!(map.height, 43);
    assert_eq!(map.tiles.len(), MAPCOUNT);
    assert!(map.tiles.iter().all(|t| *t == TileType::Wall));
    assert!(map.blocked.iter().all(|b| !*b));
    assert!(map.tile_content.iter().all(|c| c.is_empty()));
    assert!(map.rooms.is_empty());
}

#[test]
fn add_room_carves_only_the_interior() {
    let mut map = GameMap::default();
    let room = Rect::new(10, 10, 6, 6);
    map.add_room(&room, true);
    assert_eq!(map.rooms.len(), 1);
    for y in 10..=16 {
        for x in 10..=16 {
            let expected = if x > 10 && y > 10 { TileType::Floor } else { TileType::Wall };
            assert_eq!(map.tiles[idx(x, y)], expected, "at {} {}", x, y);
        }
    }
    assert_eq!(map.tiles[idx(17, 12)], TileType::Wall);
    let floors = map.tiles.iter().filter(|t| **t == TileType::Floor).count();
    assert_eq!(floors, 36);
}

#[test]
fn add_room_joins_horizontally_first() {
    let mut map = GameMap::default();
    let a = Rect::new(2, 2, 6, 6); // centre (5, 5)
    let b = Rect::new(30, 20, 6, 6); // centre (33, 23)
    map.add_room(&a, true);
    map.add_room(&b, true);
    // along row 5 from x 5 to 33, then down column 33 from y 5 to 23
    for x in 5..=33 {
        assert_eq!(map.tiles[idx(x, 5)], TileType::Floor);
    }
    for y in 5..=23 {
        assert_eq!(map.tiles[idx(33, y)], TileType::Floor);
    }
    assert_eq!(map.tiles[idx(5, 15)], TileType::Wall);
    assert_eq!(map.tiles[idx(20, 23)], TileType::Wall);
}

#[test]
fn add_room_joins_vertically_first() {
    let mut map = GameMap::default();
    let a = Rect::new(2, 2, 6, 6); // centre (5, 5)
    let b = Rect::new(30, 20, 6, 6); // centre (33, 23)
    map.add_room(&a, true);
    map.add_room(&b, false);
    for y in 5..=23 {
        assert_eq!(map.tiles[idx(5, y)], TileType::Floor);
    }
    for x in 5..=33 {
        assert_eq!(map.tiles[idx(x, 23)], TileType::Floor);
    }
    assert_eq!(map.tiles[idx(20, 5)], TileType::Wall);
}

#[test]
fn generated_maps_vary() {
    let mut widths = std::collections::HashSet::new();
    let mut most_rooms = 0;
    let mut corners = std::collections::HashSet::new();
    for _ in 0..20 {
        let map = GameMap::new_map_rooms_and_corridors();
        most_rooms = most_rooms.max(map.rooms.len());
        for r in map.rooms.iter() {
            widths.insert(r.x2 - r.x1);
            corners.insert((r.x1, r.y1));
        }
    }
    assert!(widths.len() > 1);
    assert!(most_rooms > 1);
    assert!(corners.len() > 2);
}

#[test]
fn generated_map_keeps_its_promises() {
    for _ in 0..20 {
        let map = GameMap::new_map_rooms_and_corridors();
        assert_eq!(map.tiles.len(), MAPCOUNT);
        assert!(!map.rooms.is_empty());
        assert!(map.rooms.len() <= 30);
        for (i, a) in map.rooms.iter().enumerate() {
            assert!(a.x1 >= 0 && a.x2 <= 78 && a.y1 >= 0 && a.y2 <= 41);
            assert!((6..=9).contains(&(a.x2 - a.x1)));
            assert!((6..=9).contains(&(a.y2 - a.y1)));
            for b in map.rooms.iter().skip(i + 1) {
                assert!(!a.intersect(b) && !b.intersect(a));
            }
            for y in a.y1 + 1..=a.y2 {
                for x in a.x1 + 1..=a.x2 {
                    assert_eq!(map.tiles[idx(x, y)], TileType::Floor);
                }
            }
        }
        let (px, py) = player_start(&map);
        assert_eq!(map.tiles[idx(px, py)], TileType::Floor);
        assert!(map.blocked.iter().all(|b| !*b));
    }
}

#[test]
fn rect_geometry() {
    let r = Rect::new(3, 4, 6, 8);
    assert_eq!((r.x1, r.y1, r.x2, r.y2), (3, 4, 9, 12));
    assert_eq!(r.center(), (6, 8));
    let neg = Rect { x1: -5, x2: 0, y1: -3, y2: 0 };
    assert_eq!(neg.center(), (-2, -1));
    let touching = Rect::new(9, 4, 3, 3);
    assert!(r.intersect(&touching) && touching.intersect(&r));
    let apart = Rect::new(10, 4, 3, 3);
    assert!(!r.intersect(&apart) && !apart.intersect(&r));
}

#[test]
fn intersects_any_checks_every_room() {
    let rooms = vec![Rect::new(0, 0, 6, 6), Rect::new(20, 20, 6, 6)];
    assert!(intersects_any(&rooms, &Rect::new(24, 24, 3, 3)));
    assert!(!intersects_any(&rooms, &Rect::new(10, 10, 3, 3)));
    assert!(!intersects_any(&Vec::new(), &Rect::new(10, 10, 3, 3)));
}

#[test]
fn populate_blocked_marks_walls() {
    let mut map = GameMap::default();
    map.add_room(&Rect::new(10, 10, 6, 6), true);
    map.blocked[0] = false;
    map.populate_blocked();
    assert!(map.blocked[0]);
    assert!(!map.blocked[idx(12, 12)]);
    assert!(map.blocked[idx(10, 12)]);
}

#[test]
fn draw_map_places_tiles_row_by_row() {
    let mut map = GameMap::default();
    map.add_room(&Rect::new(0, 0, 6, 6), true);
    let cells = draw_map(&map);
    assert_eq!(cells.len(), MAPCOUNT);
    assert_eq!(cells[0], (0, 0, TileType::Wall));
    assert_eq!(cells[79], (79, 0, TileType::Wall));
    assert_eq!(cells[81], (1, 1, TileType::Floor));
    assert_eq!(cells[3439], (79, 42, TileType::Wall));
}

#[test]
fn an_attempt_places_the_rolled_room() {
    let mut map = GameMap::default();
    assert_eq!(map.attempt_room(7, 8, 11, 5), RoomAttempt::Added);
    assert_eq!(map.rooms, vec![Rect::new(10, 4, 7, 8)]);
    assert_eq!(map.tiles[idx(12, 6)], TileType::Floor);
    assert_eq!(map.tiles[idx(10, 6)], TileType::Wall);
    let before = map.tiles.clone();
    assert_eq!(map.attempt_room(6, 6, 13, 7), RoomAttempt::Rejected);
    assert_eq!(map.rooms.len(), 1);
    assert_eq!(map.tiles, before);
    assert_eq!(map.attempt_room(6, 6, 41, 21), RoomAttempt::NeedsCoin(Rect::new(40, 20, 6, 6)));
    assert_eq!(map.rooms.len(), 1);
    assert_eq!(map.tiles, before);
}

#[test]
fn the_coin_shapes_the_corridor() {
    let mut across = GameMap::default();
    assert_eq!(across.attempt_room(7, 8, 11, 5), RoomAttempt::Added);
    let mut down = across.clone();
    let room = Rect::new(40, 20, 6, 6);
    across.join_room(&room, 1);
    down.join_room(&room, 0);
    assert_eq!(across.rooms, vec![Rect::new(10, 4, 7, 8), room]);
    assert_eq!(down.rooms, across.rooms);
    assert_eq!(across.tiles[idx(30, 8)], TileType::Floor);
    assert_eq!(across.tiles[idx(43, 15)], TileType::Floor);
    assert_eq!(across.tiles[idx(30, 23)], TileType::Wall);
    assert_eq!(down.tiles[idx(13, 15)], TileType::Floor);
    assert_eq!(down.tiles[idx(30, 23)], TileType::Floor);
    assert_eq!(down.tiles[idx(30, 8)], TileType::Wall);
}
