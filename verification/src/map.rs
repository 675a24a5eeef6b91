use vstd::prelude::*;
use crate::components::Entity;
use crate::rect::{Rect, spec_intersect, spec_center};
use crate::random::{new_rng, rng_range, rng_roll_dice};

verus! {

/// Width of the map in tiles.
pub const MAPWIDTH: usize = 80;

/// Height of the map in tiles.
pub const MAPHEIGHT: usize = 43;

/// Number of tiles on the map.
pub const MAPCOUNT: usize = 3440;

/// The kind of a map tile.
#[derive(PartialEq, Eq, Structural, Copy, Clone, Debug)]
pub enum TileType {
    Wall,
    Floor,
}

/// Index of the tile at `(x, y)` in a row-major map `MAPWIDTH` wide.
pub open spec fn spec_xy_idx(x: int, y: int) -> int {
    y * MAPWIDTH + x
}

/// `xy_idx` can compute the index of `(x, y)`: the row is 0 or more and its
/// start fits in a `usize`, and either the column is 0 or more and the index
/// fits in a `usize`, or the column lies so far left that the index is below 0.
pub open spec fn xy_idx_ok(x: int, y: int) -> bool {
    &&& 0 <= y
    &&& y * MAPWIDTH <= usize::MAX
    &&& if x >= 0 {
        spec_xy_idx(x, y) <= usize::MAX
    } else {
        spec_xy_idx(x, y) < 0
    }
}

/// Whether `xy_idx` can compute the index of `(x, y)` (see `xy_idx_ok`).
pub fn xy_idx_fits(x: i32, y: i32) -> (r: bool)
    ensures
        r == xy_idx_ok(x as int, y as int),
{
    if y < 0 {
        return false;
    }
    match (y as usize).checked_mul(MAPWIDTH) {
        None => false,
        Some(row) => {
            if x >= 0 {
                row.checked_add(x as usize).is_some()
            } else {
                (y as i64) * 80 + (x as i64) < 0
            }
        },
    }
}

/// The index `xy_idx` gives: `spec_xy_idx`, where a negative column wraps
/// around the range of a `usize`.
pub open spec fn wrapped_xy_idx(x: int, y: int) -> int {
    if x >= 0 {
        spec_xy_idx(x, y)
    } else {
        spec_xy_idx(x, y) + usize::MAX + 1
    }
}

/// Decoding a tile index as `(idx % MAPWIDTH, idx / MAPWIDTH)` gives back the
/// coordinates `xy_idx` encoded, for every column of the map.
pub proof fn lemma_xy_idx_round_trip(x: int, y: int)
    requires
        0 <= x < MAPWIDTH,
    ensures
        spec_xy_idx(x, y) % (MAPWIDTH as int) == x,
        spec_xy_idx(x, y) / (MAPWIDTH as int) == y,
{
    vstd::arithmetic::div_mod::lemma_fundamental_div_mod_converse(spec_xy_idx(x, y), MAPWIDTH as int, y, x);
}

/// `(x, y)` lies inside the room: the corners' lower row and column are its walls.
pub open spec fn in_room(room: Rect, x: int, y: int) -> bool {
    room.x1 < x <= room.x2 && room.y1 < y <= room.y2
}

/// Tile index `i` is a cell inside the room.
pub open spec fn room_covers(room: Rect, i: int) -> bool {
    exists|x: int, y: int| #![trigger spec_xy_idx(x, y)] in_room(room, x, y) && spec_xy_idx(x, y) == i
}

/// Tile index `i` is a cell inside the room that comes before `(xlim, ylim)` in
/// the order rows are carved (row by row, left to right).
pub open spec fn room_prefix_covers(room: Rect, ylim: int, xlim: int, i: int) -> bool {
    exists|x: int, y: int|
        #![trigger spec_xy_idx(x, y)]
        in_room(room, x, y) && (y < ylim || (y == ylim && x < xlim)) && spec_xy_idx(x, y) == i
}

/// The tile index of step `t` of a corridor along `fixed`: a row if `horz`, else a column.
pub open spec fn tunnel_cell(horz: bool, t: int, fixed: int) -> int {
    if horz {
        spec_xy_idx(t, fixed)
    } else {
        spec_xy_idx(fixed, t)
    }
}

/// The smaller of two integers.
pub open spec fn min_int(a: int, b: int) -> int {
    if a <= b {
        a
    } else {
        b
    }
}

/// The larger of two integers.
pub open spec fn max_int(a: int, b: int) -> int {
    if a >= b {
        a
    } else {
        b
    }
}

/// Tile index `i` is on the straight corridor between `c1` and `c2` along `fixed`.
pub open spec fn tunnel_covers(c1: int, c2: int, fixed: int, horz: bool, i: int) -> bool {
    exists|t: int|
        #![trigger tunnel_cell(horz, t, fixed)]
        min_int(c1, c2) <= t <= max_int(c1, c2) && tunnel_cell(horz, t, fixed) == i
}

/// Like `tunnel_covers`, for the steps before `tlim` only.
pub open spec fn tunnel_prefix_covers(lo: int, tlim: int, fixed: int, horz: bool, i: int) -> bool {
    exists|t: int| #![trigger tunnel_cell(horz, t, fixed)] lo <= t < tlim && tunnel_cell(horz, t, fixed) == i
}

/// Tile index `i` is on the L-shaped corridor from `a` to `b`: along `a`'s row and
/// then `b`'s column if `horizontal_first`, else along `a`'s column and then `b`'s row.
pub open spec fn corridor_covers(a: (int, int), b: (int, int), horizontal_first: bool, i: int) -> bool {
    if horizontal_first {
        tunnel_covers(a.0, b.0, a.1, true, i) || tunnel_covers(a.1, b.1, b.0, false, i)
    } else {
        tunnel_covers(a.1, b.1, a.0, false, i) || tunnel_covers(a.0, b.0, b.1, true, i)
    }
}

/// A room that lies strictly inside the map, with at least one cell.
pub open spec fn room_in_bounds(r: Rect) -> bool {
    0 <= r.x1 < r.x2 < MAPWIDTH && 0 <= r.y1 < r.y2 < MAPHEIGHT
}

/// The corridor that joins two rooms, in either of its two shapes.
pub open spec fn joins(a: Rect, b: Rect, i: int) -> bool {
    corridor_covers(spec_center(a), spec_center(b), true, i) || corridor_covers(
        spec_center(a),
        spec_center(b),
        false,
        i,
    )
}

/// Every tile of one of the two L-shaped corridors from the centre of `a` to
/// the centre of `b` (tile 0 aside) is floor.
pub open spec fn connected(tiles: Seq<TileType>, a: Rect, b: Rect) -> bool {
    ||| forall|i: int|
        0 < i < tiles.len() && #[trigger] corridor_covers(spec_center(a), spec_center(b), true, i)
            ==> tiles[i] == TileType::Floor
    ||| forall|i: int|
        0 < i < tiles.len() && #[trigger] corridor_covers(spec_center(a), spec_center(b), false, i)
            ==> tiles[i] == TileType::Floor
}

/// Tile `i` lies in one of the rooms or (tile 0 aside) on a corridor joining
/// two consecutive rooms.
pub open spec fn layout_covers(rooms: Seq<Rect>, i: int) -> bool {
    ||| exists|k: int| 0 <= k < rooms.len() && #[trigger] room_covers(rooms[k], i)
    ||| (0 < i && exists|k: int| 1 <= k < rooms.len() && #[trigger] joins(rooms[k - 1], rooms[k], i))
}

/// A room as the generator draws it: 6 to 9 tiles wide and high, with its
/// walls inside the map's outer frame.
pub open spec fn generated_room(r: Rect) -> bool {
    &&& 0 <= r.x1
    &&& r.x2 <= MAPWIDTH - 2
    &&& 0 <= r.y1
    &&& r.y2 <= MAPHEIGHT - 2
    &&& 6 <= r.x2 - r.x1 <= 9
    &&& 6 <= r.y2 - r.y1 <= 9
}

/// The room an attempt of the generator draws from its rolls: `w` wide and `h`
/// high, its corner `x_roll - 1` columns right of and `y_roll - 1` rows below
/// the top left.
pub open spec fn rolled_room(w: int, h: int, x_roll: int, y_roll: int) -> Rect {
    Rect { x1: (x_roll - 1) as i32, y1: (y_roll - 1) as i32, x2: (x_roll - 1 + w) as i32, y2: (y_roll - 1 + h) as i32 }
}

/// `m1` is `m0` with room `r` added as `add_room` adds it: the room's cells,
/// and (after a first room) the corridor of shape `horizontal_first` from the
/// last room's centre, turned to floor; nothing else changes.
pub open spec fn room_added(m0: GameMap, m1: GameMap, r: Rect, horizontal_first: bool) -> bool {
    &&& m1.well_formed()
    &&& m1.rooms@ == m0.rooms@.push(r)
    &&& forall|i: int|
        0 <= i < MAPCOUNT ==> #[trigger] m1.tiles@[i] == if room_covers(r, i) || (m0.rooms@.len() > 0 && 0 < i
            && corridor_covers(spec_center(m0.rooms@.last()), spec_center(r), horizontal_first, i)) {
            TileType::Floor
        } else {
            m0.tiles@[i]
        }
    &&& m1.blocked == m0.blocked
    &&& m1.tile_content == m0.tile_content
}

/// What one attempt of the generator comes to, given its four rolls.
#[derive(Clone, Copy, PartialEq, Eq, Structural, Debug)]
pub enum RoomAttempt {
    /// The room meets a room already placed: nothing changes.
    Rejected,
    /// The first room: placed, with no corridor.
    Added,
    /// The room is free, and the coin for its corridor is to be rolled.
    NeedsCoin(Rect),
}

/// What holds of every map the generator makes.
pub open spec fn generated_map(m: GameMap) -> bool {
    &&& m.well_formed()
    &&& 1 <= m.rooms@.len() <= 30
    &&& forall|k: int| 0 <= k < m.rooms@.len() ==> generated_room(#[trigger] m.rooms@[k])
    &&& forall|a: int, b: int|
        0 <= a < b < m.rooms@.len() ==> !spec_intersect(#[trigger] m.rooms@[a], #[trigger] m.rooms@[b])
    &&& forall|k: int, i: int|
        0 <= k < m.rooms@.len() && 0 <= i < MAPCOUNT && #[trigger] room_covers(m.rooms@[k], i)
            ==> m.tiles@[i] == TileType::Floor
    &&& forall|k: int|
        1 <= k < m.rooms@.len() ==> connected(m.tiles@, m.rooms@[k - 1], #[trigger] m.rooms@[k])
    &&& forall|i: int|
        0 <= i < MAPCOUNT && #[trigger] m.tiles@[i] == TileType::Floor ==> layout_covers(m.rooms@, i)
    &&& forall|i: int| 0 <= i < MAPCOUNT ==> !#[trigger] m.blocked@[i]
    &&& forall|i: int| 0 <= i < MAPCOUNT ==> (#[trigger] m.tile_content@[i])@.len() == 0
}

/// Whether `r` overlaps or touches any of `rooms`.
pub fn intersects_any(rooms: &Vec<Rect>, r: &Rect) -> (b: bool)
    ensures
        b == exists|k: int| 0 <= k < rooms@.len() && spec_intersect(#[trigger] rooms@[k], *r),
{
    let mut k: usize = 0;
    while k < rooms.len()
        invariant
            k <= rooms@.len(),
            forall|j: int| 0 <= j < k ==> !spec_intersect(#[trigger] rooms@[j], *r),
        decreases rooms@.len() - k,
    {
        if rooms[k].intersect(r) {
            return true;
        }
        k = k + 1;
    }
    false
}

/// The tile grid of a level, with what the systems index on it.
#[derive(Clone)]
pub struct GameMap {
    pub tiles: Vec<TileType>,
    pub rooms: Vec<Rect>,
    pub width: i32,
    pub height: i32,
    pub blocked: Vec<bool>,
    pub tile_content: Vec<Vec<Entity>>,
}

/// The step at index `t` in a row (`horz`) or column of the map.
proof fn lemma_tunnel_prefix_step(lo: int, t: int, t1: int, fixed: int, horz: bool)
    requires
        lo <= t,
        t1 == t + 1,
    ensures
        forall|i: int|
            #[trigger] tunnel_prefix_covers(lo, t1, fixed, horz, i) == (tunnel_prefix_covers(
                lo,
                t,
                fixed,
                horz,
                i,
            ) || i == tunnel_cell(horz, t, fixed)),
{
    assert forall|i: int|
        #[trigger] tunnel_prefix_covers(lo, t1, fixed, horz, i) == (tunnel_prefix_covers(lo, t, fixed, horz, i)
            || i == tunnel_cell(horz, t, fixed)) by {
        if i == tunnel_cell(horz, t, fixed) {
            assert(tunnel_prefix_covers(lo, t1, fixed, horz, i));
        }
        if tunnel_prefix_covers(lo, t1, fixed, horz, i) {
            let s = choose|s: int| #![trigger tunnel_cell(horz, s, fixed)]
                lo <= s < t + 1 && tunnel_cell(horz, s, fixed) == i;
            if s < t {
                assert(tunnel_prefix_covers(lo, t, fixed, horz, i));
            }
        }
        if tunnel_prefix_covers(lo, t, fixed, horz, i) {
            let s = choose|s: int| #![trigger tunnel_cell(horz, s, fixed)]
                lo <= s < t && tunnel_cell(horz, s, fixed) == i;
            assert(lo <= s < t + 1 && tunnel_cell(horz, s, fixed) == i);
        }
    }
}

/// Carving one more cell of a room extends the carved prefix by that cell.
proof fn lemma_room_prefix_step(room: Rect, y: int, x: int, x1: int)
    requires
        in_room(room, x, y),
        x1 == x + 1,
    ensures
        forall|i: int|
            #[trigger] room_prefix_covers(room, y, x1, i) == (room_prefix_covers(room, y, x, i) || i
                == spec_xy_idx(x, y)),
{
    assert forall|i: int|
        #[trigger] room_prefix_covers(room, y, x1, i) == (room_prefix_covers(room, y, x, i) || i == spec_xy_idx(
            x,
            y,
        )) by {
        if i == spec_xy_idx(x, y) {
            assert(room_prefix_covers(room, y, x1, i));
        }
        if room_prefix_covers(room, y, x1, i) {
            let (a, b) = choose|a: int, b: int|
                #![trigger spec_xy_idx(a, b)]
                in_room(room, a, b) && (b < y || (b == y && a < x + 1)) && spec_xy_idx(a, b) == i;
            if !(b == y && a == x) {
                assert(room_prefix_covers(room, y, x, i));
            }
        }
        if room_prefix_covers(room, y, x, i) {
            let (a, b) = choose|a: int, b: int|
                #![trigger spec_xy_idx(a, b)]
                in_room(room, a, b) && (b < y || (b == y && a < x)) && spec_xy_idx(a, b) == i;
            assert(in_room(room, a, b) && (b < y || (b == y && a < x + 1)) && spec_xy_idx(a, b) == i);
        }
    }
}

/// Finishing a row of a room is the same as starting the next one.
proof fn lemma_room_prefix_row(room: Rect, y: int, y1: int, xe: int, xs: int, ye: int, ys: int)
    requires
        y1 == y + 1,
        xe == room.x2 + 1,
        xs == room.x1 + 1,
        ye == room.y2 + 1,
        ys == room.y1 + 1,
    ensures
        forall|i: int|
            #[trigger] room_prefix_covers(room, y, xe, i) == room_prefix_covers(room, y1, xs, i),
        forall|i: int| #[trigger] room_prefix_covers(room, ye, xs, i) == room_covers(room, i),
        forall|i: int| !#[trigger] room_prefix_covers(room, ys, xs, i),
{
    assert forall|i: int|
        #[trigger] room_prefix_covers(room, y, xe, i) == room_prefix_covers(room, y1, xs, i) by {
        if room_prefix_covers(room, y, room.x2 + 1, i) {
            let (a, b) = choose|a: int, b: int|
                #![trigger spec_xy_idx(a, b)]
                in_room(room, a, b) && (b < y || (b == y && a < room.x2 + 1)) && spec_xy_idx(a, b)
                    == i;
            assert(in_room(room, a, b) && (b < y + 1 || (b == y + 1 && a < room.x1 + 1))
                && spec_xy_idx(a, b) == i);
        }
        if room_prefix_covers(room, y + 1, room.x1 + 1, i) {
            let (a, b) = choose|a: int, b: int|
                #![trigger spec_xy_idx(a, b)]
                in_room(room, a, b) && (b < y + 1 || (b == y + 1 && a < room.x1 + 1))
                    && spec_xy_idx(a, b) == i;
            assert(in_room(room, a, b) && (b < y || (b == y && a < room.x2 + 1)) && spec_xy_idx(a, b)
                == i);
        }
    }
    assert forall|i: int| #[trigger] room_prefix_covers(room, ye, xs, i) == room_covers(room, i) by {
        if room_covers(room, i) {
            let (a, b) = choose|a: int, b: int|
                #![trigger spec_xy_idx(a, b)]
                in_room(room, a, b) && spec_xy_idx(a, b) == i;
            assert(in_room(room, a, b) && (b < room.y2 + 1 || (b == room.y2 + 1 && a < room.x1 + 1))
                && spec_xy_idx(a, b) == i);
        }
    }
}

impl GameMap {
    /// The map has the fixed dimensions and one entry per tile in each layer.
    pub open spec fn well_formed(&self) -> bool {
        &&& self.tiles@.len() == MAPCOUNT
        &&& self.blocked@.len() == MAPCOUNT
        &&& self.tile_content@.len() == MAPCOUNT
        &&& self.width == MAPWIDTH
        &&& self.height == MAPHEIGHT
    }

    /// Index of the tile at `(x, y)`: `y * MAPWIDTH + x`, the column taken as
    /// a `usize`, so that a negative column wraps around.
    pub fn xy_idx(&self, x: i32, y: i32) -> (r: usize)
        requires
            xy_idx_ok(x as int, y as int),
        ensures
            r == wrapped_xy_idx(x as int, y as int),
    {
        let row = y as usize * MAPWIDTH;
        if x >= 0 {
            row + x as usize
        } else {
            row + (usize::MAX - (-(x + 1)) as usize)
        }
    }

    /// Turns every cell inside `room` into floor.
    fn apply_room_to_map(&mut self, room: &Rect)
        requires
            room.y1 < i32::MAX,
            room.y1 < room.y2 ==> room.x1 < i32::MAX,
            room.x1 < room.x2 && room.y1 < room.y2 ==> (-1 <= room.x1 && -1 <= room.y1
                && spec_xy_idx(room.x2 as int, room.y2 as int) < old(self).tiles@.len()),
        ensures
            final(self).tiles@.len() == old(self).tiles@.len(),
            forall|i: int|
                0 <= i < old(self).tiles@.len() ==> #[trigger] final(self).tiles@[i] == if room_covers(
                    *room,
                    i,
                ) {
                    TileType::Floor
                } else {
                    old(self).tiles@[i]
                },
            final(self).rooms == old(self).rooms,
            final(self).width == old(self).width,
            final(self).height == old(self).height,
            final(self).blocked == old(self).blocked,
            final(self).tile_content == old(self).tile_content,
    {
        let ghost t0 = self.tiles@;
        let mut y: i64 = room.y1 as i64 + 1;
        proof {
            lemma_room_prefix_row(*room, y - 1, y as int, room.x2 + 1, room.x1 + 1, room.y2 + 1, room.y1 + 1);
        }
        while y <= room.y2 as i64
            invariant
                room.y1 + 1 <= y <= room.y2 + 1 || (y == room.y1 + 1 && room.y2 < room.y1 + 1),
                room.y1 < room.y2 ==> room.x1 < i32::MAX,
                room.x1 < room.x2 && room.y1 < room.y2 ==> (-1 <= room.x1 && -1 <= room.y1
                    && spec_xy_idx(room.x2 as int, room.y2 as int) < t0.len()),
                self.tiles@.len() == t0.len(),
                forall|i: int|
                    0 <= i < t0.len() ==> #[trigger] self.tiles@[i] == if room_prefix_covers(
                        *room,
                        y as int,
                        room.x1 + 1,
                        i,
                    ) {
                        TileType::Floor
                    } else {
                        t0[i]
                    },
                self.rooms == old(self).rooms,
                self.width == old(self).width,
                self.height == old(self).height,
                self.blocked == old(self).blocked,
                self.tile_content == old(self).tile_content,
            decreases room.y2 + 1 - y,
        {
            let mut x: i64 = room.x1 as i64 + 1;
            while x <= room.x2 as i64
                invariant
                    room.y1 + 1 <= y <= room.y2,
                    room.x1 + 1 <= x <= room.x2 + 1 || (x == room.x1 + 1 && room.x2 < room.x1 + 1),
                    room.x1 < room.x2 ==> (-1 <= room.x1 && -1 <= room.y1 && spec_xy_idx(
                        room.x2 as int,
                        room.y2 as int,
                    ) < t0.len()),
                    self.tiles@.len() == t0.len(),
                    forall|i: int|
                        0 <= i < t0.len() ==> #[trigger] self.tiles@[i] == if room_prefix_covers(
                            *room,
                            y as int,
                            x as int,
                            i,
                        ) {
                            TileType::Floor
                        } else {
                            t0[i]
                        },
                    self.rooms == old(self).rooms,
                    self.width == old(self).width,
                    self.height == old(self).height,
                    self.blocked == old(self).blocked,
                    self.tile_content == old(self).tile_content,
                decreases room.x2 + 1 - x,
            {
                let n = self.tiles.len();
                assert(spec_xy_idx(x as int, y as int) <= spec_xy_idx(room.x2 as int, room.y2 as int));
                let idx = self.xy_idx(x as i32, y as i32);
                self.tiles.set(idx, TileType::Floor);
                proof {
                    lemma_room_prefix_step(*room, y as int, x as int, x + 1);
                }
                x = x + 1;
            }
            proof {
                lemma_room_prefix_row(*room, y as int, y + 1, room.x2 + 1, room.x1 + 1, room.y2 + 1, room.y1 + 1);
                if room.x2 < room.x1 + 1 {
                    assert forall|i: int|
                        room_prefix_covers(*room, y as int, x as int, i) == room_prefix_covers(
                            *room,
                            y as int,
                            room.x2 + 1,
                            i,
                        ) by {
                        if room_prefix_covers(*room, y as int, room.x2 + 1, i) {
                            let (a, b) = choose|a: int, b: int|
                                #![trigger spec_xy_idx(a, b)]
                                in_room(*room, a, b) && (b < y || (b == y && a < room.x2 + 1))
                                    && spec_xy_idx(a, b) == i;
                            assert(in_room(*room, a, b) && (b < y || (b == y && a < x))
                                && spec_xy_idx(a, b) == i);
                        }
                    }
                }
            }
            y = y + 1;
        }
        proof {
            lemma_room_prefix_row(*room, y as int, y + 1, room.x2 + 1, room.x1 + 1, room.y2 + 1, room.y1 + 1);
            if room.y2 < room.y1 + 1 {
                assert forall|i: int| !room_covers(*room, i) by {
                    if room_covers(*room, i) {
                        let (a, b) = choose|a: int, b: int|
                            #![trigger spec_xy_idx(a, b)]
                            in_room(*room, a, b) && spec_xy_idx(a, b) == i;
                    }
                }
            }
        }
    }
    /// Turns into floor the straight corridor from `coord1` to `coord2` along
    /// row `coord3` (if `horz`) or column `coord3`, skipping tile 0 and any
    /// index past `width * height`.
    fn apply_tunnel(&mut self, coord1: i32, coord2: i32, coord3: i32, horz: bool)
        requires
            0 <= min_int(coord1 as int, coord2 as int),
            0 <= coord3,
            tunnel_cell(horz, max_int(coord1 as int, coord2 as int), coord3 as int) <= usize::MAX,
            0 <= old(self).width,
            0 <= old(self).height,
            old(self).width * old(self).height <= old(self).tiles@.len(),
        ensures
            final(self).tiles@.len() == old(self).tiles@.len(),
            forall|i: int|
                0 <= i < old(self).tiles@.len() ==> #[trigger] final(self).tiles@[i] == if 0 < i
                    < old(self).width * old(self).height && tunnel_covers(
                    coord1 as int,
                    coord2 as int,
                    coord3 as int,
                    horz,
                    i,
                ) {
                    TileType::Floor
                } else {
                    old(self).tiles@[i]
                },
            final(self).rooms == old(self).rooms,
            final(self).width == old(self).width,
            final(self).height == old(self).height,
            final(self).blocked == old(self).blocked,
            final(self).tile_content == old(self).tile_content,
    {
        let ghost t0 = self.tiles@;
        let lo: i32 = if coord1 < coord2 {
            coord1
        } else {
            coord2
        };
        let hi: i32 = if coord1 < coord2 {
            coord2
        } else {
            coord1
        };
        let n = self.tiles.len();
        let mut t: i64 = lo as i64;
        while t <= hi as i64
            invariant
                lo <= t <= hi + 1,
                lo == min_int(coord1 as int, coord2 as int),
                hi == max_int(coord1 as int, coord2 as int),
                0 <= lo,
                0 <= coord3,
                tunnel_cell(horz, hi as int, coord3 as int) <= usize::MAX,
                0 <= self.width,
                0 <= self.height,
                self.width * self.height <= n,
                n == t0.len(),
                self.tiles@.len() == t0.len(),
                forall|i: int|
                    0 <= i < t0.len() ==> #[trigger] self.tiles@[i] == if 0 < i < self.width
                        * self.height && tunnel_prefix_covers(lo as int, t as int, coord3 as int, horz, i) {
                        TileType::Floor
                    } else {
                        t0[i]
                    },
                self.rooms == old(self).rooms,
                self.width == old(self).width,
                self.height == old(self).height,
                self.blocked == old(self).blocked,
                self.tile_content == old(self).tile_content,
            decreases hi + 1 - t,
        {
            let mut idx: usize = 0;
            if horz == true {
                idx = self.xy_idx(t as i32, coord3);
            } else {
                idx = self.xy_idx(coord3, t as i32);
            }
            assert(idx == tunnel_cell(horz, t as int, coord3 as int));
            if idx > 0 && idx < self.width as usize * self.height as usize {
                self.tiles.set(idx, TileType::Floor);
            }
            proof {
                lemma_tunnel_prefix_step(lo as int, t as int, t + 1, coord3 as int, horz);
            }
            t = t + 1;
        }
        proof {
            assert forall|i: int|
                tunnel_prefix_covers(lo as int, t as int, coord3 as int, horz, i) == tunnel_covers(
                    coord1 as int,
                    coord2 as int,
                    coord3 as int,
                    horz,
                    i,
                ) by {
                if tunnel_covers(coord1 as int, coord2 as int, coord3 as int, horz, i) {
                    let s = choose|s: int|
                        #![trigger tunnel_cell(horz, s, coord3 as int)]
                        min_int(coord1 as int, coord2 as int) <= s <= max_int(coord1 as int, coord2 as int)
                            && tunnel_cell(horz, s, coord3 as int) == i;
                    assert(lo <= s < t && tunnel_cell(horz, s, coord3 as int) == i);
                }
            }
        }
    }

    /// Turns into floor the corridor from `x1` to `x2` along row `y`.
    fn apply_horizontal_tunnel(&mut self, x1: i32, x2: i32, y: i32)
        requires
            0 <= min_int(x1 as int, x2 as int),
            0 <= y,
            tunnel_cell(true, max_int(x1 as int, x2 as int), y as int) <= usize::MAX,
            0 <= old(self).width,
            0 <= old(self).height,
            old(self).width * old(self).height <= old(self).tiles@.len(),
        ensures
            final(self).tiles@.len() == old(self).tiles@.len(),
            forall|i: int|
                0 <= i < old(self).tiles@.len() ==> #[trigger] final(self).tiles@[i] == if 0 < i
                    < old(self).width * old(self).height && tunnel_covers(
                    x1 as int,
                    x2 as int,
                    y as int,
                    true,
                    i,
                ) {
                    TileType::Floor
                } else {
                    old(self).tiles@[i]
                },
            final(self).rooms == old(self).rooms,
            final(self).width == old(self).width,
            final(self).height == old(self).height,
            final(self).blocked == old(self).blocked,
            final(self).tile_content == old(self).tile_content,
    {
        self.apply_tunnel(x1, x2, y, true)
    }

    /// Turns into floor the corridor from `y1` to `y2` along column `x`.
    fn apply_vertical_tunnel(&mut self, y1: i32, y2: i32, x: i32)
        requires
            0 <= min_int(y1 as int, y2 as int),
            0 <= x,
            tunnel_cell(false, max_int(y1 as int, y2 as int), x as int) <= usize::MAX,
            0 <= old(self).width,
            0 <= old(self).height,
            old(self).width * old(self).height <= old(self).tiles@.len(),
        ensures
            final(self).tiles@.len() == old(self).tiles@.len(),
            forall|i: int|
                0 <= i < old(self).tiles@.len() ==> #[trigger] final(self).tiles@[i] == if 0 < i
                    < old(self).width * old(self).height && tunnel_covers(
                    y1 as int,
                    y2 as int,
                    x as int,
                    false,
                    i,
                ) {
                    TileType::Floor
                } else {
                    old(self).tiles@[i]
                },
            final(self).rooms == old(self).rooms,
            final(self).width == old(self).width,
            final(self).height == old(self).height,
            final(self).blocked == old(self).blocked,
            final(self).tile_content == old(self).tile_content,
    {
        self.apply_tunnel(y1, y2, x, false);
    }
    /// Marks as blocked exactly the wall tiles.
    pub fn populate_blocked(&mut self)
        requires
            old(self).blocked@.len() >= old(self).tiles@.len(),
        ensures
            final(self).blocked@.len() == old(self).blocked@.len(),
            forall|i: int|
                0 <= i < old(self).tiles@.len() ==> #[trigger] final(self).blocked@[i] == (
                old(self).tiles@[i] == TileType::Wall),
            forall|i: int|
                old(self).tiles@.len() <= i < old(self).blocked@.len() ==> #[trigger] final(self).blocked@[i]
                    == old(self).blocked@[i],
            final(self).tiles == old(self).tiles,
            final(self).rooms == old(self).rooms,
            final(self).width == old(self).width,
            final(self).height == old(self).height,
            final(self).tile_content == old(self).tile_content,
    {
        let mut i: usize = 0;
        while i < self.tiles.len()
            invariant
                i <= self.tiles@.len(),
                self.tiles == old(self).tiles,
                self.blocked@.len() == old(self).blocked@.len(),
                self.blocked@.len() >= self.tiles@.len(),
                forall|j: int| 0 <= j < i ==> #[trigger] self.blocked@[j] == (self.tiles@[j] == TileType::Wall),
                forall|j: int| i <= j < self.blocked@.len() ==> #[trigger] self.blocked@[j] == old(self).blocked@[j],
                self.rooms == old(self).rooms,
                self.width == old(self).width,
                self.height == old(self).height,
                self.tile_content == old(self).tile_content,
            decreases self.tiles@.len() - i,
        {
            let wall = self.tiles[i] == TileType::Wall;
            self.blocked.set(i, wall);
            i = i + 1;
        }
    }

    /// Empties the list of entities of every tile.
    pub fn clear_content_index(&mut self)
        ensures
            final(self).tile_content@.len() == old(self).tile_content@.len(),
            forall|i: int|
                0 <= i < final(self).tile_content@.len() ==> (#[trigger] final(self).tile_content@[i])@.len() == 0,
            final(self).tiles == old(self).tiles,
            final(self).rooms == old(self).rooms,
            final(self).width == old(self).width,
            final(self).height == old(self).height,
            final(self).blocked == old(self).blocked,
    {
        let mut i: usize = 0;
        while i < self.tile_content.len()
            invariant
                i <= self.tile_content@.len(),
                self.tile_content@.len() == old(self).tile_content@.len(),
                forall|j: int| 0 <= j < i ==> (#[trigger] self.tile_content@[j])@.len() == 0,
                self.tiles == old(self).tiles,
                self.rooms == old(self).rooms,
                self.width == old(self).width,
                self.height == old(self).height,
                self.blocked == old(self).blocked,
            decreases self.tile_content@.len() - i,
        {
            self.tile_content.set(i, Vec::new());
            i = i + 1;
        }
    }
    /// Carves `new_room`, joins it to the last room by an L-shaped corridor
    /// (row first if `horizontal_first`) when there is one, and records it.
    pub fn add_room(&mut self, new_room: &Rect, horizontal_first: bool)
        requires
            old(self).well_formed(),
            room_in_bounds(*new_room),
            old(self).rooms@.len() > 0 ==> room_in_bounds(old(self).rooms@.last()),
        ensures
            final(self).well_formed(),
            final(self).rooms@ == old(self).rooms@.push(*new_room),
            forall|i: int|
                0 <= i < MAPCOUNT ==> #[trigger] final(self).tiles@[i] == if room_covers(*new_room, i) || (
                old(self).rooms@.len() > 0 && 0 < i && corridor_covers(
                    spec_center(old(self).rooms@.last()),
                    spec_center(*new_room),
                    horizontal_first,
                    i,
                )) {
                    TileType::Floor
                } else {
                    old(self).tiles@[i]
                },
            final(self).blocked == old(self).blocked,
            final(self).tile_content == old(self).tile_content,
    {
        self.apply_room_to_map(new_room);
        if !self.rooms.is_empty() {
            let (new_x, new_y) = new_room.center();
            let last = self.rooms.len() - 1;
            let (prev_x, prev_y) = self.rooms[last].center();
            if horizontal_first {
                self.apply_horizontal_tunnel(prev_x, new_x, prev_y);
                self.apply_vertical_tunnel(prev_y, new_y, new_x);
            } else {
                self.apply_vertical_tunnel(prev_y, new_y, prev_x);
                self.apply_horizontal_tunnel(prev_x, new_x, new_y);
            }
        }
        self.rooms.push(*new_room);
    }

    /// One attempt of the generator, given the room's size `w` by `h` (6 to 9
    /// each) and the rolls that place its corner (see `rolled_room`): a room
    /// that meets a room already placed is rejected; a first room is added; any
    /// other waits for the coin that shapes its corridor (see `join_room`).
    pub fn attempt_room(&mut self, w: i32, h: i32, x_roll: i32, y_roll: i32) -> (a: RoomAttempt)
        requires
            old(self).well_formed(),
            6 <= w < 10,
            6 <= h < 10,
            1 <= x_roll <= MAPWIDTH - w - 1,
            1 <= y_roll <= MAPHEIGHT - h - 1,
        ensures
            ({
                let r = rolled_room(w as int, h as int, x_roll as int, y_roll as int);
                &&& generated_room(r)
                &&& a == if exists|k: int| 0 <= k < old(self).rooms@.len() && spec_intersect(#[trigger] old(self).rooms@[k], r) {
                    RoomAttempt::Rejected
                } else if old(self).rooms@.len() == 0 {
                    RoomAttempt::Added
                } else {
                    RoomAttempt::NeedsCoin(r)
                }
                &&& a is Added ==> room_added(*old(self), *final(self), r, false)
                &&& !(a is Added) ==> *final(self) == *old(self)
            }),
    {
        let room = Rect::new(x_roll - 1, y_roll - 1, w, h);
        if intersects_any(&self.rooms, &room) {
            RoomAttempt::Rejected
        } else if self.rooms.is_empty() {
            self.add_room(&room, false);
            RoomAttempt::Added
        } else {
            RoomAttempt::NeedsCoin(room)
        }
    }

    /// Places a room that meets none of the rooms so far, joined to the last of
    /// them by the corridor the coin picks: on a 1 the horizontal leg is dug
    /// first, on anything else the vertical one.
    pub fn join_room(&mut self, room: &Rect, coin: i32)
        requires
            old(self).well_formed(),
            old(self).rooms@.len() > 0,
            room_in_bounds(old(self).rooms@.last()),
            room_in_bounds(*room),
        ensures
            room_added(*old(self), *final(self), *room, coin == 1),
    {
        self.add_room(room, coin == 1);
    }

    /// A new level: up to 30 random rooms, none overlapping another, each
    /// joined to the one placed before it by an L-shaped corridor.
    pub fn new_map_rooms_and_corridors() -> (m: GameMap)
        ensures
            generated_map(m),
    {
        let mut map = GameMap::default();
        let max_rooms: i32 = 30;
        let min_size: i32 = 6;
        let max_size: i32 = 10;
        let mut rng = new_rng();
        let mut attempt: i32 = 0;
        while attempt < max_rooms
            invariant
                0 <= attempt <= max_rooms,
                max_rooms == 30,
                min_size == 6,
                max_size == 10,
                attempt > 0 ==> map.rooms@.len() >= 1,
                map.rooms@.len() <= attempt,
                map.well_formed(),
                forall|k: int| 0 <= k < map.rooms@.len() ==> generated_room(#[trigger] map.rooms@[k]),
                forall|a: int, b: int|
                    0 <= a < b < map.rooms@.len() ==> !spec_intersect(
                        #[trigger] map.rooms@[a],
                        #[trigger] map.rooms@[b],
                    ),
                forall|k: int, i: int|
                    0 <= k < map.rooms@.len() && 0 <= i < MAPCOUNT && #[trigger] room_covers(
                        map.rooms@[k],
                        i,
                    ) ==> map.tiles@[i] == TileType::Floor,
                forall|k: int|
                    1 <= k < map.rooms@.len() ==> connected(map.tiles@, map.rooms@[k - 1], #[trigger] map.rooms@[k]),
                forall|i: int|
                    0 <= i < MAPCOUNT && #[trigger] map.tiles@[i] == TileType::Floor ==> layout_covers(
                        map.rooms@,
                        i,
                    ),
                forall|i: int| 0 <= i < MAPCOUNT ==> !#[trigger] map.blocked@[i],
                forall|i: int| 0 <= i < MAPCOUNT ==> (#[trigger] map.tile_content@[i])@.len() == 0,
            decreases max_rooms - attempt,
        {
            let w = rng_range(&mut rng, min_size, max_size);
            let h = rng_range(&mut rng, min_size, max_size);
            let x_roll = rng_roll_dice(&mut rng, 1, (MAPWIDTH as i32) - w - 1);
            let y_roll = rng_roll_dice(&mut rng, 1, (MAPHEIGHT as i32) - h - 1);
            let ghost old_map = map;
            let ghost r = rolled_room(w as int, h as int, x_roll as int, y_roll as int);
            match map.attempt_room(w, h, x_roll, y_roll) {
                RoomAttempt::Rejected => {},
                RoomAttempt::Added => {
                    proof {
                        lemma_add_room_keeps_layout(old_map, map, r, false);
                    }
                },
                RoomAttempt::NeedsCoin(room) => {
                    let coin = rng_range(&mut rng, 0, 2);
                    map.join_room(&room, coin);
                    proof {
                        lemma_add_room_keeps_layout(old_map, map, room, coin == 1);
                    }
                },
            }
            attempt = attempt + 1;
        }
        map
    }
}

/// Adding a room as `add_room` does keeps what the generator promises.
proof fn lemma_add_room_keeps_layout(m0: GameMap, m1: GameMap, r: Rect, hf: bool)
    requires
        m0.well_formed(),
        m1.well_formed(),
        generated_room(r),
        forall|k: int| 0 <= k < m0.rooms@.len() ==> generated_room(#[trigger] m0.rooms@[k]),
        !(exists|k: int| 0 <= k < m0.rooms@.len() && spec_intersect(#[trigger] m0.rooms@[k], r)),
        forall|a: int, b: int|
            0 <= a < b < m0.rooms@.len() ==> !spec_intersect(#[trigger] m0.rooms@[a], #[trigger] m0.rooms@[b]),
        forall|k: int, i: int|
            0 <= k < m0.rooms@.len() && 0 <= i < MAPCOUNT && #[trigger] room_covers(m0.rooms@[k], i)
                ==> m0.tiles@[i] == TileType::Floor,
        forall|k: int|
            1 <= k < m0.rooms@.len() ==> connected(m0.tiles@, m0.rooms@[k - 1], #[trigger] m0.rooms@[k]),
        forall|i: int|
            0 <= i < MAPCOUNT && #[trigger] m0.tiles@[i] == TileType::Floor ==> layout_covers(m0.rooms@, i),
        m1.rooms@ == m0.rooms@.push(r),
        forall|i: int|
            0 <= i < MAPCOUNT ==> #[trigger] m1.tiles@[i] == if room_covers(r, i) || (m0.rooms@.len() > 0
                && 0 < i && corridor_covers(spec_center(m0.rooms@.last()), spec_center(r), hf, i)) {
                TileType::Floor
            } else {
                m0.tiles@[i]
            },
    ensures
        forall|k: int| 0 <= k < m1.rooms@.len() ==> generated_room(#[trigger] m1.rooms@[k]),
        forall|a: int, b: int|
            0 <= a < b < m1.rooms@.len() ==> !spec_intersect(#[trigger] m1.rooms@[a], #[trigger] m1.rooms@[b]),
        forall|k: int, i: int|
            0 <= k < m1.rooms@.len() && 0 <= i < MAPCOUNT && #[trigger] room_covers(m1.rooms@[k], i)
                ==> m1.tiles@[i] == TileType::Floor,
        forall|k: int|
            1 <= k < m1.rooms@.len() ==> connected(m1.tiles@, m1.rooms@[k - 1], #[trigger] m1.rooms@[k]),
        forall|i: int|
            0 <= i < MAPCOUNT && #[trigger] m1.tiles@[i] == TileType::Floor ==> layout_covers(m1.rooms@, i),
{
    let n = m0.rooms@.len();
    assert forall|a: int, b: int|
        0 <= a < b < m1.rooms@.len() implies !spec_intersect(#[trigger] m1.rooms@[a], #[trigger] m1.rooms@[b]) by {
        if b == n {
            assert(m1.rooms@[a] == m0.rooms@[a]);
            if spec_intersect(m0.rooms@[a], r) {
                assert(exists|k: int| 0 <= k < m0.rooms@.len() && spec_intersect(#[trigger] m0.rooms@[k], r));
            }
        } else {
            assert(m1.rooms@[a] == m0.rooms@[a]);
            assert(m1.rooms@[b] == m0.rooms@[b]);
        }
    }
    assert forall|k: int, i: int|
        0 <= k < m1.rooms@.len() && 0 <= i < MAPCOUNT && #[trigger] room_covers(m1.rooms@[k], i)
            implies m1.tiles@[i] == TileType::Floor by {
        if k < n {
            assert(m1.rooms@[k] == m0.rooms@[k]);
            assert(m1.tiles@[i] == TileType::Floor || m0.tiles@[i] == m1.tiles@[i]);
        }
    }
    assert forall|k: int|
        1 <= k < m1.rooms@.len() implies connected(m1.tiles@, m1.rooms@[k - 1], #[trigger] m1.rooms@[k]) by {
        if k < n {
            assert(m1.rooms@[k] == m0.rooms@[k]);
            assert(m1.rooms@[k - 1] == m0.rooms@[k - 1]);
            assert(connected(m0.tiles@, m0.rooms@[k - 1], m0.rooms@[k]));
            assert forall|i: int| 0 <= i < MAPCOUNT && m0.tiles@[i] == TileType::Floor implies
                #[trigger] m1.tiles@[i] == TileType::Floor by {
            }
        } else {
            assert(m1.rooms@[k - 1] == m0.rooms@.last());
            assert forall|i: int|
                0 < i < MAPCOUNT && #[trigger] corridor_covers(
                    spec_center(m1.rooms@[k - 1]),
                    spec_center(m1.rooms@[k]),
                    hf,
                    i,
                ) implies m1.tiles@[i] == TileType::Floor by {
            }
        }
    }
    assert forall|i: int|
        0 <= i < MAPCOUNT && #[trigger] m1.tiles@[i] == TileType::Floor implies layout_covers(m1.rooms@, i) by {
        if m0.tiles@[i] == TileType::Floor {
            assert(layout_covers(m0.rooms@, i));
            if exists|k: int| 0 <= k < m0.rooms@.len() && #[trigger] room_covers(m0.rooms@[k], i) {
                let k = choose|k: int| 0 <= k < m0.rooms@.len() && #[trigger] room_covers(m0.rooms@[k], i);
                assert(m1.rooms@[k] == m0.rooms@[k]);
                assert(room_covers(m1.rooms@[k], i));
            } else {
                let k = choose|k: int| 1 <= k < m0.rooms@.len() && #[trigger] joins(m0.rooms@[k - 1], m0.rooms@[k], i);
                assert(m1.rooms@[k] == m0.rooms@[k]);
                assert(m1.rooms@[k - 1] == m0.rooms@[k - 1]);
                assert(joins(m1.rooms@[k - 1], m1.rooms@[k], i));
            }
        } else if room_covers(r, i) {
            assert(m1.rooms@[n as int] == r);
            assert(room_covers(m1.rooms@[n as int], i));
        } else {
            assert(m1.rooms@[n as int] == r);
            assert(m1.rooms@[n - 1] == m0.rooms@.last());
            assert(joins(m1.rooms@[n as int - 1], m1.rooms@[n as int], i));
        }
    }
}

impl Default for GameMap {
    /// An all-wall map of the fixed size, with no rooms, nothing blocked and no entities.
    fn default() -> (m: Self)
        ensures
            m.well_formed(),
            m.rooms@.len() == 0,
            forall|i: int| 0 <= i < MAPCOUNT ==> #[trigger] m.tiles@[i] == TileType::Wall,
            forall|i: int| 0 <= i < MAPCOUNT ==> !#[trigger] m.blocked@[i],
            forall|i: int| 0 <= i < MAPCOUNT ==> (#[trigger] m.tile_content@[i])@.len() == 0,
    {
        let mut tiles: Vec<TileType> = Vec::new();
        let mut blocked: Vec<bool> = Vec::new();
        let mut tile_content: Vec<Vec<Entity>> = Vec::new();
        let mut i: usize = 0;
        while i < MAPCOUNT
            invariant
                i <= MAPCOUNT,
                tiles@.len() == i,
                blocked@.len() == i,
                tile_content@.len() == i,
                forall|j: int| 0 <= j < i ==> #[trigger] tiles@[j] == TileType::Wall,
                forall|j: int| 0 <= j < i ==> !#[trigger] blocked@[j],
                forall|j: int| 0 <= j < i ==> (#[trigger] tile_content@[j])@.len() == 0,
            decreases MAPCOUNT - i,
        {
            tiles.push(TileType::Wall);
            blocked.push(false);
            tile_content.push(Vec::new());
            i = i + 1;
        }
        GameMap {
            tiles,
            rooms: Vec::new(),
            width: MAPWIDTH as i32,
            height: MAPHEIGHT as i32,
            blocked,
            tile_content,
        }
    }
}

/// The cells to draw for the map: tile `i` goes to column `i % 80` and row
/// `i / 80` of the screen, filled row by row from the top left.
pub fn draw_map(map: &GameMap) -> (cells: Vec<(i32, i32, TileType)>)
    requires
        (map.tiles@.len() as int) / (MAPWIDTH as int) <= i32::MAX,
    ensures
        cells@.len() == map.tiles@.len(),
        forall|i: int|
            0 <= i < cells@.len() ==> #[trigger] cells@[i] == (
                (i % MAPWIDTH as int) as i32,
                (i / MAPWIDTH as int) as i32,
                map.tiles@[i],
            ),
{
    let mut cells: Vec<(i32, i32, TileType)> = Vec::new();
    let mut y: i32 = 0;
    let mut x: i32 = 0;
    let mut idx: usize = 0;
    while idx < map.tiles.len()
        invariant
            idx <= map.tiles@.len(),
            (map.tiles@.len() as int) / (MAPWIDTH as int) <= i32::MAX,
            cells@.len() == idx,
            x == idx as int % MAPWIDTH as int,
            y == idx as int / MAPWIDTH as int,
            forall|i: int|
                0 <= i < idx ==> #[trigger] cells@[i] == (
                    (i % MAPWIDTH as int) as i32,
                    (i / MAPWIDTH as int) as i32,
                    map.tiles@[i],
                ),
        decreases map.tiles@.len() - idx,
    {
        let tile = map.tiles[idx];
        cells.push((x, y, tile));
        proof {
            vstd::arithmetic::div_mod::lemma_fundamental_div_mod(idx as int, MAPWIDTH as int);
            if x < 79 {
                vstd::arithmetic::div_mod::lemma_fundamental_div_mod_converse(idx + 1, MAPWIDTH as int, y as int, x + 1);
            } else {
                vstd::arithmetic::div_mod::lemma_fundamental_div_mod_converse(idx + 1, MAPWIDTH as int, y + 1, 0);
            }
        }
        x = x + 1;
        if x > 79 {
            x = 0;
            y = y + 1;
        }
        idx = idx + 1;
    }
    cells
}

/// The player starts on floor: the centre of the first room of a generated map
/// is a floor tile.
pub proof fn lemma_start_on_floor(m: GameMap)
    requires
        generated_map(m),
    ensures
        ({
            let c = spec_center(m.rooms@[0]);
            m.tiles@[spec_xy_idx(c.0, c.1)] == TileType::Floor
        }),
{
    let r = m.rooms@[0];
    assert(generated_room(r));
    crate::rect::lemma_center_inside(r);
    let c = spec_center(r);
    assert(in_room(r, c.0, c.1));
    assert(room_covers(r, spec_xy_idx(c.0, c.1)));
}

/// Two different tiles of the map have different indices.
pub proof fn lemma_xy_idx_injective(x1: int, y1: int, x2: int, y2: int)
    requires
        0 <= x1 < MAPWIDTH,
        0 <= x2 < MAPWIDTH,
        spec_xy_idx(x1, y1) == spec_xy_idx(x2, y2),
    ensures
        x1 == x2 && y1 == y2,
{
    lemma_xy_idx_round_trip(x1, y1);
    lemma_xy_idx_round_trip(x2, y2);
}

} // verus!
