use vstd::prelude::*;
use std::collections::HashMap;
use vstd::std_specs::iter::IteratorSpec;
use rltk::RandomNumberGenerator;
use crate::rect::Rect;
use crate::map::{MAPWIDTH, spec_xy_idx, lemma_xy_idx_round_trip};
use crate::random::rng_roll_dice;

verus! {

/// The most monsters a room is meant to hold at the first depth.
pub const MAX_MONSTERS: i32 = 4;

/// A name that a random table can give, with its weight.
pub struct RandomEntry {
    pub name: String,
    pub weight: i32,
}

/// A weighted table of names to draw from.
pub struct RandomTable {
    pub entries: Vec<RandomEntry>,
    pub total_weight: i32,
}

/// The sum of the weights of the entries.
pub open spec fn weight_sum(entries: Seq<RandomEntry>) -> int
    decreases entries.len(),
{
    if entries.len() == 0 {
        0
    } else {
        weight_sum(entries.drop_last()) + entries.last().weight
    }
}

/// Entry `i` is the one a roll of `roll` (from 0) lands on: the entries cover
/// `0..total` in order, each as many values as its weight.
pub open spec fn lands_on(entries: Seq<RandomEntry>, roll: int, i: int) -> bool {
    0 <= i < entries.len() && weight_sum(entries.take(i)) <= roll < weight_sum(entries.take(i + 1))
}

/// The sum of the weights grows with each entry of positive weight.
proof fn lemma_weight_sum_prefix(entries: Seq<RandomEntry>, i: int)
    requires
        0 <= i < entries.len(),
    ensures
        weight_sum(entries.take(i + 1)) == weight_sum(entries.take(i)) + entries[i].weight,
{
    assert(entries.take(i + 1).drop_last() =~= entries.take(i));
}

/// Every prefix sum of positive weights lies between 0 and the total.
proof fn lemma_weight_sum_bounds(entries: Seq<RandomEntry>, i: int)
    requires
        0 <= i <= entries.len(),
        forall|j: int| 0 <= j < entries.len() ==> #[trigger] entries[j].weight > 0,
    ensures
        0 <= weight_sum(entries.take(i)) <= weight_sum(entries),
    decreases entries.len(),
{
    if i == entries.len() {
        assert(entries.take(i) =~= entries);
        if entries.len() > 0 {
            lemma_weight_sum_bounds(entries.drop_last(), i - 1);
            assert(entries.drop_last().take(i - 1) =~= entries.drop_last());
        }
    } else {
        lemma_weight_sum_bounds(entries.drop_last(), i);
        assert(entries.drop_last().take(i) =~= entries.take(i));
        assert(entries.drop_last().take(entries.len() - 1) =~= entries.drop_last());
    }
}

impl RandomTable {
    /// Every weight is positive and `total_weight` is their sum.
    pub open spec fn wf(&self) -> bool {
        &&& self.total_weight == weight_sum(self.entries@)
        &&& forall|j: int| 0 <= j < self.entries@.len() ==> #[trigger] self.entries@[j].weight > 0
    }

    /// An empty table.
    pub fn new() -> (t: RandomTable)
        ensures
            t.wf(),
            t.entries@.len() == 0,
            t.total_weight == 0,
    {
        RandomTable { entries: Vec::new(), total_weight: 0 }
    }

    /// The table with `name` added at `weight`; a weight of 0 or less adds nothing.
    pub fn add(self, name: &str, weight: i32) -> (t: RandomTable)
        requires
            self.wf(),
            weight > 0 ==> self.total_weight + weight <= i32::MAX,
        ensures
            t.wf(),
            weight > 0 ==> t.entries@.len() == self.entries@.len() + 1 && t.entries@.drop_last()
                == self.entries@ && t.entries@.last().name@ == name@ && t.entries@.last().weight
                == weight,
            weight <= 0 ==> t.entries@ == self.entries@,
            t.total_weight == self.total_weight + if weight > 0 { weight as int } else { 0int },
            entry_pairs(t.entries@) == if weight > 0 {
                entry_pairs(self.entries@).push((name@, weight as int))
            } else {
                entry_pairs(self.entries@)
            },
    {
        let mut t = self;
        if weight > 0 {
            let ghost e0 = t.entries@;
            t.total_weight = t.total_weight + weight;
            t.entries.push(RandomEntry { name: name.to_owned(), weight });
            assert(t.entries@.drop_last() =~= e0);
            assert(entry_pairs(t.entries@) =~= entry_pairs(e0).push((name@, weight as int)));
        }
        t
    }

    /// The name that a roll of `roll` lands on (see `lands_on`).
    pub fn pick(&self, roll: i32) -> (name: String)
        requires
            self.wf(),
            0 <= roll < self.total_weight,
        ensures
            exists|i: int| lands_on(self.entries@, roll as int, i) && name@ == self.entries@[i].name@,
    {
        let mut r: i32 = roll;
        let mut idx: usize = 0;
        proof {
            lemma_weight_sum_bounds(self.entries@, 0);
            assert(self.entries@.take(0) =~= Seq::<RandomEntry>::empty());
        }
        while idx < self.entries.len() && r >= self.entries[idx].weight
            invariant
                self.wf(),
                0 <= roll < self.total_weight,
                idx <= self.entries@.len(),
                r == roll - weight_sum(self.entries@.take(idx as int)),
                0 <= r,
            decreases self.entries@.len() - idx,
        {
            proof {
                lemma_weight_sum_prefix(self.entries@, idx as int);
            }
            r = r - self.entries[idx].weight;
            idx = idx + 1;
        }
        if idx == self.entries.len() {
            proof {
                assert(self.entries@.take(idx as int) =~= self.entries@);
            }
            assert(false);
        }
        proof {
            lemma_weight_sum_prefix(self.entries@, idx as int);
            assert(lands_on(self.entries@, roll as int, idx as int));
        }
        self.entries[idx].name.clone()
    }

    /// Draws a name: a die of `total_weight` faces picks the entry (see
    /// `pick`); an empty table gives "None".
    pub fn roll(&self, rng: &mut RandomNumberGenerator) -> (name: String)
        requires
            self.wf(),
            self.total_weight < i32::MAX,
        ensures
            self.total_weight == 0 ==> name@ == "None"@,
            self.total_weight > 0 ==> exists|r: int, i: int|
                0 <= r < self.total_weight && lands_on(self.entries@, r, i) && name@
                    == self.entries@[i].name@,
    {
        if self.total_weight == 0 {
            return "None".to_owned();
        }
        proof {
            lemma_weight_sum_bounds(self.entries@, 0);
        }
        let roll = rng_roll_dice(rng, 1, self.total_weight) - 1;
        self.pick(roll)
    }
}

/// The name and weight of each entry.
pub open spec fn entry_pairs(entries: Seq<RandomEntry>) -> Seq<(Seq<char>, int)> {
    entries.map_values(|e: RandomEntry| (e.name@, e.weight as int))
}

/// The positive part of a weight.
pub open spec fn pos(w: int) -> int {
    if w > 0 {
        w
    } else {
        0
    }
}

/// The pairs of `s` whose weight is positive, in order.
pub open spec fn positive_weights(s: Seq<(Seq<char>, int)>) -> Seq<(Seq<char>, int)>
    decreases s.len(),
{
    if s.len() == 0 {
        seq![]
    } else if s.last().1 > 0 {
        positive_weights(s.drop_last()).push(s.last())
    } else {
        positive_weights(s.drop_last())
    }
}

/// What the room table offers at a depth, in order, before entries of weight
/// 0 or less are left out.
pub open spec fn room_table_candidates(map_depth: int) -> Seq<(Seq<char>, int)> {
    seq![
        ("Goblin"@, 10int),
        ("Team Lead Fire Sword"@, 2 + map_depth),
        ("Orc"@, 1 + map_depth),
        ("Health Potion"@, 6int),
        ("Magic Missile Scroll"@, 4int),
        ("Fireball Scroll"@, 2 + map_depth),
        ("Vampire Shield"@, 2 + map_depth),
    ]
}

/// A depth at which the weights of the room table, and their total, stay below `i32::MAX`.
pub open spec fn room_table_fits(map_depth: int) -> bool {
    &&& map_depth <= i32::MAX - 2
    &&& 20 + 3 * pos(2 + map_depth) + pos(1 + map_depth) < i32::MAX
}

/// One more candidate: kept when its weight is positive.
proof fn lemma_positive_weights_step(c: Seq<(Seq<char>, int)>, k: int)
    requires
        0 <= k < c.len(),
    ensures
        positive_weights(c.take(k + 1)) == if c[k].1 > 0 {
            positive_weights(c.take(k)).push(c[k])
        } else {
            positive_weights(c.take(k))
        },
{
    assert(c.take(k + 1).drop_last() =~= c.take(k));
}

/// Every kept pair is one of the candidates.
proof fn lemma_positive_weights_sub(c: Seq<(Seq<char>, int)>)
    ensures
        forall|k: int|
            0 <= k < positive_weights(c).len() ==> exists|j: int|
                0 <= j < c.len() && #[trigger] positive_weights(c)[k] == c[j],
    decreases c.len(),
{
    if c.len() > 0 {
        let t = c.drop_last();
        lemma_positive_weights_sub(t);
        assert forall|k: int| 0 <= k < positive_weights(c).len() implies exists|j: int|
            0 <= j < c.len() && #[trigger] positive_weights(c)[k] == c[j] by {
            if k < positive_weights(t).len() {
                let j = choose|j: int| 0 <= j < t.len() && #[trigger] positive_weights(t)[k] == t[j];
                assert(positive_weights(c)[k] == c[j]);
            } else {
                assert(positive_weights(c)[k] == c[c.len() - 1]);
            }
        }
    }
}

/// The table of what a room holds at a depth: the candidates of positive weight.
pub fn room_table(map_depth: i32) -> (t: RandomTable)
    requires
        room_table_fits(map_depth as int),
    ensures
        t.wf(),
        entry_pairs(t.entries@) == positive_weights(room_table_candidates(map_depth as int)),
        t.total_weight == 20 + 3 * pos(2 + map_depth) + pos(1 + map_depth),
{
    let ghost c = room_table_candidates(map_depth as int);
    let t = RandomTable::new();
    assert(entry_pairs(t.entries@) =~= positive_weights(c.take(0)));
    let t = t.add("Goblin", 10);
    proof {
        lemma_positive_weights_step(c, 0);
    }
    let t = t.add("Team Lead Fire Sword", 2 + map_depth);
    proof {
        lemma_positive_weights_step(c, 1);
    }
    let t = t.add("Orc", 1 + map_depth);
    proof {
        lemma_positive_weights_step(c, 2);
    }
    let t = t.add("Health Potion", 6);
    proof {
        lemma_positive_weights_step(c, 3);
    }
    let t = t.add("Magic Missile Scroll", 4);
    proof {
        lemma_positive_weights_step(c, 4);
    }
    let t = t.add("Fireball Scroll", 2 + map_depth);
    proof {
        lemma_positive_weights_step(c, 5);
    }
    let t = t.add("Vampire Shield", 2 + map_depth);
    proof {
        lemma_positive_weights_step(c, 6);
        assert(c.take(7) =~= c);
    }
    t
}

/// The candidates of the room table come in the order of `room_table_name`.
proof fn lemma_candidate_name(map_depth: int, j: int)
    requires
        0 <= j < 7,
    ensures
        room_table_candidates(map_depth).len() == 7,
        room_table_candidates(map_depth)[j].0 == room_table_name(j),
{
    let c = room_table_candidates(map_depth);
    if j == 0 {
        assert(c[0].0 == room_table_name(0));
    } else if j == 1 {
        assert(c[1].0 == room_table_name(1));
    } else if j == 2 {
        assert(c[2].0 == room_table_name(2));
    } else if j == 3 {
        assert(c[3].0 == room_table_name(3));
    } else if j == 4 {
        assert(c[4].0 == room_table_name(4));
    } else if j == 5 {
        assert(c[5].0 == room_table_name(5));
    } else {
        assert(c[6].0 == room_table_name(6));
    }
}

/// Every name of the room table at any depth is one of the seven room table names.
#[verifier::spinoff_prover]
proof fn lemma_room_table_names(t: RandomTable, map_depth: int)
    requires
        entry_pairs(t.entries@) == positive_weights(room_table_candidates(map_depth)),
    ensures
        forall|k: int| 0 <= k < t.entries@.len() ==> is_room_table_name((#[trigger] t.entries@[k]).name@),
{
    let c = room_table_candidates(map_depth);
    lemma_positive_weights_sub(c);
    assert(entry_pairs(t.entries@).len() == t.entries@.len());
    assert forall|k: int| 0 <= k < t.entries@.len() implies is_room_table_name(
        (#[trigger] t.entries@[k]).name@,
    ) by {
        assert(entry_pairs(t.entries@)[k] == (t.entries@[k].name@, t.entries@[k].weight as int));
        let j = choose|j: int| 0 <= j < c.len() && #[trigger] positive_weights(c)[k] == c[j];
        lemma_candidate_name(map_depth, j);
        assert(t.entries@[k].name@ == room_table_name(j));
    }
}

/// What a spawn point can hold.
#[derive(Clone, Copy, PartialEq, Eq, Structural, Debug)]
pub enum SpawnKind {
    Goblin,
    Orc,
    HealthPotion,
    MagicMissileScroll,
    TeamLeadFireSword,
    VampireShield,
}

/// What a table name spawns; a name without a spawner spawns nothing.
pub open spec fn spec_spawn_kind(name: Seq<char>) -> Option<SpawnKind> {
    if name == "Goblin"@ {
        Some(SpawnKind::Goblin)
    } else if name == "Orc"@ {
        Some(SpawnKind::Orc)
    } else if name == "Health Potion"@ {
        Some(SpawnKind::HealthPotion)
    } else if name == "Magic Missile Scrol"@ {
        Some(SpawnKind::MagicMissileScroll)
    } else if name == "Team Lead Fire Sword"@ {
        Some(SpawnKind::TeamLeadFireSword)
    } else if name == "Vampire Shield"@ {
        Some(SpawnKind::VampireShield)
    } else {
        None
    }
}

/// What the name spawns (see `spec_spawn_kind`).
pub fn spawn_kind(name: &String) -> (k: Option<SpawnKind>)
    ensures
        k == spec_spawn_kind(name@),
{
    if *name == "Goblin".to_owned() {
        Some(SpawnKind::Goblin)
    } else if *name == "Orc".to_owned() {
        Some(SpawnKind::Orc)
    } else if *name == "Health Potion".to_owned() {
        Some(SpawnKind::HealthPotion)
    } else if *name == "Magic Missile Scrol".to_owned() {
        Some(SpawnKind::MagicMissileScroll)
    } else if *name == "Team Lead Fire Sword".to_owned() {
        Some(SpawnKind::TeamLeadFireSword)
    } else if *name == "Vampire Shield".to_owned() {
        Some(SpawnKind::VampireShield)
    } else {
        None
    }
}

/// Something to create at a tile.
#[derive(Clone, Copy, PartialEq, Eq, Structural, Debug)]
pub struct Spawn {
    pub x: i32,
    pub y: i32,
    pub kind: SpawnKind,
}

/// The absolute value.
pub open spec fn abs(v: int) -> int {
    if v < 0 {
        -v
    } else {
        v
    }
}

/// The tiles a spawn in the room can land on: `1..=|x2 - x1|` columns right of
/// `x1` and `1..=|y2 - y1|` rows below `y1`.
pub open spec fn in_spawn_area(room: Rect, x: int, y: int) -> bool {
    room.x1 < x <= room.x1 + abs(room.x2 - room.x1) && room.y1 < y <= room.y1 + abs(room.y2 - room.y1)
}

/// Spawning in the room cannot fail: the room has width and height (each
/// short of `i32::MAX`), its spawn tiles lie from column and row 0 on and their
/// indices fit in a `usize`, and the depth keeps the draw count and the table's
/// weights within `i32`.
pub open spec fn spawn_room_ok(room: Rect, map_depth: int) -> bool {
    &&& room.x1 != room.x2
    &&& room.y1 != room.y2
    &&& -1 <= room.x1
    &&& -1 <= room.y1
    &&& i32::MIN < room.x2 - room.x1 <= i32::MAX
    &&& i32::MIN < room.y2 - room.y1 <= i32::MAX
    &&& abs(room.x2 - room.x1) < i32::MAX
    &&& abs(room.y2 - room.y1) < i32::MAX
    &&& room.x1 + abs(room.x2 - room.x1) <= i32::MAX
    &&& room.y1 + abs(room.y2 - room.y1) <= i32::MAX
    &&& spec_xy_idx(room.x1 + abs(room.x2 - room.x1), room.y1 + abs(room.y2 - room.y1)) <= usize::MAX
    &&& i32::MIN + 3 <= map_depth
    &&& room_table_fits(map_depth)
}

/// The tile index of a tile of the room's spawn area.
pub open spec fn spawn_tile(room: Rect, idx: int) -> bool {
    exists|x: int, y: int| #![trigger spec_xy_idx(x, y)] in_spawn_area(room, x, y) && spec_xy_idx(x, y) == idx
}

/// How many draws a room gets: a roll of 1 to 7 (the most monsters plus 3),
/// plus the depth less 1, less 3.
pub open spec fn draw_count(count_roll: int, map_depth: int) -> int {
    count_roll + (map_depth - 1) - 3
}

/// What populating a room asks for next.
#[derive(Clone, Copy, PartialEq, Eq, Structural, Debug)]
pub enum SpawnNeed {
    /// Two rolls for a tile of the room.
    Tile,
    /// A name from the room table, for the free tile just found.
    Name,
    /// Nothing: the room is done.
    Done,
}

/// The number of faces of the die rolled for a room's draw count: the most
/// monsters plus 3.
pub fn count_die() -> (d: i32)
    ensures
        d == MAX_MONSTERS + 3,
{
    MAX_MONSTERS + 3
}

/// The dice rolled for a tile of the room: as many faces as the room is wide,
/// for the column, and as it is high, for the row.
pub fn tile_dice(room: &Rect) -> (d: (i32, i32))
    requires
        i32::MIN < room.x2 - room.x1 <= i32::MAX,
        i32::MIN < room.y2 - room.y1 <= i32::MAX,
    ensures
        d.0 == abs(room.x2 - room.x1),
        d.1 == abs(room.y2 - room.y1),
{
    let dx = room.x2 - room.x1;
    let dy = room.y2 - room.y1;
    (if dx < 0 { -dx } else { dx }, if dy < 0 { -dy } else { dy })
}

/// Populating a room, between rolls: the points placed so far, the draw count
/// rolled, the draws not yet finished, the failed tries of the current draw,
/// and the free tile waiting for its name.
pub struct SpawnDrawing {
    pub points: HashMap<usize, String>,
    pub draws: i32,
    pub draws_left: i32,
    pub tries: i32,
    pub pending: Option<usize>,
}

impl SpawnDrawing {
    /// Every finished draw placed at most one point, so the points never
    /// outnumber the draws: at most the draw count (none when it is below 1).
    pub open spec fn wf(&self) -> bool {
        &&& self.points@.dom().finite()
        &&& self.points@.dom().len() + pos(self.draws_left as int) <= pos(self.draws as int)
        &&& self.draws_left <= self.draws
        &&& 0 <= self.tries < 20
    }

    /// The start of populating a room with the draw count rolled.
    pub fn start(count_roll: i32, map_depth: i32) -> (d: SpawnDrawing)
        requires
            i32::MIN + 1 <= map_depth,
            i32::MIN <= count_roll + (map_depth - 1) <= i32::MAX,
            i32::MIN <= draw_count(count_roll as int, map_depth as int) <= i32::MAX,
        ensures
            d.wf(),
            d.points@ == Map::<usize, String>::empty(),
            d.draws == draw_count(count_roll as int, map_depth as int),
            d.draws_left == d.draws,
            d.tries == 0,
            d.pending is None,
    {
        broadcast use vstd::std_specs::hash::group_hash_axioms;
        let draws = count_roll + (map_depth - 1) - 3;
        SpawnDrawing {
            points: HashMap::new(),
            draws,
            draws_left: draws,
            tries: 0,
            pending: None,
        }
    }

    /// What to roll next: a name for a free tile found, else a tile while a
    /// draw is left, else nothing.
    pub fn need(&self) -> (n: SpawnNeed)
        ensures
            n == if self.pending is Some {
                SpawnNeed::Name
            } else if self.draws_left > 0 {
                SpawnNeed::Tile
            } else {
                SpawnNeed::Done
            },
    {
        if self.pending.is_some() {
            SpawnNeed::Name
        } else if self.draws_left > 0 {
            SpawnNeed::Tile
        } else {
            SpawnNeed::Done
        }
    }

    /// Tries the tile `x_roll` columns right of `x1` and `y_roll` rows below
    /// `y1`: a free tile waits for its name; a taken one is a failed try, and the
    /// 20th failed try ends the draw.
    pub fn take_tile(&mut self, room: &Rect, x_roll: i32, y_roll: i32)
        requires
            old(self).wf(),
            old(self).pending is None,
            old(self).draws_left > 0,
            0 <= room.x1 + x_roll <= i32::MAX,
            0 <= room.y1 + y_roll <= i32::MAX,
            spec_xy_idx(room.x1 + x_roll, room.y1 + y_roll) <= usize::MAX,
        ensures
            final(self).wf(),
            final(self).draws == old(self).draws,
            ({
                let idx = spec_xy_idx(room.x1 + x_roll, room.y1 + y_roll) as usize;
                &&& final(self).points@ == old(self).points@
                &&& !old(self).points@.contains_key(idx) ==> final(self).pending == Some(idx)
                    && final(self).draws_left == old(self).draws_left && final(self).tries == old(self).tries
                &&& old(self).points@.contains_key(idx) ==> final(self).pending is None && if old(self).tries + 1 == 20 {
                    final(self).draws_left == old(self).draws_left - 1 && final(self).tries == 0
                } else {
                    final(self).draws_left == old(self).draws_left && final(self).tries == old(self).tries + 1
                }
            }),
    {
        broadcast use vstd::std_specs::hash::group_hash_axioms;
        let x = (room.x1 + x_roll) as usize;
        let y = (room.y1 + y_roll) as usize;
        let idx = (y * MAPWIDTH) + x;
        if !self.points.contains_key(&idx) {
            self.pending = Some(idx);
        } else {
            self.tries = self.tries + 1;
            if self.tries == 20 {
                self.draws_left = self.draws_left - 1;
                self.tries = 0;
            }
        }
    }

    /// Places the waiting tile with `name`, which ends the draw.
    pub fn take_name(&mut self, name: String)
        requires
            old(self).wf(),
            old(self).pending is Some,
            old(self).draws_left > 0,
        ensures
            final(self).wf(),
            final(self).draws == old(self).draws,
            final(self).points@ == old(self).points@.insert(old(self).pending->0, name),
            final(self).pending is None,
            final(self).draws_left == old(self).draws_left - 1,
            final(self).tries == 0,
    {
        broadcast use vstd::std_specs::hash::group_hash_axioms;
        let idx = self.pending.unwrap();
        self.points.insert(idx, name);
        self.pending = None;
        self.draws_left = self.draws_left - 1;
        self.tries = 0;
    }
}

/// What every set of spawn points chosen for the room at this depth satisfies:
/// at most `map_depth + 3` points (none below depth -2), at least one from
/// depth 4 on (every draw count is at least `map_depth - 3`, and the first try
/// of the first draw always finds a free tile), each on a tile of the room's
/// spawn area and named by the room table.
pub open spec fn spawn_points_ok(room: Rect, map_depth: int, points: Map<usize, String>) -> bool {
    &&& points.dom().finite()
    &&& points.dom().len() <= pos(map_depth + 3)
    &&& map_depth >= 4 ==> points.dom().len() >= 1
    &&& forall|idx: usize| #[trigger] points.contains_key(idx) ==> spawn_tile(room, idx as int)
    &&& forall|idx: usize|
        #[trigger] points.contains_key(idx) ==> exists|i: int| 0 <= i < 7 && points[idx]@ == room_table_name(i)
}

/// The random part of populating a room, driven by `SpawnDrawing`: a draw
/// count rolled on a 7-sided die, then for each draw up to 20 random tiles of
/// the room until a free one, which gets a name rolled from the room table.
fn choose_spawn_points(rng: &mut RandomNumberGenerator, room: &Rect, map_depth: i32) -> (points: HashMap<usize, String>)
    requires
        spawn_room_ok(*room, map_depth as int),
    ensures
        spawn_points_ok(*room, map_depth as int, points@),
        exists|count_roll: int|
            1 <= count_roll <= MAX_MONSTERS + 3 && points@.dom().len() <= pos(
                #[trigger] draw_count(count_roll, map_depth as int),
            ),
{
    broadcast use vstd::std_specs::hash::group_hash_axioms;
    let spawn_table = room_table(map_depth);
    proof {
        lemma_room_table_names(spawn_table, map_depth as int);
    }
    let count_roll = rng_roll_dice(rng, 1, count_die());
    let mut drawing = SpawnDrawing::start(count_roll, map_depth);
    let (w, h) = tile_dice(room);
    loop
        invariant
            spawn_room_ok(*room, map_depth as int),
            spawn_table.wf(),
            0 < spawn_table.total_weight < i32::MAX,
            forall|k: int| 0 <= k < spawn_table.entries@.len() ==> is_room_table_name(
                (#[trigger] spawn_table.entries@[k]).name@,
            ),
            w == abs(room.x2 - room.x1),
            h == abs(room.y2 - room.y1),
            1 <= count_roll <= 7,
            drawing.wf(),
            drawing.draws == draw_count(count_roll as int, map_depth as int),
            drawing.pending is Some ==> drawing.draws_left > 0 && spawn_tile(*room, drawing.pending->0 as int)
                && !drawing.points@.contains_key(drawing.pending->0),
            drawing.points@.dom().len() == 0 ==> drawing.tries == 0 && drawing.draws_left == drawing.draws,
            forall|idx: usize| #[trigger] drawing.points@.contains_key(idx) ==> spawn_tile(*room, idx as int),
            forall|idx: usize|
                #[trigger] drawing.points@.contains_key(idx) ==> exists|i: int|
                    0 <= i < 7 && drawing.points@[idx]@ == room_table_name(i),
        ensures
            drawing.pending is None,
            drawing.draws_left <= 0,
            drawing.wf(),
            drawing.draws == draw_count(count_roll as int, map_depth as int),
            spawn_points_ok(*room, map_depth as int, drawing.points@),
        decreases pos(drawing.draws_left as int) * 50 + if drawing.pending is None {
            2 * (20 - drawing.tries) + 1
        } else {
            0
        },
    {
        match drawing.need() {
            SpawnNeed::Tile => {
                let x_roll = rng_roll_dice(rng, 1, w);
                let y_roll = rng_roll_dice(rng, 1, h);
                let ghost x = room.x1 + x_roll;
                let ghost y = room.y1 + y_roll;
                assert(spec_xy_idx(x, y) <= spec_xy_idx(room.x1 + w, room.y1 + h));
                assert(in_spawn_area(*room, x, y));
                drawing.take_tile(room, x_roll, y_roll);
                proof {
                    if drawing.pending is Some {
                        assert(spawn_tile(*room, drawing.pending->0 as int));
                    }
                }
            },
            SpawnNeed::Name => {
                let name = spawn_table.roll(rng);
                let ghost before = drawing.points@;
                let ghost p = drawing.pending->0;
                drawing.take_name(name);
                proof {
                    let (r, t) = choose|r: int, t: int|
                        0 <= r < spawn_table.total_weight && lands_on(spawn_table.entries@, r, t) && name@
                            == spawn_table.entries@[t].name@;
                    assert(drawing.points@[p]@ == spawn_table.entries@[t].name@);
                    assert(drawing.points@.dom() =~= before.dom().insert(p));
                    assert forall|idx: usize| #[trigger] drawing.points@.contains_key(idx) implies exists|i: int|
                        0 <= i < 7 && drawing.points@[idx]@ == room_table_name(i) by {
                        if idx == p {
                            assert(is_room_table_name(spawn_table.entries@[t].name@));
                        } else {
                            assert(before.contains_key(idx));
                        }
                    }
                }
            },
            SpawnNeed::Done => {
                break;
            },
        }
    }
    assert(drawing.points@.dom().len() <= pos(draw_count(count_roll as int, map_depth as int)));
    drawing.points
}

/// `n` is one of the names of the room table.
pub open spec fn is_room_table_name(n: Seq<char>) -> bool {
    exists|i: int| 0 <= i < 7 && n == room_table_name(i)
}

/// The names of the room table, in order.
pub open spec fn room_table_name(i: int) -> Seq<char> {
    if i == 0 {
        "Goblin"@
    } else if i == 1 {
        "Team Lead Fire Sword"@
    } else if i == 2 {
        "Orc"@
    } else if i == 3 {
        "Health Potion"@
    } else if i == 4 {
        "Magic Missile Scroll"@
    } else if i == 5 {
        "Fireball Scroll"@
    } else {
        "Vampire Shield"@
    }
}

/// What to create for each spawn point: its tile, decoded from the index, and
/// the kind its name spawns; a point whose name spawns nothing is dropped.
pub open spec fn spawns_of(points: Seq<(usize, String)>) -> Seq<Spawn>
    decreases points.len(),
{
    if points.len() == 0 {
        seq![]
    } else {
        let rest = spawns_of(points.drop_last());
        let p = points.last();
        match spec_spawn_kind(p.1@) {
            Some(kind) => rest.push(
                Spawn {
                    x: (p.0 as int % MAPWIDTH as int) as i32,
                    y: (p.0 as int / MAPWIDTH as int) as i32,
                    kind,
                },
            ),
            None => rest,
        }
    }
}

/// Decodes spawn points into what to create (see `spawns_of`).
pub fn spawns_from_points(points: &Vec<(usize, String)>) -> (spawns: Vec<Spawn>)
    ensures
        spawns@ == spawns_of(points@),
{
    let mut spawns: Vec<Spawn> = Vec::new();
    let mut j: usize = 0;
    while j < points.len()
        invariant
            j <= points@.len(),
            spawns@ == spawns_of(points@.take(j as int)),
        decreases points@.len() - j,
    {
        assert(points@.take(j + 1).drop_last() =~= points@.take(j as int));
        let x = (points[j].0 % MAPWIDTH) as i32;
        let y = (points[j].0 / MAPWIDTH) as i32;
        match spawn_kind(&points[j].1) {
            Some(kind) => spawns.push(Spawn { x, y, kind }),
            None => {},
        }
        j = j + 1;
    }
    assert(points@.take(j as int) =~= points@);
    spawns
}

/// `order` lists the points of `points`, each once.
pub open spec fn lists(order: Seq<(usize, String)>, points: Map<usize, String>) -> bool {
    &&& order.len() == points.dom().len()
    &&& forall|j: int|
        0 <= j < order.len() ==> points.contains_key(#[trigger] order[j].0) && points[order[j].0]@ == order[j].1@
    &&& forall|j: int, k: int| 0 <= j < k < order.len() ==> #[trigger] order[j].0 != #[trigger] order[k].0
}

/// Lists the spawn points in the order the map hands them out.
fn list_points(points: &HashMap<usize, String>) -> (order: Vec<(usize, String)>)
    ensures
        lists(order@, points@),
{
    broadcast use vstd::std_specs::hash::group_hash_axioms;
    let mut order: Vec<(usize, String)> = Vec::new();
    for p in it: points.iter()
        invariant
            order@.len() == it.index(),
            it.seq() == points.iter().remaining(),
            forall|j: int|
                0 <= j < order@.len() ==> (#[trigger] order@[j]).0 == *it.seq()[j].0 && order@[j].1@ == it.seq()[j].1@,
    {
        order.push((*p.0, p.1.clone()));
    }
    proof {
        let v = points.iter().remaining();
        assert forall|j: int| 0 <= j < order@.len() implies points@.contains_key(#[trigger] order@[j].0)
            && points@[order@[j].0]@ == order@[j].1@ by {
            assert(points@.contains_key(*v[j].0) && points@[*v[j].0] == *v[j].1);
        }
        assert forall|j: int, k: int| 0 <= j < k < order@.len() implies #[trigger] order@[j].0
            != #[trigger] order@[k].0 by {
            assert(points@.contains_key(*v[j].0) && points@[*v[j].0] == *v[j].1);
            assert(points@.contains_key(*v[k].0) && points@[*v[k].0] == *v[k].1);
            assert(v[j] != v[k]);
        }
    }
    order
}

/// Populates a room: the spawn points are drawn (see `SpawnDrawing`, with the
/// dice of `count_die` and `tile_dice`), listed in the map's order, and decoded
/// into what to create. There are at most as many spawns as the draw count
/// rolled (at most `map_depth + 3`), each of a kind that a name of the room table
/// spawns; where the spawn area ends left of the map's last column, they stand
/// on distinct tiles of the spawn area.
pub fn spawn_room(rng: &mut RandomNumberGenerator, room: &Rect, map_depth: i32) -> (spawns: Vec<Spawn>)
    requires
        spawn_room_ok(*room, map_depth as int),
    ensures
        spawns@.len() <= pos(map_depth + 3),
        exists|count_roll: int|
            1 <= count_roll <= MAX_MONSTERS + 3 && spawns@.len() <= pos(
                #[trigger] draw_count(count_roll, map_depth as int),
            ),
        forall|j: int|
            0 <= j < spawns@.len() ==> exists|t: int|
                0 <= t < 7 && spec_spawn_kind(room_table_name(t)) == Some((#[trigger] spawns@[j]).kind),
        exists|points: Map<usize, String>, order: Seq<(usize, String)>|
            #![trigger lists(order, points)]
            spawn_points_ok(*room, map_depth as int, points) && lists(order, points) && spawns@
                == spawns_of(order),
        room.x1 + abs(room.x2 - room.x1) < MAPWIDTH ==> forall|j: int|
            0 <= j < spawns@.len() ==> in_spawn_area(*room, (#[trigger] spawns@[j]).x as int, spawns@[j].y as int),
        room.x1 + abs(room.x2 - room.x1) < MAPWIDTH ==> forall|j: int, k: int|
            0 <= j < k < spawns@.len() ==> (#[trigger] spawns@[j]).x != (#[trigger] spawns@[k]).x || spawns@[j].y
                != spawns@[k].y,
{
    let points = choose_spawn_points(rng, room, map_depth);
    let order = list_points(&points);
    let spawns = spawns_from_points(&order);
    proof {
        let o = order@;
        let m = points@;
        assert forall|j: int| 0 <= j < o.len() implies exists|t: int|
            0 <= t < 7 && (#[trigger] o[j]).1@ == room_table_name(t) by {
            assert(m.contains_key(o[j].0));
        }
        lemma_spawns_of_kinds(o);
        let c = choose|c: int|
            1 <= c <= MAX_MONSTERS + 3 && m.dom().len() <= pos(#[trigger] draw_count(c, map_depth as int));
        assert(spawns@.len() <= pos(draw_count(c, map_depth as int)));
        if room.x1 + abs(room.x2 - room.x1) < MAPWIDTH {
            assert forall|j: int| 0 <= j < o.len() implies in_spawn_area(
                *room,
                (#[trigger] o[j]).0 as int % MAPWIDTH as int,
                o[j].0 as int / MAPWIDTH as int,
            ) by {
                assert(m.contains_key(o[j].0));
                assert(spawn_tile(*room, o[j].0 as int));
                let (x, y) = choose|x: int, y: int| #![trigger spec_xy_idx(x, y)] in_spawn_area(*room, x, y) && spec_xy_idx(x, y) == o[j].0 as int;
                lemma_xy_idx_round_trip(x, y);
            }
            lemma_spawns_of(o, *room);
        }
        assert(spawn_points_ok(*room, map_depth as int, m) && lists(o, m) && spawns@ == spawns_of(o));
    }
    spawns
}

/// Decoding gives at most one spawn per point, of a kind a name of the room
/// table spawns.
proof fn lemma_spawns_of_kinds(points: Seq<(usize, String)>)
    requires
        forall|j: int| 0 <= j < points.len() ==> exists|t: int| 0 <= t < 7 && (#[trigger] points[j]).1@ == room_table_name(t),
    ensures
        spawns_of(points).len() <= points.len(),
        forall|j: int| 0 <= j < spawns_of(points).len() ==> exists|t: int| 0 <= t < 7 && spec_spawn_kind(room_table_name(t)) == Some((#[trigger] spawns_of(points)[j]).kind),
    decreases points.len(),
{
    if points.len() > 0 {
        let init = points.drop_last();
        assert forall|j: int| 0 <= j < init.len() implies exists|t: int| 0 <= t < 7 && (#[trigger] init[j]).1@ == room_table_name(t) by {
            assert(init[j] == points[j]);
        }
        lemma_spawns_of_kinds(init);
        let rest = spawns_of(init);
        let n = points.len() - 1;
        let p = points.last();
        assert(p == points[n]);
        let s = spawns_of(points);
        assert forall|j: int| 0 <= j < s.len() implies exists|t: int| 0 <= t < 7 && spec_spawn_kind(room_table_name(t)) == Some((#[trigger] s[j]).kind) by {
            if j < rest.len() {
                assert(s[j] == rest[j]);
            } else {
                let t = choose|t: int| 0 <= t < 7 && (#[trigger] points[n]).1@ == room_table_name(t);
                assert(spec_spawn_kind(room_table_name(t)) == Some(s[j].kind));
            }
        }
    }
}

/// Decoding keeps the points' tiles, distinctness and kinds.
proof fn lemma_spawns_of(points: Seq<(usize, String)>, room: Rect)
    requires
        forall|j: int, k: int| 0 <= j < k < points.len() ==> #[trigger] points[j].0 != #[trigger] points[k].0,
        forall|j: int|
            0 <= j < points.len() ==> in_spawn_area(
                room,
                (#[trigger] points[j]).0 as int % MAPWIDTH as int,
                points[j].0 as int / MAPWIDTH as int,
            ),
        forall|j: int| 0 <= j < points.len() ==> exists|t: int| 0 <= t < 7 && (#[trigger] points[j]).1@ == room_table_name(t),
        room.y1 + abs(room.y2 - room.y1) <= i32::MAX,
        -1 <= room.y1,
    ensures
        spawns_of(points).len() <= points.len(),
        forall|j: int| 0 <= j < spawns_of(points).len() ==> in_spawn_area(room, (#[trigger] spawns_of(points)[j]).x as int, spawns_of(points)[j].y as int),
        forall|j: int, k: int|
            0 <= j < k < spawns_of(points).len() ==> (#[trigger] spawns_of(points)[j]).x != (#[trigger] spawns_of(points)[k]).x || spawns_of(points)[j].y
                != spawns_of(points)[k].y,
        forall|j: int| 0 <= j < spawns_of(points).len() ==> exists|t: int| 0 <= t < 7 && spec_spawn_kind(room_table_name(t)) == Some((#[trigger] spawns_of(points)[j]).kind),
        forall|j: int| 0 <= j < spawns_of(points).len() ==> exists|k: int| 0 <= k < points.len() && (#[trigger] spawns_of(points)[j]).x == points[k].0 as int % MAPWIDTH as int && spawns_of(points)[j].y == points[k].0 as int / MAPWIDTH as int,
    decreases points.len(),
{
    if points.len() > 0 {
        let init = points.drop_last();
        lemma_spawns_of(init, room);
        let rest = spawns_of(init);
        let p = points.last();
        let n = points.len() - 1;
        assert(p == points[n]);
        match spec_spawn_kind(p.1@) {
            Some(kind) => {
                let s = spawns_of(points);
                assert(s == rest.push(Spawn { x: (p.0 as int % MAPWIDTH as int) as i32, y: (p.0 as int / MAPWIDTH as int) as i32, kind }));
                assert(in_spawn_area(room, p.0 as int % MAPWIDTH as int, p.0 as int / MAPWIDTH as int));
                assert forall|j: int, k: int|
                    0 <= j < k < s.len() implies (#[trigger] s[j]).x != (#[trigger] s[k]).x || s[j].y != s[k].y by {
                    if k == rest.len() {
                        assert(s[j] == rest[j]);
                        let m = choose|m: int| 0 <= m < init.len() && rest[j].x == init[m].0 as int % MAPWIDTH as int && rest[j].y == init[m].0 as int / MAPWIDTH as int;
                        assert(init[m] == points[m]);
                        assert(points[m].0 != points[n].0);
                        vstd::arithmetic::div_mod::lemma_fundamental_div_mod(points[m].0 as int, MAPWIDTH as int);
                        vstd::arithmetic::div_mod::lemma_fundamental_div_mod(points[n].0 as int, MAPWIDTH as int);
                    } else {
                        assert(s[j] == rest[j] && s[k] == rest[k]);
                    }
                }
                assert forall|j: int| 0 <= j < s.len() implies exists|t: int| 0 <= t < 7 && spec_spawn_kind(room_table_name(t)) == Some((#[trigger] s[j]).kind) by {
                    if j < rest.len() {
                        assert(s[j] == rest[j]);
                    } else {
                        let t = choose|t: int| 0 <= t < 7 && (#[trigger] points[n]).1@ == room_table_name(t);
                        assert(spec_spawn_kind(room_table_name(t)) == Some(s[j].kind));
                    }
                }
                assert forall|j: int| 0 <= j < s.len() implies exists|k: int| 0 <= k < points.len() && (#[trigger] s[j]).x == points[k].0 as int % MAPWIDTH as int && s[j].y == points[k].0 as int / MAPWIDTH as int by {
                    if j < rest.len() {
                        assert(s[j] == rest[j]);
                        let m = choose|m: int| 0 <= m < init.len() && rest[j].x == init[m].0 as int % MAPWIDTH as int && rest[j].y == init[m].0 as int / MAPWIDTH as int;
                        assert(init[m] == points[m]);
                    } else {
                        assert(s[j].x == points[n].0 as int % MAPWIDTH as int);
                    }
                }
                assert forall|j: int| 0 <= j < s.len() implies in_spawn_area(room, (#[trigger] s[j]).x as int, s[j].y as int) by {
                    if j < rest.len() {
                        assert(s[j] == rest[j]);
                    }
                }
            },
            None => {
                assert forall|j: int| 0 <= j < rest.len() implies exists|k: int| 0 <= k < points.len() && (#[trigger] rest[j]).x == points[k].0 as int % MAPWIDTH as int && rest[j].y == points[k].0 as int / MAPWIDTH as int by {
                    let m = choose|m: int| 0 <= m < init.len() && rest[j].x == init[m].0 as int % MAPWIDTH as int && rest[j].y == init[m].0 as int / MAPWIDTH as int;
                    assert(init[m] == points[m]);
                }
            },
        }
    }
}

/// A roll lands on at most one entry: the entries' ranges do not overlap.
pub proof fn lemma_lands_on_unique(entries: Seq<RandomEntry>, roll: int, i: int, j: int)
    requires
        forall|k: int| 0 <= k < entries.len() ==> #[trigger] entries[k].weight > 0,
        lands_on(entries, roll, i),
        lands_on(entries, roll, j),
    ensures
        i == j,
{
    if i < j {
        lemma_weight_sum_monotone(entries, i + 1, j);
    } else if j < i {
        lemma_weight_sum_monotone(entries, j + 1, i);
    }
}

/// Prefix sums of positive weights grow with the prefix.
proof fn lemma_weight_sum_monotone(entries: Seq<RandomEntry>, a: int, b: int)
    requires
        forall|k: int| 0 <= k < entries.len() ==> #[trigger] entries[k].weight > 0,
        0 <= a <= b <= entries.len(),
    ensures
        weight_sum(entries.take(a)) <= weight_sum(entries.take(b)),
    decreases b - a,
{
    if a < b {
        lemma_weight_sum_monotone(entries, a, b - 1);
        lemma_weight_sum_prefix(entries, b - 1);
    }
}

/// Every roll below the total lands on some entry.
pub proof fn lemma_lands_on_exists(entries: Seq<RandomEntry>, roll: int)
    requires
        forall|k: int| 0 <= k < entries.len() ==> #[trigger] entries[k].weight > 0,
        0 <= roll < weight_sum(entries),
    ensures
        exists|i: int| lands_on(entries, roll, i),
    decreases entries.len(),
{
    let n = entries.len();
    assert(entries.take(n as int) =~= entries);
    lemma_weight_sum_prefix(entries, n - 1);
    if roll >= weight_sum(entries.take(n - 1)) {
        assert(lands_on(entries, roll, n - 1));
    } else {
        let t = entries.drop_last();
        assert(t.take(n - 1) =~= t);
        assert(entries.take(n - 1) =~= t);
        lemma_lands_on_exists(t, roll);
        let i = choose|i: int| lands_on(t, roll, i);
        assert(t.take(i) =~= entries.take(i));
        assert(t.take(i + 1) =~= entries.take(i + 1));
        assert(lands_on(entries, roll, i));
    }
}

} // verus!
