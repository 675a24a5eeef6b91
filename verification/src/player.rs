use vstd::prelude::*;
use crate::components::{Entity, Position, CombatStats, Storage, has_key, lemma_same_keys, lemma_pairs_to_map};
use crate::state::RunState;

verus! {

/// Marks the entity that keyboard input moves and whose death ends the game.
/// (A marker of its own, apart from `components::Player`.)
#[derive(Clone, Copy, Debug)]
pub struct Player {}

/// The movement keys the player can press.
#[derive(Clone, Copy, PartialEq, Eq, Structural, Debug)]
pub enum Key {
    A,
    D,
    S,
    W,
    /// Any other key.
    Other,
}

/// `v` clamped to `lo..=hi`.
pub open spec fn clamp(v: int, lo: int, hi: int) -> int {
    if v < lo {
        lo
    } else if v > hi {
        hi
    } else {
        v
    }
}

/// A position moved by `(dx, dy)`, kept on the 80 by 50 screen.
pub open spec fn moved(p: Position, dx: int, dy: int) -> Position {
    Position { x: clamp(p.x + dx, 0, 79) as i32, y: clamp(p.y + dy, 0, 49) as i32 }
}

/// Positions after every player entity moved by `(dx, dy)`.
pub open spec fn move_players(positions: Map<Entity, Position>, players: Map<Entity, Player>, dx: int, dy: int) -> Map<
    Entity,
    Position,
> {
    Map::new(
        |e: Entity| positions.dom().contains(e),
        |e: Entity|
            if players.dom().contains(e) {
                moved(positions[e], dx, dy)
            } else {
                positions[e]
            },
    )
}

/// The move does not overflow for any player entity.
pub open spec fn move_fits(positions: Map<Entity, Position>, players: Map<Entity, Player>, dx: int, dy: int) -> bool {
    forall|e: Entity|
        positions.dom().contains(e) && players.dom().contains(e) ==> i32::MIN <= #[trigger] positions[e].x + dx
            <= i32::MAX && i32::MIN <= positions[e].y + dy <= i32::MAX
}

/// The step a key asks for, if any.
pub open spec fn key_delta(key: Option<Key>) -> Option<(int, int)> {
    match key {
        Some(Key::A) => Some((-1, 0)),
        Some(Key::D) => Some((1, 0)),
        Some(Key::S) => Some((0, 1)),
        Some(Key::W) => Some((0, -1)),
        _ => None,
    }
}

/// Moves every player entity by `(delta_x, delta_y)`, clamped to the screen.
pub fn try_move_player(
    delta_x: i32,
    delta_y: i32,
    positions: &mut Storage<Position>,
    players: &Storage<Player>,
)
    requires
        old(positions).wf(),
        players.wf(),
        move_fits(old(positions)@, players@, delta_x as int, delta_y as int),
    ensures
        final(positions).wf(),
        final(positions)@ == move_players(old(positions)@, players@, delta_x as int, delta_y as int),
{
    let ghost s0 = positions.entries@;
    proof {
        lemma_pairs_to_map(s0);
    }
    let mut k: usize = 0;
    while k < positions.entries.len()
        invariant
            k <= s0.len(),
            positions.entries@.len() == s0.len(),
            crate::components::distinct_keys(s0),
            players.wf(),
            crate::components::pairs_to_map(s0) == old(positions)@,
            move_fits(old(positions)@, players@, delta_x as int, delta_y as int),
            forall|j: int| 0 <= j < s0.len() ==> #[trigger] positions.entries@[j].0 == s0[j].0,
            forall|j: int|
                0 <= j < k ==> #[trigger] positions.entries@[j].1 == move_players(
                    old(positions)@,
                    players@,
                    delta_x as int,
                    delta_y as int,
                )[s0[j].0],
            forall|j: int| k <= j < s0.len() ==> #[trigger] positions.entries@[j].1 == s0[j].1,
        decreases s0.len() - k,
    {
        let e = positions.entries[k].0;
        let p = positions.entries[k].1;
        proof {
            lemma_pairs_to_map(s0);
            assert(old(positions)@[s0[k as int].0] == s0[k as int].1);
            assert(has_key(s0, e)) by {
                assert(s0[k as int].0 == e);
            }
        }
        if players.contains(e) {
            let nx = p.x + delta_x;
            let ny = p.y + delta_y;
            let x = if nx < 0 {
                0
            } else if nx > 79 {
                79
            } else {
                nx
            };
            let y = if ny < 0 {
                0
            } else if ny > 49 {
                49
            } else {
                ny
            };
            positions.entries.set(k, (e, Position { x, y }));
        }
        k = k + 1;
    }
    proof {
        lemma_same_keys(s0, positions.entries@);
        assert(positions@ =~= move_players(old(positions)@, players@, delta_x as int, delta_y as int)) by {
            assert forall|e: Entity| #[trigger] positions@.dom().contains(e) implies positions@[e]
                == move_players(old(positions)@, players@, delta_x as int, delta_y as int)[e] by {
                let j = choose|j: int|
                    0 <= j < positions.entries@.len() && #[trigger] positions.entries@[j].0 == e;
                assert(positions@[positions.entries@[j].0] == positions.entries@[j].1);
            }
        }
    }
}

/// Moves the player as the pressed key asks (A left, D right, S down, W up;
/// any other key or none moves nothing) and hands the turn on.
pub fn player_input(key: Option<Key>, positions: &mut Storage<Position>, players: &Storage<Player>) -> (r: RunState)
    requires
        old(positions).wf(),
        players.wf(),
        key_delta(key) matches Some(d) ==> move_fits(old(positions)@, players@, d.0, d.1),
    ensures
        r == RunState::PlayerTurn,
        final(positions).wf(),
        final(positions)@ == match key_delta(key) {
            Some(d) => move_players(old(positions)@, players@, d.0, d.1),
            None => old(positions)@,
        },
{
    match key {
        None => {},
        Some(k) => match k {
            Key::A => try_move_player(-1, 0, positions, players),
            Key::D => try_move_player(1, 0, positions, players),
            Key::S => try_move_player(0, 1, positions, players),
            Key::W => try_move_player(0, -1, positions, players),
            Key::Other => {},
        },
    }
    RunState::PlayerTurn
}

/// A moved position is always on the 80 by 50 screen.
pub proof fn lemma_moved_on_screen(p: Position, dx: int, dy: int)
    ensures
        0 <= moved(p, dx, dy).x <= 79,
        0 <= moved(p, dx, dy).y <= 49,
{
}

/// Each key moves every player entity one step its own way, kept on the 80 by
/// 50 screen: A one column left, D one column right, S one row down, W one row
/// up; any other key, or none, moves nothing. Entities that are not players
/// stay where they are.
pub proof fn lemma_keys_move_their_way(
    positions: Map<Entity, Position>,
    players: Map<Entity, Player>,
    key: Option<Key>,
    e: Entity,
)
    requires
        positions.dom().contains(e),
    ensures
        ({
            let p = positions[e];
            let after = match key_delta(key) {
                Some(d) => move_players(positions, players, d.0, d.1),
                None => positions,
            };
            &&& after.dom() == positions.dom()
            &&& !players.dom().contains(e) ==> after[e] == p
            &&& players.dom().contains(e) && key == Some(Key::A) ==> after[e].x == clamp(p.x - 1, 0, 79)
                && after[e].y == clamp(p.y as int, 0, 49)
            &&& players.dom().contains(e) && key == Some(Key::D) ==> after[e].x == clamp(p.x + 1, 0, 79)
                && after[e].y == clamp(p.y as int, 0, 49)
            &&& players.dom().contains(e) && key == Some(Key::S) ==> after[e].x == clamp(p.x as int, 0, 79)
                && after[e].y == clamp(p.y + 1, 0, 49)
            &&& players.dom().contains(e) && key == Some(Key::W) ==> after[e].x == clamp(p.x as int, 0, 79)
                && after[e].y == clamp(p.y - 1, 0, 49)
            &&& (key is None || key == Some(Key::Other)) ==> after[e] == p
        }),
{
    match key_delta(key) {
        Some(d) => {
            assert(move_players(positions, players, d.0, d.1).dom() =~= positions.dom());
        },
        None => {},
    }
}

/// Inside the screen, D undoes A and S undoes W.
pub proof fn lemma_opposite_keys_undo(p: Position)
    requires
        0 < p.x < 79,
        0 < p.y < 49,
    ensures
        ({
            let a = key_delta(Some(Key::A))->0;
            let d = key_delta(Some(Key::D))->0;
            let s = key_delta(Some(Key::S))->0;
            let w = key_delta(Some(Key::W))->0;
            &&& moved(moved(p, a.0, a.1), d.0, d.1) == p
            &&& moved(moved(p, w.0, w.1), s.0, s.1) == p
            &&& moved(p, a.0, a.1).x == p.x - 1
            &&& moved(p, w.0, w.1).y == p.y - 1
        }),
{
}

/// The player is dead: an entity with the marker the spawner gives the player
/// (`components::Player`), combat stats and a position has hit points below 1.
pub fn check_if_dead(
    players: &Storage<crate::components::Player>,
    stats: &Storage<CombatStats>,
    positions: &Storage<Position>,
) -> (r: bool)
    requires
        players.wf(),
        stats.wf(),
        positions.wf(),
    ensures
        r == exists|e: Entity|
            #[trigger] players@.contains_key(e) && stats@.contains_key(e) && positions@.contains_key(e)
                && stats@[e].hp < 1,
{
    proof {
        lemma_pairs_to_map(players.entries@);
    }
    let mut k: usize = 0;
    while k < players.entries.len()
        invariant
            k <= players.entries@.len(),
            players.wf(),
            stats.wf(),
            positions.wf(),
            forall|j: int|
                0 <= j < k ==> !(stats@.contains_key(#[trigger] players.entries@[j].0) && positions@.contains_key(
                    players.entries@[j].0,
                ) && stats@[players.entries@[j].0].hp < 1),
        decreases players.entries@.len() - k,
    {
        let e = players.entries[k].0;
        match stats.get(e) {
            Some(s) => {
                if s.hp < 1 && positions.contains(e) {
                    proof {
                        lemma_pairs_to_map(players.entries@);
                        assert(has_key(players.entries@, players.entries@[k as int].0));
                        assert(players@.contains_key(e));
                    }
                    return true;
                }
            },
            None => {},
        }
        k = k + 1;
    }
    proof {
        lemma_pairs_to_map(players.entries@);
        assert forall|e: Entity| #[trigger] players@.contains_key(e) implies !(stats@.contains_key(e)
            && positions@.contains_key(e) && stats@[e].hp < 1) by {
            assert(has_key(players.entries@, e));
            let j = choose|j: int| 0 <= j < players.entries@.len() && #[trigger] players.entries@[j].0 == e;
        }
    }
    false
}

} // verus!
