use vstd::prelude::*;
use crate::components::{Entity, Position, BlocksTile, Storage};
use crate::map::{GameMap, TileType, MAPCOUNT, spec_xy_idx};

verus! {

/// Records, for every tile, which entities stand on it and whether it is blocked.
pub struct MapIndexingSystem {}

/// The tile index of a position.
pub open spec fn pos_idx(p: Position) -> int {
    spec_xy_idx(p.x as int, p.y as int)
}

/// The position lies on the map.
pub open spec fn on_map(p: Position) -> bool {
    0 <= p.x && 0 <= p.y && pos_idx(p) < MAPCOUNT
}

/// The entities standing on tile `i`, in storage order.
pub open spec fn entities_at(s: Seq<(Entity, Position)>, i: int) -> Seq<Entity>
    decreases s.len(),
{
    if s.len() == 0 {
        seq![]
    } else {
        let rest = entities_at(s.drop_last(), i);
        if pos_idx(s.last().1) == i {
            rest.push(s.last().0)
        } else {
            rest
        }
    }
}

/// Some entity that blocks movement stands on tile `i`.
pub open spec fn blocker_at(s: Seq<(Entity, Position)>, blockers: Map<Entity, BlocksTile>, i: int) -> bool {
    exists|j: int| 0 <= j < s.len() && pos_idx(#[trigger] s[j].1) == i && blockers.dom().contains(s[j].0)
}

impl MapIndexingSystem {
    /// A tile is blocked exactly when it is a wall or a blocking entity stands
    /// on it; each tile lists the entities standing on it.
    pub fn run(&mut self, map: &mut GameMap, positions: &Storage<Position>, blockers: &Storage<BlocksTile>)
        requires
            old(map).well_formed(),
            blockers.wf(),
            forall|j: int| 0 <= j < positions.entries@.len() ==> on_map(#[trigger] positions.entries@[j].1),
        ensures
            final(map).well_formed(),
            final(map).tiles == old(map).tiles,
            final(map).rooms == old(map).rooms,
            forall|i: int|
                0 <= i < MAPCOUNT ==> #[trigger] final(map).blocked@[i] == (old(map).tiles@[i] == TileType::Wall
                    || blocker_at(positions.entries@, blockers@, i)),
            forall|i: int|
                0 <= i < MAPCOUNT ==> (#[trigger] final(map).tile_content@[i])@ == entities_at(
                    positions.entries@,
                    i,
                ),
    {
        map.populate_blocked();
        map.clear_content_index();
        let ghost s = positions.entries@;
        let mut k: usize = 0;
        while k < positions.entries.len()
            invariant
                k <= s.len(),
                s == positions.entries@,
                blockers.wf(),
                forall|j: int| 0 <= j < s.len() ==> on_map(#[trigger] s[j].1),
                map.well_formed(),
                map.tiles == old(map).tiles,
                map.rooms == old(map).rooms,
                forall|i: int|
                    0 <= i < MAPCOUNT ==> #[trigger] map.blocked@[i] == (old(map).tiles@[i] == TileType::Wall
                        || blocker_at(s.take(k as int), blockers@, i)),
                forall|i: int|
                    0 <= i < MAPCOUNT ==> (#[trigger] map.tile_content@[i])@ == entities_at(s.take(k as int), i),
            decreases s.len() - k,
        {
            let ghost pre = s.take(k as int);
            let ghost post = s.take(k + 1);
            assert(post.drop_last() =~= pre);
            let e = positions.entries[k].0;
            let p = positions.entries[k].1;
            assert(on_map(s[k as int].1));
            let idx = map.xy_idx(p.x, p.y);
            let blocks = blockers.contains(e);
            if blocks {
                map.blocked.set(idx, true);
            }
            let mut cell: Vec<Entity> = Vec::new();
            map.tile_content.set_and_swap(idx, &mut cell);
            cell.push(e);
            map.tile_content.set_and_swap(idx, &mut cell);
            proof {
                assert forall|i: int| 0 <= i < MAPCOUNT implies #[trigger] map.blocked@[i] == (
                old(map).tiles@[i] == TileType::Wall || blocker_at(post, blockers@, i)) by {
                    if blocker_at(pre, blockers@, i) {
                        let j = choose|j: int|
                            0 <= j < pre.len() && pos_idx(#[trigger] pre[j].1) == i && blockers@.dom().contains(
                                pre[j].0,
                            );
                        assert(post[j] == pre[j]);
                    }
                    if blocker_at(post, blockers@, i) {
                        let j = choose|j: int|
                            0 <= j < post.len() && pos_idx(#[trigger] post[j].1) == i && blockers@.dom().contains(
                                post[j].0,
                            );
                        if j < k {
                            assert(post[j] == pre[j]);
                        }
                    }
                    if i == idx && blocks {
                        assert(post[k as int] == s[k as int]);
                    }
                }
            }
            k = k + 1;
        }
        assert(s.take(k as int) =~= s);
    }
}

/// Every indexed entity is listed on the tile it stands on, and an entity is
/// listed on a tile only if it stands there.
pub proof fn lemma_entities_at(s: Seq<(Entity, Position)>, i: int)
    ensures
        forall|j: int| 0 <= j < s.len() && pos_idx(#[trigger] s[j].1) == i ==> entities_at(s, i).contains(s[j].0),
        forall|e: Entity| #[trigger] entities_at(s, i).contains(e) ==> exists|j: int|
            0 <= j < s.len() && s[j].0 == e && pos_idx(#[trigger] s[j].1) == i,
    decreases s.len(),
{
    if s.len() > 0 {
        let t = s.drop_last();
        lemma_entities_at(t, i);
        assert forall|j: int| 0 <= j < s.len() && pos_idx(#[trigger] s[j].1) == i implies entities_at(s, i).contains(s[j].0) by {
            if j < s.len() - 1 {
                assert(t[j] == s[j]);
                let k = choose|k: int| 0 <= k < entities_at(t, i).len() && entities_at(t, i)[k] == s[j].0;
                assert(entities_at(s, i)[k] == s[j].0);
            } else {
                assert(entities_at(s, i).last() == s[j].0);
            }
        }
        assert forall|e: Entity| #[trigger] entities_at(s, i).contains(e) implies exists|j: int|
            0 <= j < s.len() && s[j].0 == e && pos_idx(#[trigger] s[j].1) == i by {
            let k = choose|k: int| 0 <= k < entities_at(s, i).len() && entities_at(s, i)[k] == e;
            if k < entities_at(t, i).len() {
                assert(entities_at(t, i).contains(e));
                let j = choose|j: int| 0 <= j < t.len() && t[j].0 == e && pos_idx(#[trigger] t[j].1) == i;
                assert(s[j] == t[j]);
            } else {
                assert(s[s.len() - 1].0 == e);
            }
        }
    }
}

} // verus!
