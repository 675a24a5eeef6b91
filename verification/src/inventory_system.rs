use vstd::prelude::*;
use crate::components::{
    Entity, Point, Position, InBackpack, WantsToPickupItem, WantsToDropItem, WantsToExplode, Storage,
    WantsToUseItem, CombatStats, SufferDamage, Consumable, ProvidesHealing, ProvidesWhack,
    InflictsDamage, AreaOfEffect, Protects, damage_amounts, add_damage, has_key, lemma_pairs_to_map,
};
use crate::map::{GameMap, MAPWIDTH, MAPHEIGHT, spec_xy_idx, xy_idx_ok, wrapped_xy_idx, xy_idx_fits};
use crate::gamelog::LogEntry;

verus! {

/// Moves items that entities want to pick up into their backpacks.
pub struct ItemCollectionSystem {}

/// Positions after the pickups: a picked-up item leaves the map.
pub open spec fn pickup_positions(pos: Map<Entity, Position>, reqs: Seq<(Entity, WantsToPickupItem)>) -> Map<
    Entity,
    Position,
>
    decreases reqs.len(),
{
    if reqs.len() == 0 {
        pos
    } else {
        pickup_positions(pos, reqs.drop_last()).remove(reqs.last().1.item)
    }
}

/// Backpack entries after the pickups: each picked-up item is owned by its collector.
pub open spec fn pickup_backpack(bp: Map<Entity, InBackpack>, reqs: Seq<(Entity, WantsToPickupItem)>) -> Map<
    Entity,
    InBackpack,
>
    decreases reqs.len(),
{
    if reqs.len() == 0 {
        bp
    } else {
        pickup_backpack(bp, reqs.drop_last()).insert(
            reqs.last().1.item,
            InBackpack { owner: reqs.last().1.collected_by },
        )
    }
}

/// The log lines of the pickups: one for each item the player picks up.
pub open spec fn pickup_log(player: Entity, reqs: Seq<(Entity, WantsToPickupItem)>) -> Seq<LogEntry>
    decreases reqs.len(),
{
    if reqs.len() == 0 {
        seq![]
    } else {
        let rest = pickup_log(player, reqs.drop_last());
        if reqs.last().1.collected_by == player {
            rest.push(LogEntry::PickedUp { item: reqs.last().1.item })
        } else {
            rest
        }
    }
}

impl ItemCollectionSystem {
    /// Carries out every pickup request in storage order, then clears them.
    pub fn run(
        &mut self,
        player: Entity,
        log: &mut Vec<LogEntry>,
        wants_pickup: &mut Storage<WantsToPickupItem>,
        positions: &mut Storage<Position>,
        backpack: &mut Storage<InBackpack>,
    )
        requires
            old(positions).wf(),
            old(backpack).wf(),
        ensures
            final(positions).wf(),
            final(backpack).wf(),
            final(positions)@ == pickup_positions(old(positions)@, old(wants_pickup).entries@),
            final(backpack)@ == pickup_backpack(old(backpack)@, old(wants_pickup).entries@),
            final(log)@ == old(log)@ + pickup_log(player, old(wants_pickup).entries@),
            final(wants_pickup).wf(),
            final(wants_pickup)@ == Map::<Entity, WantsToPickupItem>::empty(),
    {
        let ghost reqs = wants_pickup.entries@;
        let mut k: usize = 0;
        while k < wants_pickup.entries.len()
            invariant
                k <= reqs.len(),
                reqs == wants_pickup.entries@,
                positions.wf(),
                backpack.wf(),
                positions@ == pickup_positions(old(positions)@, reqs.take(k as int)),
                backpack@ == pickup_backpack(old(backpack)@, reqs.take(k as int)),
                log@ == old(log)@ + pickup_log(player, reqs.take(k as int)),
            decreases reqs.len() - k,
        {
            assert(reqs.take(k + 1).drop_last() =~= reqs.take(k as int));
            let pickup = wants_pickup.entries[k].1;
            positions.remove(pickup.item);
            backpack.insert(pickup.item, InBackpack { owner: pickup.collected_by });
            if pickup.collected_by == player {
                log.push(LogEntry::PickedUp { item: pickup.item });
            }
            assert(log@ =~= old(log)@ + pickup_log(player, reqs.take(k + 1)));
            k = k + 1;
        }
        assert(reqs.take(k as int) =~= reqs);
        wants_pickup.clear();
    }
}

/// Puts items that entities want to drop on the map where the dropper stands.
pub struct ItemDropSystem {}

/// The state that dropping items changes.
pub struct DropState {
    pub positions: Map<Entity, Position>,
    pub backpack: Map<Entity, InBackpack>,
    pub explode: Map<Entity, WantsToExplode>,
    pub log: Seq<LogEntry>,
}

/// One drop: the item takes the dropper's position, leaves the backpack, and a
/// bomb among the dropped items is set.
pub open spec fn drop_step(s: DropState, player: Entity, dropper: Entity, item: Entity) -> DropState {
    let log1 = if dropper == player {
        s.log.push(LogEntry::Dropped { item })
    } else {
        s.log
    };
    DropState {
        positions: s.positions.insert(item, s.positions[dropper]),
        backpack: s.backpack.remove(item),
        explode: if s.explode.dom().contains(item) {
            s.explode.insert(item, WantsToExplode { set: true, ..s.explode[item] })
        } else {
            s.explode
        },
        log: if s.explode.dom().contains(item) {
            log1.push(LogEntry::BombSet)
        } else {
            log1
        },
    }
}

/// The state after the drops, taken in order.
pub open spec fn drop_all(s: DropState, player: Entity, reqs: Seq<(Entity, WantsToDropItem)>) -> DropState
    decreases reqs.len(),
{
    if reqs.len() == 0 {
        s
    } else {
        drop_step(drop_all(s, player, reqs.drop_last()), player, reqs.last().0, reqs.last().1.item)
    }
}

/// Every dropper has a position when its turn comes.
pub open spec fn drops_ok(s: DropState, player: Entity, reqs: Seq<(Entity, WantsToDropItem)>) -> bool
    decreases reqs.len(),
{
    reqs.len() == 0 || (drops_ok(s, player, reqs.drop_last()) && drop_all(
        s,
        player,
        reqs.drop_last(),
    ).positions.dom().contains(reqs.last().0))
}

/// The state that `drops_ok` and `drop_all` start from.
pub open spec fn drop_state(
    positions: Map<Entity, Position>,
    backpack: Map<Entity, InBackpack>,
    explode: Map<Entity, WantsToExplode>,
    log: Seq<LogEntry>,
) -> DropState {
    DropState { positions, backpack, explode, log }
}

impl ItemDropSystem {
    /// Carries out every drop request in storage order, then clears them.
    pub fn run(
        &mut self,
        player: Entity,
        log: &mut Vec<LogEntry>,
        wants_drop: &mut Storage<WantsToDropItem>,
        positions: &mut Storage<Position>,
        backpack: &mut Storage<InBackpack>,
        wants_explode: &mut Storage<WantsToExplode>,
    )
        requires
            old(positions).wf(),
            old(backpack).wf(),
            old(wants_explode).wf(),
            drops_ok(
                drop_state(old(positions)@, old(backpack)@, old(wants_explode)@, old(log)@),
                player,
                old(wants_drop).entries@,
            ),
        ensures
            final(positions).wf(),
            final(backpack).wf(),
            final(wants_explode).wf(),
            drop_state(final(positions)@, final(backpack)@, final(wants_explode)@, final(log)@)
                == drop_all(
                drop_state(old(positions)@, old(backpack)@, old(wants_explode)@, old(log)@),
                player,
                old(wants_drop).entries@,
            ),
            final(wants_drop).wf(),
            final(wants_drop)@ == Map::<Entity, WantsToDropItem>::empty(),
    {
        let ghost reqs = wants_drop.entries@;
        let ghost s0 = drop_state(positions@, backpack@, wants_explode@, log@);
        let mut k: usize = 0;
        while k < wants_drop.entries.len()
            invariant
                k <= reqs.len(),
                reqs == wants_drop.entries@,
                positions.wf(),
                backpack.wf(),
                wants_explode.wf(),
                drops_ok(s0, player, reqs),
                drop_state(positions@, backpack@, wants_explode@, log@) == drop_all(
                    s0,
                    player,
                    reqs.take(k as int),
                ),
            decreases reqs.len() - k,
        {
            let ghost pre = reqs.take(k as int);
            assert(reqs.take(k + 1).drop_last() =~= pre);
            proof {
                lemma_drops_ok_prefix(s0, player, reqs, k + 1);
            }
            let dropper = wants_drop.entries[k].0;
            let item = wants_drop.entries[k].1.item;
            let dropper_pos = match positions.get(dropper) {
                Some(p) => *p,
                None => {
                    assert(false);
                    Position { x: 0, y: 0 }
                },
            };
            positions.insert(item, Position { x: dropper_pos.x, y: dropper_pos.y });
            backpack.remove(item);
            if dropper == player {
                log.push(LogEntry::Dropped { item });
            }
            match wants_explode.get(item) {
                Some(w) => {
                    let timer = w.timer;
                    wants_explode.insert(item, WantsToExplode { set: true, timer });
                    log.push(LogEntry::BombSet);
                },
                None => {},
            }
            k = k + 1;
        }
        assert(reqs.take(k as int) =~= reqs);
        wants_drop.clear();
    }
}

/// A prefix of acceptable drops is acceptable.
proof fn lemma_drops_ok_prefix(s: DropState, player: Entity, reqs: Seq<(Entity, WantsToDropItem)>, n: int)
    requires
        drops_ok(s, player, reqs),
        0 <= n <= reqs.len(),
    ensures
        drops_ok(s, player, reqs.take(n)),
    decreases reqs.len(),
{
    if n < reqs.len() {
        assert(reqs.drop_last().take(n) =~= reqs.take(n));
        lemma_drops_ok_prefix(s, player, reqs.drop_last(), n);
    } else {
        assert(reqs.take(n) =~= reqs);
    }
}

/// Applies the effects of items that entities want to use.
pub struct ItemUseSystem {}

/// The item components that decide what using an item does.
pub struct ItemCatalog {
    pub consumables: Storage<Consumable>,
    pub healing: Storage<ProvidesHealing>,
    pub inflict_damage: Storage<InflictsDamage>,
    pub aoe: Storage<AreaOfEffect>,
    pub protects: Storage<Protects>,
    pub whack: Storage<ProvidesWhack>,
}

impl ItemCatalog {
    /// Every storage of the catalog is well formed.
    pub open spec fn wf(&self) -> bool {
        &&& self.consumables.wf()
        &&& self.healing.wf()
        &&& self.inflict_damage.wf()
        &&& self.aoe.wf()
        &&& self.protects.wf()
        &&& self.whack.wf()
    }
}

/// A change an item makes to the combat stats of a target.
#[derive(Clone, Copy, PartialEq, Eq, Structural, Debug)]
pub enum StatEffect {
    /// Hit points go up by the amount, to at most the maximum.
    Heal(i32),
    /// Power goes up by the amount (and never down).
    Empower(i32),
    /// Deflections go up by the amount.
    Protect(i32),
}

/// The effect's arithmetic stays within `i32` on these stats.
pub open spec fn effect_fits(k: StatEffect, s: CombatStats) -> bool {
    match k {
        StatEffect::Heal(a) => i32::MIN <= s.hp + a <= i32::MAX,
        StatEffect::Empower(a) => i32::MIN <= s.power + a <= i32::MAX,
        StatEffect::Protect(a) => i32::MIN <= s.deflects + a <= i32::MAX,
    }
}

/// The stats after the effect.
pub open spec fn apply_effect(k: StatEffect, s: CombatStats) -> CombatStats {
    match k {
        StatEffect::Heal(a) => CombatStats {
            hp: if s.max_hp <= s.hp + a {
                s.max_hp
            } else {
                (s.hp + a) as i32
            },
            ..s
        },
        StatEffect::Empower(a) => CombatStats {
            power: if s.power >= s.power + a {
                s.power
            } else {
                (s.power + a) as i32
            },
            ..s
        },
        StatEffect::Protect(a) => CombatStats { deflects: (s.deflects + a) as i32, ..s },
    }
}

/// The log line for the player using `item` with this effect.
pub open spec fn effect_entry(k: StatEffect, item: Entity) -> LogEntry {
    match k {
        StatEffect::Heal(a) => LogEntry::Healed { item, amount: a },
        StatEffect::Empower(a) => LogEntry::Empowered { item, amount: a },
        StatEffect::Protect(a) => LogEntry::Protected { item, amount: a },
    }
}

/// The state that using items changes: stats, pending damage, the entities to
/// delete (in the order of the deletions, repeats included) and the log.
pub struct UseState {
    pub stats: Map<Entity, CombatStats>,
    pub damage: Map<Entity, Seq<i32>>,
    pub deleted: Seq<Entity>,
    pub log: Seq<LogEntry>,
}

/// The state made of the storages and lists that a use changes.
pub open spec fn use_state(
    stats: Map<Entity, CombatStats>,
    damage: Map<Entity, SufferDamage>,
    deleted: Seq<Entity>,
    log: Seq<LogEntry>,
) -> UseState {
    UseState { stats, damage: damage_amounts(damage), deleted, log }
}

/// The effect applied to each target in turn: a target with combat stats gets
/// the effect, a log line if the player used the item, and a deletion of the
/// item if it is consumable; a target without stats is passed over.
pub open spec fn effect_pass(
    s: UseState,
    targets: Seq<Entity>,
    k: StatEffect,
    item: Entity,
    by_player: bool,
    consumable: bool,
) -> UseState
    decreases targets.len(),
{
    if targets.len() == 0 {
        s
    } else {
        let m = effect_pass(s, targets.drop_last(), k, item, by_player, consumable);
        let t = targets.last();
        if m.stats.dom().contains(t) {
            UseState {
                stats: m.stats.insert(t, apply_effect(k, m.stats[t])),
                log: if by_player {
                    m.log.push(effect_entry(k, item))
                } else {
                    m.log
                },
                deleted: if consumable {
                    m.deleted.push(item)
                } else {
                    m.deleted
                },
                ..m
            }
        } else {
            m
        }
    }
}

/// The arithmetic of `effect_pass` stays within `i32` at every target.
pub open spec fn effect_pass_ok(
    s: UseState,
    targets: Seq<Entity>,
    k: StatEffect,
    item: Entity,
    by_player: bool,
    consumable: bool,
) -> bool
    decreases targets.len(),
{
    targets.len() == 0 || {
        let m = effect_pass(s, targets.drop_last(), k, item, by_player, consumable);
        &&& effect_pass_ok(s, targets.drop_last(), k, item, by_player, consumable)
        &&& m.stats.dom().contains(targets.last()) ==> effect_fits(k, m.stats[targets.last()])
    }
}

/// The damage recorded against each target in turn, with a log line per target
/// if the player used the item.
pub open spec fn damage_pass(s: UseState, targets: Seq<Entity>, amount: i32, item: Entity, by_player: bool) -> UseState
    decreases targets.len(),
{
    if targets.len() == 0 {
        s
    } else {
        let m = damage_pass(s, targets.drop_last(), amount, item, by_player);
        let t = targets.last();
        UseState {
            damage: add_damage(m.damage, t, amount),
            log: if by_player {
                m.log.push(LogEntry::Inflicted { item, target: t, amount })
            } else {
                m.log
            },
            ..m
        }
    }
}

/// The point lies strictly inside the map's outer frame.
pub open spec fn in_blast_bounds(p: Point) -> bool {
    p.x > 0 && p.x < MAPWIDTH - 1 && p.y > 0 && p.y < MAPHEIGHT - 1
}

/// The entities on the tiles of the blast that lie inside the frame, tile by tile.
pub open spec fn blast_targets(content: Seq<Vec<Entity>>, blast: Seq<Point>) -> Seq<Entity>
    decreases blast.len(),
{
    if blast.len() == 0 {
        seq![]
    } else {
        let rest = blast_targets(content, blast.drop_last());
        let p = blast.last();
        if in_blast_bounds(p) {
            rest + content[spec_xy_idx(p.x as int, p.y as int)]@
        } else {
            rest
        }
    }
}

/// Who an item use affects: the player when no target is given; else the
/// entities on the target tile, or on every tile of the blast for an item with
/// an area of effect.
pub open spec fn use_targets(
    player: Entity,
    req: WantsToUseItem,
    area: bool,
    blast: Seq<Point>,
    content: Seq<Vec<Entity>>,
) -> Seq<Entity> {
    match req.target {
        None => seq![player],
        Some(t) => if !area {
            content[wrapped_xy_idx(t.x as int, t.y as int)]@
        } else {
            blast_targets(content, blast)
        },
    }
}

/// Using `req.item`, requested by `user`: healing, then power, then damage,
/// then deflections, each on every target; a consumable item that was used on
/// some target (or has none of these effects) is deleted once more at the end.
pub open spec fn use_step(
    s: UseState,
    player: Entity,
    user: Entity,
    req: WantsToUseItem,
    blast: Seq<Point>,
    content: Seq<Vec<Entity>>,
    cat: ItemCatalog,
) -> UseState {
    let item = req.item;
    let targets = use_targets(player, req, cat.aoe@.dom().contains(item), blast, content);
    let by_player = user == player;
    let consumable = cat.consumables@.dom().contains(item);
    let heals = cat.healing@.dom().contains(item);
    let whacks = cat.whack@.dom().contains(item);
    let damages = cat.inflict_damage@.dom().contains(item);
    let protects = cat.protects@.dom().contains(item);
    let s1 = if heals {
        effect_pass(s, targets, StatEffect::Heal(cat.healing@[item].heal_amount), item, by_player, consumable)
    } else {
        s
    };
    let s2 = if whacks {
        effect_pass(s1, targets, StatEffect::Empower(cat.whack@[item].whack_amount), item, by_player, consumable)
    } else {
        s1
    };
    let s3 = if damages {
        damage_pass(s2, targets, cat.inflict_damage@[item].damage, item, by_player)
    } else {
        s2
    };
    let s4 = if protects {
        effect_pass(s3, targets, StatEffect::Protect(cat.protects@[item].deflections), item, by_player, consumable)
    } else {
        s3
    };
    let used = !(heals || whacks || damages || protects) || targets.len() > 0;
    if used && consumable {
        UseState { deleted: s4.deleted.push(item), ..s4 }
    } else {
        s4
    }
}

/// The target tile's index can be computed and is below `len`.
pub open spec fn target_indexable(t: Point, len: int) -> bool {
    xy_idx_ok(t.x as int, t.y as int) && wrapped_xy_idx(t.x as int, t.y as int) < len
}

/// `use_step` does not fail: a targeted tile (without an area of effect) is on
/// the map, an item that inflicts damage has a target whose index can be
/// computed, and no effect overflows.
pub open spec fn use_step_ok(
    s: UseState,
    player: Entity,
    user: Entity,
    req: WantsToUseItem,
    blast: Seq<Point>,
    content: Seq<Vec<Entity>>,
    cat: ItemCatalog,
) -> bool {
    let item = req.item;
    let area = cat.aoe@.dom().contains(item);
    let targets = use_targets(player, req, area, blast, content);
    let by_player = user == player;
    let consumable = cat.consumables@.dom().contains(item);
    let heals = cat.healing@.dom().contains(item);
    let whacks = cat.whack@.dom().contains(item);
    let damages = cat.inflict_damage@.dom().contains(item);
    let protects = cat.protects@.dom().contains(item);
    let s1 = if heals {
        effect_pass(s, targets, StatEffect::Heal(cat.healing@[item].heal_amount), item, by_player, consumable)
    } else {
        s
    };
    let s2 = if whacks {
        effect_pass(s1, targets, StatEffect::Empower(cat.whack@[item].whack_amount), item, by_player, consumable)
    } else {
        s1
    };
    let s3 = if damages {
        damage_pass(s2, targets, cat.inflict_damage@[item].damage, item, by_player)
    } else {
        s2
    };
    &&& match req.target {
        Some(t) => (!area ==> target_indexable(t, content.len() as int)) && (damages
            ==> target_indexable(t, usize::MAX + 1)),
        None => !damages,
    }
    &&& (heals ==> effect_pass_ok(
        s,
        targets,
        StatEffect::Heal(cat.healing@[item].heal_amount),
        item,
        by_player,
        consumable,
    ))
    &&& (whacks ==> effect_pass_ok(
        s1,
        targets,
        StatEffect::Empower(cat.whack@[item].whack_amount),
        item,
        by_player,
        consumable,
    ))
    &&& (protects ==> effect_pass_ok(
        s3,
        targets,
        StatEffect::Protect(cat.protects@[item].deflections),
        item,
        by_player,
        consumable,
    ))
}

/// The state after the requests, taken in order; `blasts[k]` is the field of
/// view from the target of request `k`.
pub open spec fn use_all(
    s: UseState,
    player: Entity,
    reqs: Seq<(Entity, WantsToUseItem)>,
    blasts: Seq<Vec<Point>>,
    content: Seq<Vec<Entity>>,
    cat: ItemCatalog,
) -> UseState
    decreases reqs.len(),
{
    if reqs.len() == 0 {
        s
    } else {
        use_step(
            use_all(s, player, reqs.drop_last(), blasts, content, cat),
            player,
            reqs.last().0,
            reqs.last().1,
            blasts[reqs.len() - 1]@,
            content,
            cat,
        )
    }
}

/// No request fails.
pub open spec fn use_all_ok(
    s: UseState,
    player: Entity,
    reqs: Seq<(Entity, WantsToUseItem)>,
    blasts: Seq<Vec<Point>>,
    content: Seq<Vec<Entity>>,
    cat: ItemCatalog,
) -> bool
    decreases reqs.len(),
{
    reqs.len() == 0 || (use_all_ok(s, player, reqs.drop_last(), blasts, content, cat) && use_step_ok(
        use_all(s, player, reqs.drop_last(), blasts, content, cat),
        player,
        reqs.last().0,
        reqs.last().1,
        blasts[reqs.len() - 1]@,
        content,
        cat,
    ))
}

/// A prefix of a pass that stays within `i32` stays within it.
proof fn lemma_effect_pass_ok_prefix(
    s: UseState,
    targets: Seq<Entity>,
    k: StatEffect,
    item: Entity,
    by_player: bool,
    consumable: bool,
    n: int,
)
    requires
        effect_pass_ok(s, targets, k, item, by_player, consumable),
        0 <= n <= targets.len(),
    ensures
        effect_pass_ok(s, targets.take(n), k, item, by_player, consumable),
    decreases targets.len(),
{
    if n < targets.len() {
        assert(targets.drop_last().take(n) =~= targets.take(n));
        lemma_effect_pass_ok_prefix(s, targets.drop_last(), k, item, by_player, consumable, n);
    } else {
        assert(targets.take(n) =~= targets);
    }
}

/// Appends the entities of `src` to `dst`.
fn extend_entities(dst: &mut Vec<Entity>, src: &Vec<Entity>)
    ensures
        final(dst)@ == old(dst)@ + src@,
{
    let mut j: usize = 0;
    while j < src.len()
        invariant
            j <= src@.len(),
            dst@ == old(dst)@ + src@.take(j as int),
        decreases src@.len() - j,
    {
        dst.push(src[j]);
        j = j + 1;
        assert(dst@ =~= old(dst)@ + src@.take(j as int));
    }
    assert(src@.take(j as int) =~= src@);
}

/// The entities an item use affects (see `use_targets`).
fn collect_targets(player: Entity, req: &WantsToUseItem, area: bool, blast: &Vec<Point>, map: &GameMap) -> (r: Vec<
    Entity,
>)
    requires
        map.well_formed(),
        match req.target {
            Some(t) => !area ==> target_indexable(t, map.tile_content@.len() as int),
            None => true,
        },
    ensures
        r@ == use_targets(player, *req, area, blast@, map.tile_content@),
{
    let mut targets: Vec<Entity> = Vec::new();
    match req.target {
        None => {
            targets.push(player);
            assert(targets@ =~= seq![player]);
        },
        Some(target) => {
            if !area {
                let idx = map.xy_idx(target.x, target.y);
                extend_entities(&mut targets, &map.tile_content[idx]);
                assert(targets@ =~= map.tile_content@[idx as int]@);
            } else {
                let mut j: usize = 0;
                while j < blast.len()
                    invariant
                        j <= blast@.len(),
                        map.well_formed(),
                        targets@ == blast_targets(map.tile_content@, blast@.take(j as int)),
                    decreases blast@.len() - j,
                {
                    assert(blast@.take(j + 1).drop_last() =~= blast@.take(j as int));
                    let p = blast[j];
                    if p.x > 0 && p.x < map.width - 1 && p.y > 0 && p.y < map.height - 1 {
                        let idx = map.xy_idx(p.x, p.y);
                        extend_entities(&mut targets, &map.tile_content[idx]);
                    }
                    j = j + 1;
                }
                assert(blast@.take(j as int) =~= blast@);
            }
        },
    }
    targets
}

/// Applies `k` to each target in turn (see `effect_pass`).
fn apply_effect_pass(
    stats: &mut Storage<CombatStats>,
    suffer: &Storage<SufferDamage>,
    deleted: &mut Vec<Entity>,
    log: &mut Vec<LogEntry>,
    targets: &Vec<Entity>,
    k: StatEffect,
    item: Entity,
    by_player: bool,
    consumable: bool,
) -> (fits: bool)
    requires
        old(stats).wf(),
    ensures
        final(stats).wf(),
        fits == effect_pass_ok(
            use_state(old(stats)@, suffer@, old(deleted)@, old(log)@),
            targets@,
            k,
            item,
            by_player,
            consumable,
        ),
        fits ==> use_state(final(stats)@, suffer@, final(deleted)@, final(log)@) == effect_pass(
            use_state(old(stats)@, suffer@, old(deleted)@, old(log)@),
            targets@,
            k,
            item,
            by_player,
            consumable,
        ),
{
    let ghost s0 = use_state(stats@, suffer@, deleted@, log@);
    let mut j: usize = 0;
    while j < targets.len()
        invariant
            j <= targets@.len(),
            stats.wf(),
            s0 == use_state(old(stats)@, suffer@, old(deleted)@, old(log)@),
            effect_pass_ok(s0, targets@.take(j as int), k, item, by_player, consumable),
            use_state(stats@, suffer@, deleted@, log@) == effect_pass(
                s0,
                targets@.take(j as int),
                k,
                item,
                by_player,
                consumable,
            ),
        decreases targets@.len() - j,
    {
        let ghost pre = targets@.take(j as int);
        assert(targets@.take(j + 1).drop_last() =~= pre);
        let t = targets[j];
        match stats.get(t) {
            Some(st) => {
                let cur = *st;
                let fits_here = match k {
                    StatEffect::Heal(a) => (cur.hp as i64) + (a as i64) >= i32::MIN as i64 && (cur.hp as i64) + (a as i64)
                        <= i32::MAX as i64,
                    StatEffect::Empower(a) => (cur.power as i64) + (a as i64) >= i32::MIN as i64 && (cur.power as i64)
                        + (a as i64) <= i32::MAX as i64,
                    StatEffect::Protect(a) => (cur.deflects as i64) + (a as i64) >= i32::MIN as i64
                        && (cur.deflects as i64) + (a as i64) <= i32::MAX as i64,
                };
                if !fits_here {
                    proof {
                        if effect_pass_ok(s0, targets@, k, item, by_player, consumable) {
                            lemma_effect_pass_ok_prefix(s0, targets@, k, item, by_player, consumable, j + 1);
                        }
                    }
                    return false;
                }
                let mut next = cur;
                match k {
                    StatEffect::Heal(a) => {
                        let hp = cur.hp + a;
                        next.hp = if cur.max_hp <= hp {
                            cur.max_hp
                        } else {
                            hp
                        };
                    },
                    StatEffect::Empower(a) => {
                        let power = cur.power + a;
                        next.power = if cur.power >= power {
                            cur.power
                        } else {
                            power
                        };
                    },
                    StatEffect::Protect(a) => {
                        next.deflects = cur.deflects + a;
                    },
                }
                stats.insert(t, next);
                if by_player {
                    let entry = match k {
                        StatEffect::Heal(a) => LogEntry::Healed { item, amount: a },
                        StatEffect::Empower(a) => LogEntry::Empowered { item, amount: a },
                        StatEffect::Protect(a) => LogEntry::Protected { item, amount: a },
                    };
                    log.push(entry);
                }
                if consumable {
                    deleted.push(item);
                }
            },
            None => {},
        }
        j = j + 1;
    }
    assert(targets@.take(j as int) =~= targets@);
    true
}

/// Records `amount` of damage against each target in turn (see `damage_pass`).
fn apply_damage_pass(
    stats: &Storage<CombatStats>,
    suffer: &mut Storage<SufferDamage>,
    deleted: &Vec<Entity>,
    log: &mut Vec<LogEntry>,
    targets: &Vec<Entity>,
    amount: i32,
    item: Entity,
    by_player: bool,
)
    requires
        old(suffer).wf(),
    ensures
        final(suffer).wf(),
        use_state(stats@, final(suffer)@, deleted@, final(log)@) == damage_pass(
            use_state(stats@, old(suffer)@, deleted@, old(log)@),
            targets@,
            amount,
            item,
            by_player,
        ),
{
    let ghost s0 = use_state(stats@, suffer@, deleted@, log@);
    let mut j: usize = 0;
    while j < targets.len()
        invariant
            j <= targets@.len(),
            suffer.wf(),
            use_state(stats@, suffer@, deleted@, log@) == damage_pass(
                s0,
                targets@.take(j as int),
                amount,
                item,
                by_player,
            ),
        decreases targets@.len() - j,
    {
        assert(targets@.take(j + 1).drop_last() =~= targets@.take(j as int));
        let mob = targets[j];
        SufferDamage::new_damage(suffer, mob, amount);
        if by_player {
            log.push(LogEntry::Inflicted { item, target: mob, amount });
        }
        j = j + 1;
    }
    assert(targets@.take(j as int) =~= targets@);
}

/// A copy of the list.
fn copy_vec<T: Copy>(v: &Vec<T>) -> (c: Vec<T>)
    ensures
        c@ == v@,
{
    let mut c: Vec<T> = Vec::new();
    let mut j: usize = 0;
    while j < v.len()
        invariant
            j <= v@.len(),
            c@ == v@.take(j as int),
        decreases v@.len() - j,
    {
        c.push(v[j]);
        j = j + 1;
        assert(c@ =~= v@.take(j as int));
    }
    assert(v@.take(j as int) =~= v@);
    c
}

/// A copy of the pending damage: the same entities, in order, with the same amounts.
fn copy_suffer(s: &Storage<SufferDamage>) -> (c: Storage<SufferDamage>)
    requires
        s.wf(),
    ensures
        c.wf(),
        damage_amounts(c@) == damage_amounts(s@),
{
    let mut entries: Vec<(Entity, SufferDamage)> = Vec::new();
    let mut j: usize = 0;
    while j < s.entries.len()
        invariant
            j <= s.entries@.len(),
            entries@.len() == j,
            forall|i: int|
                0 <= i < j ==> (#[trigger] entries@[i]).0 == s.entries@[i].0 && entries@[i].1.amount@
                    == s.entries@[i].1.amount@,
        decreases s.entries@.len() - j,
    {
        let e = s.entries[j].0;
        let amount = copy_vec(&s.entries[j].1.amount);
        entries.push((e, SufferDamage { amount }));
        j = j + 1;
    }
    let c = Storage { entries };
    proof {
        let a = c.entries@;
        let b = s.entries@;
        assert forall|x: int, y: int| 0 <= x < a.len() && 0 <= y < a.len() && x != y implies #[trigger] a[x].0
            != #[trigger] a[y].0 by {
            assert(a[x].0 == b[x].0 && a[y].0 == b[y].0);
        }
        lemma_pairs_to_map(a);
        lemma_pairs_to_map(b);
        assert forall|e: Entity| #[trigger] c@.dom().contains(e) <==> s@.dom().contains(e) by {
            if has_key(a, e) {
                let i = choose|i: int| 0 <= i < a.len() && #[trigger] a[i].0 == e;
                assert(b[i].0 == e);
            }
            if has_key(b, e) {
                let i = choose|i: int| 0 <= i < b.len() && #[trigger] b[i].0 == e;
                assert(a[i].0 == e);
            }
        }
        assert forall|e: Entity| #[trigger] c@.dom().contains(e) implies c@[e].amount@ == s@[e].amount@ by {
            let i = choose|i: int| 0 <= i < a.len() && #[trigger] a[i].0 == e;
            assert(c@[a[i].0] == a[i].1);
            assert(s@[b[i].0] == b[i].1);
        }
        assert(damage_amounts(c@) =~= damage_amounts(s@));
    }
    c
}

impl ItemUseSystem {
    /// Carries out one use request of `user` (see `use_step`), and tells
    /// whether it could (see `use_step_ok`); where it could not, it stops there.
    fn use_one(
        player: Entity,
        user: Entity,
        req: &WantsToUseItem,
        blast: &Vec<Point>,
        map: &GameMap,
        cat: &ItemCatalog,
        stats: &mut Storage<CombatStats>,
        suffer: &mut Storage<SufferDamage>,
        deleted: &mut Vec<Entity>,
        log: &mut Vec<LogEntry>,
    ) -> (done: bool)
        requires
            map.well_formed(),
            cat.wf(),
            old(stats).wf(),
            old(suffer).wf(),
        ensures
            final(stats).wf(),
            final(suffer).wf(),
            done == use_step_ok(
                use_state(old(stats)@, old(suffer)@, old(deleted)@, old(log)@),
                player,
                user,
                *req,
                blast@,
                map.tile_content@,
                *cat,
            ),
            done ==> use_state(final(stats)@, final(suffer)@, final(deleted)@, final(log)@) == use_step(
                use_state(old(stats)@, old(suffer)@, old(deleted)@, old(log)@),
                player,
                user,
                *req,
                blast@,
                map.tile_content@,
                *cat,
            ),
    {
        let item = req.item;
        let area = cat.aoe.contains(item);
        let damages = cat.inflict_damage.contains(item);
        let targeted = match req.target {
            Some(t) => {
                let computes = xy_idx_fits(t.x, t.y);
                let on_map = computes && map.xy_idx(t.x, t.y) < map.tile_content.len();
                (area || on_map) && (!damages || computes)
            },
            None => !damages,
        };
        if !targeted {
            return false;
        }
        let targets = collect_targets(player, req, area, blast, map);
        let by_player = user == player;
        let consumable = cat.consumables.contains(item);
        let mut any_effect = false;
        match cat.healing.get(item) {
            Some(healer) => {
                any_effect = true;
                if !apply_effect_pass(
                    stats,
                    suffer,
                    deleted,
                    log,
                    &targets,
                    StatEffect::Heal(healer.heal_amount),
                    item,
                    by_player,
                    consumable,
                ) {
                    return false;
                }
            },
            None => {},
        }
        match cat.whack.get(item) {
            Some(whack) => {
                any_effect = true;
                if !apply_effect_pass(
                    stats,
                    suffer,
                    deleted,
                    log,
                    &targets,
                    StatEffect::Empower(whack.whack_amount),
                    item,
                    by_player,
                    consumable,
                ) {
                    return false;
                }
            },
            None => {},
        }
        match cat.inflict_damage.get(item) {
            Some(damage) => {
                any_effect = true;
                match req.target {
                    Some(target_point) => {
                        let _idx = map.xy_idx(target_point.x, target_point.y);
                    },
                    None => {},
                }
                apply_damage_pass(stats, suffer, deleted, log, &targets, damage.damage, item, by_player);
            },
            None => {},
        }
        match cat.protects.get(item) {
            Some(protects) => {
                any_effect = true;
                if !apply_effect_pass(
                    stats,
                    suffer,
                    deleted,
                    log,
                    &targets,
                    StatEffect::Protect(protects.deflections),
                    item,
                    by_player,
                    consumable,
                ) {
                    return false;
                }
            },
            None => {},
        }
        let used_item = !any_effect || targets.len() > 0;
        if used_item && consumable {
            deleted.push(item);
        }
        true
    }

    /// Carries out every use request in storage order (see `use_all`), then
    /// clears them. `blasts[k]` is the field of view from the target of request
    /// `k` with the item's radius, where the item has an area of effect.
    pub fn run(
        &mut self,
        player: Entity,
        log: &mut Vec<LogEntry>,
        deleted: &mut Vec<Entity>,
        wants_to_use: &mut Storage<WantsToUseItem>,
        cat: &ItemCatalog,
        stats: &mut Storage<CombatStats>,
        map: &GameMap,
        suffer: &mut Storage<SufferDamage>,
        blasts: &Vec<Vec<Point>>,
    )
        requires
            map.well_formed(),
            cat.wf(),
            old(stats).wf(),
            old(suffer).wf(),
            blasts@.len() == old(wants_to_use).entries@.len(),
            use_all_ok(
                use_state(old(stats)@, old(suffer)@, old(deleted)@, old(log)@),
                player,
                old(wants_to_use).entries@,
                blasts@,
                map.tile_content@,
                *cat,
            ),
        ensures
            final(stats).wf(),
            final(suffer).wf(),
            use_state(final(stats)@, final(suffer)@, final(deleted)@, final(log)@) == use_all(
                use_state(old(stats)@, old(suffer)@, old(deleted)@, old(log)@),
                player,
                old(wants_to_use).entries@,
                blasts@,
                map.tile_content@,
                *cat,
            ),
            final(wants_to_use).wf(),
            final(wants_to_use)@ == Map::<Entity, WantsToUseItem>::empty(),
    {
        let ghost reqs = wants_to_use.entries@;
        let ghost s0 = use_state(stats@, suffer@, deleted@, log@);
        let mut k: usize = 0;
        while k < wants_to_use.entries.len()
            invariant
                k <= reqs.len(),
                reqs == wants_to_use.entries@,
                blasts@.len() == reqs.len(),
                map.well_formed(),
                cat.wf(),
                stats.wf(),
                suffer.wf(),
                use_all_ok(s0, player, reqs, blasts@, map.tile_content@, *cat),
                use_state(stats@, suffer@, deleted@, log@) == use_all(
                    s0,
                    player,
                    reqs.take(k as int),
                    blasts@,
                    map.tile_content@,
                    *cat,
                ),
            decreases reqs.len() - k,
        {
            assert(reqs.take(k + 1).drop_last() =~= reqs.take(k as int));
            proof {
                lemma_use_all_ok_prefix(s0, player, reqs, blasts@, map.tile_content@, *cat, k + 1);
            }
            let user = wants_to_use.entries[k].0;
            let req = wants_to_use.entries[k].1;
            let done = Self::use_one(player, user, &req, &blasts[k], map, cat, stats, suffer, deleted, log);
            k = k + 1;
        }
        assert(reqs.take(k as int) =~= reqs);
        wants_to_use.clear();
    }

    /// Whether `run` can carry out these requests (see `use_all_ok`): they are
    /// carried out in order on copies of the storages, up to the first that
    /// cannot be; nothing given here changes.
    pub fn uses_fit(
        &self,
        player: Entity,
        log: &Vec<LogEntry>,
        deleted: &Vec<Entity>,
        wants_to_use: &Storage<WantsToUseItem>,
        cat: &ItemCatalog,
        stats: &Storage<CombatStats>,
        map: &GameMap,
        suffer: &Storage<SufferDamage>,
        blasts: &Vec<Vec<Point>>,
    ) -> (r: bool)
        requires
            map.well_formed(),
            cat.wf(),
            stats.wf(),
            suffer.wf(),
            blasts@.len() == wants_to_use.entries@.len(),
        ensures
            r == use_all_ok(
                use_state(stats@, suffer@, deleted@, log@),
                player,
                wants_to_use.entries@,
                blasts@,
                map.tile_content@,
                *cat,
            ),
    {
        let mut st = Storage { entries: copy_vec(&stats.entries) };
        let mut su = copy_suffer(suffer);
        let mut de = copy_vec(deleted);
        let mut lg = copy_vec(log);
        let ghost reqs = wants_to_use.entries@;
        let ghost s0 = use_state(stats@, suffer@, deleted@, log@);
        assert(use_state(st@, su@, de@, lg@) == use_all(s0, player, reqs.take(0), blasts@, map.tile_content@, *cat));
        let mut k: usize = 0;
        while k < wants_to_use.entries.len()
            invariant
                k <= reqs.len(),
                reqs == wants_to_use.entries@,
                blasts@.len() == reqs.len(),
                map.well_formed(),
                cat.wf(),
                st.wf(),
                su.wf(),
                s0 == use_state(stats@, suffer@, deleted@, log@),
                use_all_ok(s0, player, reqs.take(k as int), blasts@, map.tile_content@, *cat),
                use_state(st@, su@, de@, lg@) == use_all(
                    s0,
                    player,
                    reqs.take(k as int),
                    blasts@,
                    map.tile_content@,
                    *cat,
                ),
            decreases reqs.len() - k,
        {
            assert(reqs.take(k + 1).drop_last() =~= reqs.take(k as int));
            let user = wants_to_use.entries[k].0;
            let req = wants_to_use.entries[k].1;
            let ghost before = use_state(st@, su@, de@, lg@);
            let done = Self::use_one(player, user, &req, &blasts[k], map, cat, &mut st, &mut su, &mut de, &mut lg);
            if !done {
                proof {
                    let pre = reqs.take(k + 1);
                    assert(pre.last() == (user, req));
                    assert(pre.len() - 1 == k);
                    assert(!use_step_ok(before, player, user, req, blasts@[k as int]@, map.tile_content@, *cat));
                    assert(!use_all_ok(s0, player, pre, blasts@, map.tile_content@, *cat));
                    if use_all_ok(s0, player, reqs, blasts@, map.tile_content@, *cat) {
                        lemma_use_all_ok_prefix(s0, player, reqs, blasts@, map.tile_content@, *cat, k + 1);
                    }
                }
                return false;
            }
            k = k + 1;
        }
        assert(reqs.take(k as int) =~= reqs);
        true
    }
}

/// A prefix of requests that do not fail does not fail.
proof fn lemma_use_all_ok_prefix(
    s: UseState,
    player: Entity,
    reqs: Seq<(Entity, WantsToUseItem)>,
    blasts: Seq<Vec<Point>>,
    content: Seq<Vec<Entity>>,
    cat: ItemCatalog,
    n: int,
)
    requires
        use_all_ok(s, player, reqs, blasts, content, cat),
        0 <= n <= reqs.len(),
    ensures
        use_all_ok(s, player, reqs.take(n), blasts, content, cat),
    decreases reqs.len(),
{
    if n < reqs.len() {
        assert(reqs.drop_last().take(n) =~= reqs.take(n));
        lemma_use_all_ok_prefix(s, player, reqs.drop_last(), blasts, content, cat, n);
    } else {
        assert(reqs.take(n) =~= reqs);
    }
}

/// Healing never lifts hit points above the maximum, and leaves them as they
/// are when already there.
pub proof fn lemma_heal_capped(s: CombatStats, a: i32)
    requires
        effect_fits(StatEffect::Heal(a), s),
    ensures
        apply_effect(StatEffect::Heal(a), s).hp <= s.max_hp,
        s.hp >= s.max_hp && a >= 0 ==> apply_effect(StatEffect::Heal(a), s).hp == s.max_hp,
        apply_effect(StatEffect::Heal(a), s).max_hp == s.max_hp,
{
}

/// Healing by `a` adds `a` to the hit points, stopping at the maximum: below
/// the maximum the hit points go up by exactly `a`, and otherwise they end at
/// the maximum. Nothing but the hit points changes.
pub proof fn lemma_heal_adds_up_to_max(s: CombatStats, a: i32)
    requires
        effect_fits(StatEffect::Heal(a), s),
    ensures
        s.hp + a < s.max_hp ==> apply_effect(StatEffect::Heal(a), s).hp == s.hp + a,
        s.hp + a >= s.max_hp ==> apply_effect(StatEffect::Heal(a), s).hp == s.max_hp,
        apply_effect(StatEffect::Heal(a), s).max_hp == s.max_hp,
        apply_effect(StatEffect::Heal(a), s).defense == s.defense,
        apply_effect(StatEffect::Heal(a), s).power == s.power,
        apply_effect(StatEffect::Heal(a), s).deflects == s.deflects,
{
}

/// Two heals that stay below the maximum add up: healing by `a` and then by
/// `b` is healing by `a + b`.
pub proof fn lemma_heals_add_up(s: CombatStats, a: i32, b: i32)
    requires
        0 <= a,
        0 <= b,
        a + b <= i32::MAX,
        s.hp + a + b < s.max_hp,
    ensures
        apply_effect(StatEffect::Heal(b), apply_effect(StatEffect::Heal(a), s)) == apply_effect(
            StatEffect::Heal((a + b) as i32),
            s,
        ),
        apply_effect(StatEffect::Heal(b), apply_effect(StatEffect::Heal(a), s)).hp == s.hp + a + b,
{
}

/// Protecting by `a` adds `a` deflections and changes nothing else.
pub proof fn lemma_protect_adds(s: CombatStats, a: i32)
    requires
        effect_fits(StatEffect::Protect(a), s),
    ensures
        apply_effect(StatEffect::Protect(a), s).deflects == s.deflects + a,
        apply_effect(StatEffect::Protect(a), s).hp == s.hp,
        apply_effect(StatEffect::Protect(a), s).max_hp == s.max_hp,
        apply_effect(StatEffect::Protect(a), s).power == s.power,
        apply_effect(StatEffect::Protect(a), s).defense == s.defense,
{
}

/// A healing pass over one target with combat stats heals it once: its hit
/// points become `hp + a`, or the maximum if that is reached; the player using
/// the item gets one log line, and a consumable item one deletion.
pub proof fn lemma_heal_one_target(
    s: UseState,
    t: Entity,
    a: i32,
    item: Entity,
    by_player: bool,
    consumable: bool,
)
    requires
        s.stats.dom().contains(t),
        effect_fits(StatEffect::Heal(a), s.stats[t]),
    ensures
        ({
            let r = effect_pass(s, seq![t], StatEffect::Heal(a), item, by_player, consumable);
            let before = s.stats[t];
            &&& r.stats.dom() == s.stats.dom()
            &&& r.stats[t].hp == if before.hp + a < before.max_hp {
                before.hp + a
            } else {
                before.max_hp as int
            }
            &&& forall|e: Entity| #[trigger] r.stats.dom().contains(e) && e != t ==> r.stats[e] == s.stats[e]
            &&& r.log == if by_player {
                s.log.push(LogEntry::Healed { item, amount: a })
            } else {
                s.log
            }
            &&& r.deleted == if consumable {
                s.deleted.push(item)
            } else {
                s.deleted
            }
            &&& r.damage == s.damage
        }),
{
    let ts = seq![t];
    assert(ts.drop_last() =~= Seq::<Entity>::empty());
    assert(effect_pass(s, ts.drop_last(), StatEffect::Heal(a), item, by_player, consumable) == s);
    let r = effect_pass(s, ts, StatEffect::Heal(a), item, by_player, consumable);
    assert(r.stats.dom() =~= s.stats.dom());
}

/// Empowering never lowers power.
pub proof fn lemma_empower_monotone(s: CombatStats, a: i32)
    requires
        effect_fits(StatEffect::Empower(a), s),
    ensures
        apply_effect(StatEffect::Empower(a), s).power >= s.power,
        apply_effect(StatEffect::Empower(a), s).power == if a > 0 { s.power + a } else { s.power as int },
{
}

/// Dropping what was just picked up puts it back on the map where the
/// collector stands, out of every backpack.
pub proof fn lemma_pickup_then_drop(
    positions: Map<Entity, Position>,
    backpack: Map<Entity, InBackpack>,
    explode: Map<Entity, WantsToExplode>,
    log: Seq<LogEntry>,
    player: Entity,
    collector: Entity,
    item: Entity,
)
    requires
        positions.dom().contains(collector),
        collector != item,
    ensures
        ({
            let pickups = seq![(collector, WantsToPickupItem { collected_by: collector, item })];
            let drops = seq![(collector, WantsToDropItem { item })];
            let pos1 = pickup_positions(positions, pickups);
            let bp1 = pickup_backpack(backpack, pickups);
            let s0 = drop_state(pos1, bp1, explode, log);
            let s1 = drop_all(s0, player, drops);
            &&& bp1.dom().contains(item) && bp1[item].owner == collector
            &&& !pos1.dom().contains(item)
            &&& drops_ok(s0, player, drops)
            &&& s1.positions.dom().contains(item)
            &&& s1.positions[item] == positions[collector]
            &&& !s1.backpack.dom().contains(item)
        }),
{
    let pickups = seq![(collector, WantsToPickupItem { collected_by: collector, item })];
    let drops = seq![(collector, WantsToDropItem { item })];
    assert(pickups.drop_last() =~= Seq::<(Entity, WantsToPickupItem)>::empty());
    assert(drops.drop_last() =~= Seq::<(Entity, WantsToDropItem)>::empty());
    assert(pickup_positions(positions, pickups.drop_last()) == positions);
    assert(pickup_backpack(backpack, pickups.drop_last()) == backpack);
    assert(pickups.last().1.item == item);
    let pos1 = pickup_positions(positions, pickups);
    assert(pos1 == positions.remove(item));
    let bp1 = pickup_backpack(backpack, pickups);
    let s0 = drop_state(pos1, bp1, explode, log);
    assert(drop_all(s0, player, drops.drop_last()) == s0);
    assert(drops_ok(s0, player, drops.drop_last()));
    assert(drops.last().0 == collector && drops.last().1.item == item);
    assert(drop_all(s0, player, drops) == drop_step(s0, player, collector, item));
}

} // verus!
