use vstd::prelude::*;
use crate::components::{
    Entity, CombatStats, SufferDamage, Name, Storage, pairs_to_map, has_key,
    lemma_same_keys, lemma_pairs_to_map,
};
use crate::gamelog::LogEntry;
use crate::player::Player;

verus! {

/// Applies the damage that entities have suffered this turn.
pub struct DamageSystem {}

/// The sum of a sequence of amounts.
pub open spec fn seq_sum(s: Seq<i32>) -> int
    decreases s.len(),
{
    if s.len() == 0 {
        0
    } else {
        seq_sum(s.drop_last()) + s.last()
    }
}

/// Every running total of the amounts, from the left, fits in an `i32`.
pub open spec fn sum_fits(s: Seq<i32>) -> bool {
    forall|k: int| 0 <= k <= s.len() ==> i32::MIN <= #[trigger] seq_sum(s.take(k)) <= i32::MAX
}

/// Combat stats after one turn's damage: a deflection, if any is left, is spent
/// instead (and gives back a hit point when below the maximum); otherwise every
/// pending amount is taken off the hit points.
pub open spec fn suffer(s: CombatStats, amounts: Seq<i32>) -> CombatStats {
    if s.deflects > 0 {
        CombatStats {
            deflects: (s.deflects - 1) as i32,
            hp: if s.hp < s.max_hp {
                (s.hp + 1) as i32
            } else {
                s.hp
            },
            ..s
        }
    } else {
        CombatStats { hp: (s.hp - seq_sum(amounts)) as i32, ..s }
    }
}

/// The arithmetic of `suffer` stays within `i32`.
pub open spec fn can_suffer(s: CombatStats, amounts: Seq<i32>) -> bool {
    s.deflects > 0 || (sum_fits(amounts) && i32::MIN <= s.hp - seq_sum(amounts) <= i32::MAX)
}

/// Every entity with both combat stats and pending damage suffers it; the others keep their stats.
pub open spec fn apply_damage(stats: Map<Entity, CombatStats>, damage: Map<Entity, SufferDamage>) -> Map<
    Entity,
    CombatStats,
> {
    Map::new(
        |e: Entity| stats.dom().contains(e),
        |e: Entity|
            if damage.dom().contains(e) {
                suffer(stats[e], damage[e].amount@)
            } else {
                stats[e]
            },
    )
}

/// The total of the amounts.
fn total(amounts: &Vec<i32>) -> (r: i32)
    requires
        sum_fits(amounts@),
    ensures
        r == seq_sum(amounts@),
{
    let mut acc: i32 = 0;
    let mut k: usize = 0;
    while k < amounts.len()
        invariant
            k <= amounts@.len(),
            sum_fits(amounts@),
            acc == seq_sum(amounts@.take(k as int)),
        decreases amounts@.len() - k,
    {
        assert(amounts@.take(k + 1).drop_last() =~= amounts@.take(k as int));
        assert(i32::MIN <= seq_sum(amounts@.take(k + 1)) <= i32::MAX);
        acc = acc + amounts[k];
        k = k + 1;
    }
    assert(amounts@.take(k as int) =~= amounts@);
    acc
}

impl DamageSystem {
    /// Applies the pending damage (see `suffer`) and clears it.
    pub fn run(&mut self, stats: &mut Storage<CombatStats>, damage: &mut Storage<SufferDamage>)
        requires
            old(stats).wf(),
            old(damage).wf(),
            forall|e: Entity|
                old(stats)@.dom().contains(e) && old(damage)@.dom().contains(e) ==> can_suffer(
                    #[trigger] old(stats)@[e],
                    old(damage)@[e].amount@,
                ),
        ensures
            final(stats).wf(),
            final(stats)@ == apply_damage(old(stats)@, old(damage)@),
            final(damage).wf(),
            final(damage)@ == Map::<Entity, SufferDamage>::empty(),
    {
        let ghost s0 = stats.entries@;
        proof {
            lemma_pairs_to_map(s0);
        }
        let mut k: usize = 0;
        while k < stats.entries.len()
            invariant
                k <= stats.entries@.len(),
                stats.entries@.len() == s0.len(),
                crate::components::distinct_keys(s0),
                damage.wf(),
                pairs_to_map(s0) == old(stats)@,
                damage@ == old(damage)@,
                forall|e: Entity|
                    old(stats)@.dom().contains(e) && old(damage)@.dom().contains(e) ==> can_suffer(
                        #[trigger] old(stats)@[e],
                        old(damage)@[e].amount@,
                    ),
                forall|j: int| 0 <= j < s0.len() ==> #[trigger] stats.entries@[j].0 == s0[j].0,
                forall|j: int|
                    0 <= j < k ==> #[trigger] stats.entries@[j].1 == apply_damage(old(stats)@, old(damage)@)[s0[j].0],
                forall|j: int| k <= j < s0.len() ==> #[trigger] stats.entries@[j].1 == s0[j].1,
            decreases s0.len() - k,
        {
            let e = stats.entries[k].0;
            let s = stats.entries[k].1;
            proof {
                lemma_pairs_to_map(s0);
                assert(old(stats)@[s0[k as int].0] == s0[k as int].1);
                assert(has_key(s0, e)) by {
                    assert(s0[k as int].0 == e);
                }
            }
            match damage.get(e) {
                Some(d) => {
                    let mut next = s;
                    if s.deflects > 0 {
                        next.deflects = s.deflects - 1;
                        if s.hp < s.max_hp {
                            next.hp = s.hp + 1;
                        }
                    } else {
                        next.hp = s.hp - total(&d.amount);
                    }
                    stats.entries.set(k, (e, next));
                },
                None => {},
            }
            k = k + 1;
        }
        proof {
            lemma_same_keys(s0, stats.entries@);
            assert(stats@ =~= apply_damage(old(stats)@, old(damage)@)) by {
                assert forall|e: Entity| #[trigger] stats@.dom().contains(e) implies stats@[e]
                    == apply_damage(old(stats)@, old(damage)@)[e] by {
                    let j = choose|j: int| 0 <= j < stats.entries@.len() && #[trigger] stats.entries@[j].0 == e;
                    assert(stats@[stats.entries@[j].0] == stats.entries@[j].1);
                }
            }
        }
        damage.clear();
    }
}

/// An entity with these stats is dead.
pub open spec fn is_dead(s: CombatStats) -> bool {
    s.hp < 1
}

/// The dead entities, in order, that are not the player: these are deleted.
pub open spec fn dead_of(s: Seq<(Entity, CombatStats)>, players: Map<Entity, Player>) -> Seq<Entity>
    decreases s.len(),
{
    if s.len() == 0 {
        seq![]
    } else {
        let rest = dead_of(s.drop_last(), players);
        if is_dead(s.last().1) && !players.dom().contains(s.last().0) {
            rest.push(s.last().0)
        } else {
            rest
        }
    }
}

/// The log lines for the dead that are not the player and have a name.
pub open spec fn death_log(
    s: Seq<(Entity, CombatStats)>,
    players: Map<Entity, Player>,
    names: Map<Entity, Name>,
) -> Seq<LogEntry>
    decreases s.len(),
{
    if s.len() == 0 {
        seq![]
    } else {
        let rest = death_log(s.drop_last(), players, names);
        if is_dead(s.last().1) && !players.dom().contains(s.last().0) && names.dom().contains(
            s.last().0,
        ) {
            rest.push(LogEntry::Dead { victim: s.last().0 })
        } else {
            rest
        }
    }
}

/// How many dead entities are the player.
pub open spec fn player_deaths(s: Seq<(Entity, CombatStats)>, players: Map<Entity, Player>) -> nat
    decreases s.len(),
{
    if s.len() == 0 {
        0
    } else {
        player_deaths(s.drop_last(), players) + if is_dead(s.last().1) && players.dom().contains(
            s.last().0,
        ) {
            1nat
        } else {
            0nat
        }
    }
}

/// What `delete_the_dead` found: the entities to delete, the log lines, and how
/// many times the player was found dead (each is reported on the console).
pub struct DeathReport {
    pub dead: Vec<Entity>,
    pub log: Vec<LogEntry>,
    pub player_deaths: usize,
}

/// Finds the entities whose hit points fell below 1, in storage order. The
/// player is never deleted; every other dead entity is, and is logged when it
/// has a name.
pub fn delete_the_dead(
    stats: &Storage<CombatStats>,
    players: &Storage<Player>,
    names: &Storage<Name>,
) -> (r: DeathReport)
    requires
        players.wf(),
        names.wf(),
    ensures
        r.dead@ == dead_of(stats.entries@, players@),
        r.log@ == death_log(stats.entries@, players@, names@),
        r.player_deaths == player_deaths(stats.entries@, players@),
{
    let mut dead: Vec<Entity> = Vec::new();
    let mut log: Vec<LogEntry> = Vec::new();
    let mut deaths: usize = 0;
    let mut k: usize = 0;
    while k < stats.entries.len()
        invariant
            k <= stats.entries@.len(),
            players.wf(),
            names.wf(),
            dead@ == dead_of(stats.entries@.take(k as int), players@),
            log@ == death_log(stats.entries@.take(k as int), players@, names@),
            deaths == player_deaths(stats.entries@.take(k as int), players@),
            deaths <= k,
        decreases stats.entries@.len() - k,
    {
        let ghost pre = stats.entries@.take(k as int);
        assert(stats.entries@.take(k + 1).drop_last() =~= pre);
        let e = stats.entries[k].0;
        if stats.entries[k].1.hp < 1 {
            if players.contains(e) {
                deaths = deaths + 1;
            } else {
                if names.contains(e) {
                    log.push(LogEntry::Dead { victim: e });
                }
                dead.push(e);
            }
        }
        k = k + 1;
    }
    assert(stats.entries@.take(k as int) =~= stats.entries@);
    DeathReport { dead, log, player_deaths: deaths }
}

/// Buries the dead that `delete_the_dead` found: deleting an entity takes
/// every component it has, its combat stats and its name among them.
pub fn bury(dead: &Vec<Entity>, stats: &mut Storage<CombatStats>, names: &mut Storage<Name>)
    requires
        old(stats).wf(),
        old(names).wf(),
    ensures
        final(stats).wf(),
        final(stats)@ == old(stats)@.remove_keys(dead@.to_set()),
        final(names).wf(),
        final(names)@ == old(names)@.remove_keys(dead@.to_set()),
{
    let mut k: usize = 0;
    while k < dead.len()
        invariant
            k <= dead@.len(),
            stats.wf(),
            names.wf(),
            stats@ == old(stats)@.remove_keys(dead@.take(k as int).to_set()),
            names@ == old(names)@.remove_keys(dead@.take(k as int).to_set()),
        decreases dead@.len() - k,
    {
        let e = dead[k];
        stats.remove(e);
        names.remove(e);
        proof {
            let before = dead@.take(k as int).to_set();
            assert(dead@.take(k + 1) =~= dead@.take(k as int).push(e));
            assert(dead@.take(k + 1).to_set() =~= before.insert(e)) by {
                broadcast use vstd::seq_lib::group_seq_properties;
            }
            assert(stats@ =~= old(stats)@.remove_keys(before.insert(e)));
            assert(names@ =~= old(names)@.remove_keys(before.insert(e)));
        }
        k = k + 1;
    }
    assert(dead@.take(k as int) =~= dead@);
}

/// The sweep that ends every frame: finds the dead (see `delete_the_dead`) and
/// buries them (see `bury`). Afterwards every entity left with combat stats
/// whose hit points are below 1 is the player, and a second sweep would find
/// no one and log nothing.
pub fn sweep_the_dead(
    stats: &mut Storage<CombatStats>,
    players: &Storage<Player>,
    names: &mut Storage<Name>,
) -> (r: DeathReport)
    requires
        old(stats).wf(),
        players.wf(),
        old(names).wf(),
    ensures
        r.dead@ == dead_of(old(stats).entries@, players@),
        r.log@ == death_log(old(stats).entries@, players@, old(names)@),
        r.player_deaths == player_deaths(old(stats).entries@, players@),
        final(stats).wf(),
        final(stats)@ == old(stats)@.remove_keys(r.dead@.to_set()),
        final(names).wf(),
        final(names)@ == old(names)@.remove_keys(r.dead@.to_set()),
        forall|e: Entity|
            #[trigger] final(stats)@.contains_key(e) && is_dead(final(stats)@[e]) ==> players@.contains_key(e),
        dead_of(final(stats).entries@, players@) == Seq::<Entity>::empty(),
        death_log(final(stats).entries@, players@, final(names)@) == Seq::<LogEntry>::empty(),
{
    let report = delete_the_dead(stats, players, names);
    let ghost before = *stats;
    bury(&report.dead, stats, names);
    proof {
        lemma_only_the_player_stays_dead(before, players@);
        lemma_second_look_finds_no_one(before, *stats, players@, names@);
    }
    report
}

/// A dead entity that is not the player is among the dead found.
proof fn lemma_dead_of_finds(s: Seq<(Entity, CombatStats)>, players: Map<Entity, Player>, j: int)
    requires
        0 <= j < s.len(),
        is_dead(s[j].1),
        !players.dom().contains(s[j].0),
    ensures
        dead_of(s, players).contains(s[j].0),
    decreases s.len(),
{
    let t = s.drop_last();
    if j == s.len() - 1 {
        assert(dead_of(s, players).last() == s[j].0);
    } else {
        assert(t[j] == s[j]);
        lemma_dead_of_finds(t, players, j);
        let i = choose|i: int| 0 <= i < dead_of(t, players).len() && dead_of(t, players)[i] == s[j].0;
        if is_dead(s.last().1) && !players.dom().contains(s.last().0) {
            assert(dead_of(s, players)[i] == s[j].0);
        }
    }
}

/// Where no entity is dead but the player, no one is found and nothing logged.
proof fn lemma_no_one_dead(s: Seq<(Entity, CombatStats)>, players: Map<Entity, Player>, names: Map<Entity, Name>)
    requires
        forall|j: int| 0 <= j < s.len() && is_dead(#[trigger] s[j].1) ==> players.dom().contains(s[j].0),
    ensures
        dead_of(s, players) == Seq::<Entity>::empty(),
        death_log(s, players, names) == Seq::<LogEntry>::empty(),
    decreases s.len(),
{
    if s.len() > 0 {
        let t = s.drop_last();
        assert forall|j: int| 0 <= j < t.len() && is_dead(#[trigger] t[j].1) implies players.dom().contains(t[j].0) by {
            assert(t[j] == s[j]);
        }
        lemma_no_one_dead(t, players, names);
        assert(s.last() == s[s.len() - 1]);
    }
}

/// Once the dead that `delete_the_dead` finds are buried, every entity left
/// with combat stats whose hit points are below 1 is the player.
pub proof fn lemma_only_the_player_stays_dead(stats: Storage<CombatStats>, players: Map<Entity, Player>)
    requires
        stats.wf(),
    ensures
        ({
            let buried = stats@.remove_keys(dead_of(stats.entries@, players).to_set());
            forall|e: Entity| #[trigger] buried.contains_key(e) && is_dead(buried[e]) ==> players.dom().contains(e)
        }),
{
    let s = stats.entries@;
    let found = dead_of(s, players);
    lemma_pairs_to_map(s);
    assert forall|e: Entity|
        #[trigger] stats@.remove_keys(found.to_set()).contains_key(e) && is_dead(stats@.remove_keys(found.to_set())[e])
            implies players.dom().contains(e) by {
        assert(has_key(s, e));
        let j = choose|j: int| 0 <= j < s.len() && #[trigger] s[j].0 == e;
        assert(stats@[s[j].0] == s[j].1);
        if !players.dom().contains(e) {
            lemma_dead_of_finds(s, players, j);
            assert(found.to_set().contains(e));
        }
    }
}

/// Deleting the dead twice deletes nothing more: once the dead that
/// `delete_the_dead` finds are buried, a second look finds no one to delete
/// and logs nothing.
pub proof fn lemma_second_look_finds_no_one(
    stats: Storage<CombatStats>,
    buried: Storage<CombatStats>,
    players: Map<Entity, Player>,
    names: Map<Entity, Name>,
)
    requires
        stats.wf(),
        buried.wf(),
        buried@ == stats@.remove_keys(dead_of(stats.entries@, players).to_set()),
    ensures
        dead_of(buried.entries@, players) == Seq::<Entity>::empty(),
        death_log(buried.entries@, players, names) == Seq::<LogEntry>::empty(),
{
    let b = buried.entries@;
    lemma_only_the_player_stays_dead(stats, players);
    lemma_pairs_to_map(b);
    assert forall|j: int| 0 <= j < b.len() && is_dead(#[trigger] b[j].1) implies players.dom().contains(b[j].0) by {
        assert(has_key(b, b[j].0));
        assert(buried@[b[j].0] == b[j].1);
        assert(buried@.contains_key(b[j].0));
    }
    lemma_no_one_dead(b, players, names);
}

/// The total of no amounts is 0 and of one amount is that amount; the total
/// of two lists one after the other is the sum of their totals.
pub proof fn lemma_seq_sum_adds(s: Seq<i32>, t: Seq<i32>)
    ensures
        seq_sum(Seq::<i32>::empty()) == 0,
        forall|a: i32| #[trigger] seq_sum(seq![a]) == a,
        seq_sum(s + t) == seq_sum(s) + seq_sum(t),
    decreases t.len(),
{
    assert forall|a: i32| #[trigger] seq_sum(seq![a]) == a by {
        assert(seq![a].drop_last() =~= Seq::<i32>::empty());
        assert(seq_sum(Seq::<i32>::empty()) == 0);
        assert(seq![a].len() == 1 && seq![a].last() == a);
        assert(seq_sum(seq![a]) == seq_sum(seq![a].drop_last()) + seq![a].last());
    }
    if t.len() == 0 {
        assert(s + t =~= s);
    } else {
        lemma_seq_sum_adds(s, t.drop_last());
        assert((s + t).drop_last() =~= s + t.drop_last());
        assert((s + t).last() == t.last());
    }
}

/// Without deflections, taking two hits in one turn leaves the same hit
/// points as taking them one turn after the other.
pub proof fn lemma_hits_add_up(s: CombatStats, a: i32, b: i32)
    requires
        s.deflects <= 0,
        i32::MIN <= a + b <= i32::MAX,
        i32::MIN <= s.hp - a - b <= i32::MAX,
        i32::MIN <= s.hp - a <= i32::MAX,
    ensures
        suffer(s, seq![a, b]) == suffer(suffer(s, seq![a]), seq![b]),
        suffer(s, seq![a]).hp == s.hp - a,
        suffer(s, seq![a, b]).hp == s.hp - a - b,
{
    lemma_seq_sum_adds(seq![a], seq![b]);
    assert(seq![a] + seq![b] =~= seq![a, b]);
}

/// An entity with a deflection left takes no damage this turn: it spends one
/// deflection, its hit points do not fall, and they rise past the maximum only
/// if they were already above it.
pub proof fn lemma_deflection_blocks_damage(s: CombatStats, amounts: Seq<i32>)
    requires
        s.deflects > 0,
    ensures
        suffer(s, amounts).deflects == s.deflects - 1,
        suffer(s, amounts).hp >= s.hp,
        suffer(s, amounts).hp <= if s.hp > s.max_hp { s.hp as int } else { s.max_hp as int },
{
}

/// Without deflections, the hit points fall by exactly the pending total.
pub proof fn lemma_damage_is_total(s: CombatStats, amounts: Seq<i32>)
    requires
        s.deflects <= 0,
        can_suffer(s, amounts),
    ensures
        suffer(s, amounts).hp == s.hp - seq_sum(amounts),
        suffer(s, amounts).deflects == s.deflects,
{
}

} // verus!
