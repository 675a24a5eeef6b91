use vstd::prelude::*;
use crate::map::GameMap;

verus! {

/// An entity of the game world: an index and the generation of that index.
/// Two handles name the same entity only if both parts agree.
#[derive(Clone, Copy, PartialEq, Eq, Structural, Debug)]
pub struct Entity {
    pub id: u32,
    pub gen: i32,
}

/// A point on the map.
#[derive(Clone, Copy, PartialEq, Eq, Structural, Debug)]
pub struct Point {
    pub x: i32,
    pub y: i32,
}

/// The keys of `s` are pairwise distinct.
pub open spec fn distinct_keys<T>(s: Seq<(Entity, T)>) -> bool {
    forall|i: int, j: int|
        0 <= i < s.len() && 0 <= j < s.len() && i != j ==> #[trigger] s[i].0 != #[trigger] s[j].0
}

/// The map that a sequence of key/value pairs describes (a later pair wins).
pub open spec fn pairs_to_map<T>(s: Seq<(Entity, T)>) -> Map<Entity, T>
    decreases s.len(),
{
    if s.len() == 0 {
        Map::empty()
    } else {
        pairs_to_map(s.drop_last()).insert(s.last().0, s.last().1)
    }
}

/// `k` is the key of some pair of `s`.
pub open spec fn has_key<T>(s: Seq<(Entity, T)>, k: Entity) -> bool {
    exists|i: int| 0 <= i < s.len() && #[trigger] s[i].0 == k
}

/// For pairs with distinct keys, the map holds exactly the pairs of the sequence.
pub proof fn lemma_pairs_to_map<T>(s: Seq<(Entity, T)>)
    requires
        distinct_keys(s),
    ensures
        forall|k: Entity| #[trigger] pairs_to_map(s).dom().contains(k) <==> has_key(s, k),
        forall|i: int| 0 <= i < s.len() ==> #[trigger] pairs_to_map(s)[s[i].0] == s[i].1,
        pairs_to_map(s).dom().finite(),
    decreases s.len(),
{
    if s.len() > 0 {
        let t = s.drop_last();
        assert(distinct_keys(t));
        lemma_pairs_to_map(t);
        assert forall|k: Entity| #[trigger] pairs_to_map(s).dom().contains(k) <==> has_key(s, k) by {
            if has_key(s, k) {
                let i = choose|i: int| 0 <= i < s.len() && #[trigger] s[i].0 == k;
                if i < s.len() - 1 {
                    assert(t[i].0 == k);
                }
            }
            if pairs_to_map(t).dom().contains(k) {
                let i = choose|i: int| 0 <= i < t.len() && #[trigger] t[i].0 == k;
                assert(s[i].0 == k);
            }
            if k == s.last().0 {
                assert(s[s.len() - 1].0 == k);
            }
        }
        assert forall|i: int| 0 <= i < s.len() implies #[trigger] pairs_to_map(s)[s[i].0] == s[i].1 by {
            if i < s.len() - 1 {
                assert(t[i] == s[i]);
                assert(s[i].0 != s[s.len() - 1].0);
            }
        }
    }
}

/// Replacing the value of one pair keeps the keys distinct and updates the map at that key.
pub proof fn lemma_update_value<T>(s0: Seq<(Entity, T)>, i: int, v: T)
    requires
        distinct_keys(s0),
        0 <= i < s0.len(),
    ensures
        distinct_keys(s0.update(i, (s0[i].0, v))),
        pairs_to_map(s0.update(i, (s0[i].0, v))) == pairs_to_map(s0).insert(s0[i].0, v),
{
    let e = s0[i].0;
    let s1 = s0.update(i, (e, v));
    assert(distinct_keys(s1)) by {
        assert forall|a: int, b: int|
            0 <= a < s1.len() && 0 <= b < s1.len() && a != b implies #[trigger] s1[a].0
            != #[trigger] s1[b].0 by {
            assert(s0[a].0 != s0[b].0);
        }
    }
    lemma_pairs_to_map(s0);
    lemma_pairs_to_map(s1);
    assert forall|k: Entity| has_key(s1, k) <==> has_key(s0, k) by {
        if has_key(s0, k) {
            let j = choose|j: int| 0 <= j < s0.len() && #[trigger] s0[j].0 == k;
            assert(s1[j].0 == k);
        }
        if has_key(s1, k) {
            let j = choose|j: int| 0 <= j < s1.len() && #[trigger] s1[j].0 == k;
            assert(s0[j].0 == k);
        }
    }
    assert(has_key(s0, e)) by {
        assert(s0[i].0 == e);
    }
    assert forall|k: Entity| #[trigger] pairs_to_map(s1).dom().contains(k) implies pairs_to_map(
        s1,
    )[k] == pairs_to_map(s0).insert(e, v)[k] by {
        let j = choose|j: int| 0 <= j < s1.len() && #[trigger] s1[j].0 == k;
        assert(pairs_to_map(s1)[s1[j].0] == s1[j].1);
        if j != i {
            assert(pairs_to_map(s0)[s0[j].0] == s0[j].1);
        }
    }
    assert(pairs_to_map(s1) =~= pairs_to_map(s0).insert(e, v));
}

/// Pairs with the same keys in the same places describe maps with the same domain.
pub proof fn lemma_same_keys<T>(s0: Seq<(Entity, T)>, s1: Seq<(Entity, T)>)
    requires
        distinct_keys(s0),
        s1.len() == s0.len(),
        forall|j: int| 0 <= j < s0.len() ==> #[trigger] s1[j].0 == s0[j].0,
    ensures
        distinct_keys(s1),
        pairs_to_map(s1).dom() == pairs_to_map(s0).dom(),
        forall|k: Entity| #[trigger] pairs_to_map(s1).dom().contains(k) <==> has_key(s1, k),
        forall|i: int| 0 <= i < s1.len() ==> #[trigger] pairs_to_map(s1)[s1[i].0] == s1[i].1,
        forall|i: int| 0 <= i < s0.len() ==> #[trigger] pairs_to_map(s0)[s0[i].0] == s0[i].1,
{
    assert(distinct_keys(s1)) by {
        assert forall|a: int, b: int|
            0 <= a < s1.len() && 0 <= b < s1.len() && a != b implies #[trigger] s1[a].0
            != #[trigger] s1[b].0 by {
            assert(s0[a].0 != s0[b].0);
        }
    }
    lemma_pairs_to_map(s0);
    lemma_pairs_to_map(s1);
    assert forall|k: Entity| has_key(s1, k) <==> has_key(s0, k) by {
        if has_key(s0, k) {
            let j = choose|j: int| 0 <= j < s0.len() && #[trigger] s0[j].0 == k;
            assert(s1[j].0 == k);
        }
        if has_key(s1, k) {
            let j = choose|j: int| 0 <= j < s1.len() && #[trigger] s1[j].0 == k;
            assert(s0[j].0 == k);
        }
    }
    assert(pairs_to_map(s1).dom() =~= pairs_to_map(s0).dom());
}

/// A component storage: the components of one kind, each attached to an entity.
/// The entries are kept in the order in which a system visits them.
pub struct Storage<T> {
    pub entries: Vec<(Entity, T)>,
}

impl<T> View for Storage<T> {
    type V = Map<Entity, T>;

    open spec fn view(&self) -> Map<Entity, T> {
        pairs_to_map(self.entries@)
    }
}

impl<T> Storage<T> {
    /// No entity holds two components of this kind.
    pub open spec fn wf(&self) -> bool {
        distinct_keys(self.entries@)
    }

    /// An empty storage.
    pub fn new() -> (s: Self)
        ensures
            s.wf(),
            s@ == Map::<Entity, T>::empty(),
            s.entries@.len() == 0,
    {
        Storage { entries: Vec::new() }
    }

    /// Position of the entry of `e`, if it has one.
    pub fn find(&self, e: Entity) -> (r: Option<usize>)
        requires
            self.wf(),
        ensures
            match r {
                Some(i) => i < self.entries@.len() && self.entries@[i as int].0 == e,
                None => !self@.dom().contains(e),
            },
            r is Some <==> self@.dom().contains(e),
    {
        proof {
            lemma_pairs_to_map(self.entries@);
        }
        let mut i: usize = 0;
        while i < self.entries.len()
            invariant
                self.wf(),
                i <= self.entries@.len(),
                forall|j: int| 0 <= j < i ==> self.entries@[j].0 != e,
            decreases self.entries@.len() - i,
        {
            if self.entries[i].0 == e {
                proof {
                    lemma_pairs_to_map(self.entries@);
                    assert(has_key(self.entries@, self.entries@[i as int].0));
                }
                return Some(i);
            }
            i = i + 1;
        }
        None
    }

    /// Whether `e` has a component of this kind.
    pub fn contains(&self, e: Entity) -> (r: bool)
        requires
            self.wf(),
        ensures
            r == self@.dom().contains(e),
    {
        self.find(e).is_some()
    }

    /// The component of `e`, if it has one.
    pub fn get(&self, e: Entity) -> (r: Option<&T>)
        requires
            self.wf(),
        ensures
            r is Some <==> self@.dom().contains(e),
            r matches Some(v) ==> *v == self@[e],
    {
        proof {
            lemma_pairs_to_map(self.entries@);
        }
        match self.find(e) {
            Some(i) => Some(&self.entries[i].1),
            None => None,
        }
    }

    /// Attaches `v` to `e`, replacing the component `e` had.
    pub fn insert(&mut self, e: Entity, v: T)
        requires
            old(self).wf(),
        ensures
            final(self).wf(),
            final(self)@ == old(self)@.insert(e, v),
    {
        proof {
            lemma_pairs_to_map(self.entries@);
        }
        let ghost s0 = self.entries@;
        match self.find(e) {
            Some(i) => {
                self.entries.set(i, (e, v));
                proof {
                    lemma_update_value(s0, i as int, v);
                    assert(s0.update(i as int, (s0[i as int].0, v)) == self.entries@);
                }
            },
            None => {
                self.entries.push((e, v));
                let ghost s1 = self.entries@;
                assert(s1.drop_last() =~= s0);
                assert(distinct_keys(s1)) by {
                    assert forall|a: int, b: int|
                        0 <= a < s1.len() && 0 <= b < s1.len() && a != b implies #[trigger] s1[a].0
                        != #[trigger] s1[b].0 by {
                        if a == s0.len() {
                            assert(s0[b].0 == s1[b].0);
                        } else if b == s0.len() {
                            assert(s0[a].0 == s1[a].0);
                        } else {
                            assert(s0[a].0 != s0[b].0);
                        }
                    }
                }
            },
        }
    }

    /// Detaches the component of `e`, if it had one.
    pub fn remove(&mut self, e: Entity)
        requires
            old(self).wf(),
        ensures
            final(self).wf(),
            final(self)@ == old(self)@.remove(e),
    {
        proof {
            lemma_pairs_to_map(self.entries@);
        }
        let ghost s0 = self.entries@;
        match self.find(e) {
            Some(i) => {
                self.entries.remove(i);
                let ghost s1 = self.entries@;
                assert(distinct_keys(s1)) by {
                    assert forall|a: int, b: int|
                        0 <= a < s1.len() && 0 <= b < s1.len() && a != b implies #[trigger] s1[a].0
                        != #[trigger] s1[b].0 by {
                        let a0 = if a < i { a } else { a + 1 };
                        let b0 = if b < i { b } else { b + 1 };
                        assert(s1[a] == s0[a0]);
                        assert(s1[b] == s0[b0]);
                        assert(s0[a0].0 != s0[b0].0);
                    }
                }
                proof {
                    lemma_pairs_to_map(s1);
                    assert forall|k: Entity| #[trigger] pairs_to_map(s1).dom().contains(k) <==> old(
                        self,
                    )@.remove(e).dom().contains(k) by {
                        if has_key(s0, k) && k != e {
                            let j = choose|j: int| 0 <= j < s0.len() && #[trigger] s0[j].0 == k;
                            let j1 = if j < i { j } else { j - 1 };
                            assert(s1[j1].0 == k);
                        }
                        if has_key(s1, k) {
                            let j = choose|j: int| 0 <= j < s1.len() && #[trigger] s1[j].0 == k;
                            let j0 = if j < i { j } else { j + 1 };
                            assert(s0[j0].0 == k);
                            assert(j0 != i);
                        }
                    }
                    assert forall|k: Entity| #[trigger] pairs_to_map(s1).dom().contains(k) implies
                        pairs_to_map(s1)[k] == old(self)@.remove(e)[k] by {
                        let j = choose|j: int| 0 <= j < s1.len() && #[trigger] s1[j].0 == k;
                        let j0 = if j < i { j } else { j + 1 };
                        assert(s1[j] == s0[j0]);
                        assert(pairs_to_map(s1)[s1[j].0] == s1[j].1);
                        assert(pairs_to_map(s0)[s0[j0].0] == s0[j0].1);
                    }
                    assert(pairs_to_map(s1) =~= old(self)@.remove(e));
                }
            },
            None => {
                assert(old(self)@.remove(e) =~= old(self)@);
            },
        }
    }

    /// Detaches every component of this kind.
    pub fn clear(&mut self)
        ensures
            final(self).wf(),
            final(self)@ == Map::<Entity, T>::empty(),
            final(self).entries@.len() == 0,
    {
        self.entries.clear();
    }
}

/// Marks the entity the player controls.
#[derive(Clone, Copy, Debug)]
pub struct Player {}

/// Where an entity stands on the map.
#[derive(Clone, Copy, PartialEq, Eq, Structural, Debug)]
pub struct Position {
    pub x: i32,
    pub y: i32,
}

/// What an entity can see.
#[derive(Clone, Debug)]
pub struct Viewshed {
    pub visible_tiles: Vec<Point>,
    pub range: i32,
    pub dirty: bool,
}

/// Marks a monster.
#[derive(Clone, Copy, Debug)]
pub struct Monster {}

/// The name shown for an entity.
#[derive(Clone, Debug)]
pub struct Name {
    pub name: String,
}

/// Marks an entity that no other entity can walk through.
#[derive(Clone, Copy, Debug)]
pub struct BlocksTile {}

/// Marks an entity that is saved with the game.
pub struct SerializeMe;

/// Health and fighting values of an entity.
#[derive(Clone, Copy, PartialEq, Eq, Structural, Debug)]
pub struct CombatStats {
    pub max_hp: i32,
    pub hp: i32,
    pub defense: i32,
    pub power: i32,
    pub deflects: i32,
}

/// The entity wants to attack `target` in melee.
#[derive(Clone, Copy, Debug)]
pub struct WantsToMelee {
    pub target: Entity,
}

/// Damage an entity is to suffer this turn, one amount per hit.
#[derive(Clone, Debug)]
pub struct SufferDamage {
    pub amount: Vec<i32>,
}

/// Marks an item.
#[derive(Clone, Copy, Debug)]
pub struct Item {}

/// Using the item restores hit points.
#[derive(Clone, Copy, Debug)]
pub struct ProvidesHealing {
    pub heal_amount: i32,
}

/// Using the item raises attack power.
#[derive(Clone, Copy, Debug)]
pub struct ProvidesWhack {
    pub whack_amount: i32,
}

/// The item is carried by `owner`.
#[derive(Clone, Copy, PartialEq, Eq, Structural, Debug)]
pub struct InBackpack {
    pub owner: Entity,
}

/// `collected_by` wants to pick up `item`.
#[derive(Clone, Copy, Debug)]
pub struct WantsToPickupItem {
    pub collected_by: Entity,
    pub item: Entity,
}

/// Marks an item that is used up when used.
#[derive(Clone, Copy, Debug)]
pub struct Consumable {}

/// The entity wants to use `item`, on `target` if one is given.
#[derive(Clone, Copy, Debug)]
pub struct WantsToUseItem {
    pub item: Entity,
    pub target: Option<Point>,
}

/// The entity wants to drop `item`.
#[derive(Clone, Copy, Debug)]
pub struct WantsToDropItem {
    pub item: Entity,
}

/// The item can be used at a distance.
#[derive(Clone, Copy, Debug)]
pub struct Ranged {
    pub range: i32,
}

/// Using the item damages its targets.
#[derive(Clone, Copy, Debug)]
pub struct InflictsDamage {
    pub damage: i32,
}

/// The item affects every tile within `radius` of its target.
#[derive(Clone, Copy, Debug)]
pub struct AreaOfEffect {
    pub radius: i32,
}

/// Using the item grants deflections.
#[derive(Clone, Copy, Debug)]
pub struct Protects {
    pub deflections: i32,
}

/// An item that explodes once set and its timer has run down.
#[derive(Clone, Copy, PartialEq, Eq, Structural, Debug)]
pub struct WantsToExplode {
    pub set: bool,
    pub timer: i32,
}

/// Holds the map while the game is saved.
pub struct SerializationHelper {
    pub map: GameMap,
}

/// The damage amounts pending for each entity.
pub open spec fn damage_amounts(m: Map<Entity, SufferDamage>) -> Map<Entity, Seq<i32>> {
    m.map_values(|d: SufferDamage| d.amount@)
}

/// Pending damage after `victim` takes one more hit of `amount`.
pub open spec fn add_damage(m: Map<Entity, Seq<i32>>, victim: Entity, amount: i32) -> Map<
    Entity,
    Seq<i32>,
> {
    if m.dom().contains(victim) {
        m.insert(victim, m[victim].push(amount))
    } else {
        m.insert(victim, seq![amount])
    }
}

impl SufferDamage {
    /// Records a hit of `amount` against `victim`: appended to its pending
    /// damage, or its first pending damage.
    pub fn new_damage(store: &mut Storage<SufferDamage>, victim: Entity, amount: i32)
        requires
            old(store).wf(),
        ensures
            final(store).wf(),
            damage_amounts(final(store)@) == add_damage(damage_amounts(old(store)@), victim, amount),
    {
        let ghost s0 = store.entries@;
        proof {
            lemma_pairs_to_map(s0);
        }
        match store.find(victim) {
            Some(i) => {
                let (k, mut d) = store.entries.remove(i);
                d.amount.push(amount);
                store.entries.insert(i, (k, d));
                proof {
                    assert(store.entries@ =~= s0.update(i as int, (s0[i as int].0, d)));
                    lemma_update_value(s0, i as int, d);
                    assert(damage_amounts(store@) =~= add_damage(
                        damage_amounts(old(store)@),
                        victim,
                        amount,
                    ));
                }
            },
            None => {
                let mut amounts: Vec<i32> = Vec::new();
                amounts.push(amount);
                store.insert(victim, SufferDamage { amount: amounts });
                assert(damage_amounts(store@) =~= add_damage(
                    damage_amounts(old(store)@),
                    victim,
                    amount,
                ));
            },
        }
    }
}

} // verus!
