use vstd::prelude::*;
use crate::components::Entity;

verus! {

/// A line of the game log, with the entities it speaks of; the text is made
/// from it, with the entities' names, where the log is shown.
#[derive(Clone, Copy, PartialEq, Eq, Structural, Debug)]
pub enum LogEntry {
    /// "You pick up the {item}."
    PickedUp { item: Entity },
    /// "You drink the {item}, healing {amount} hp"
    Healed { item: Entity, amount: i32 },
    /// "You bound by fire to the {item}, the power of {amount} flows through"
    Empowered { item: Entity, amount: i32 },
    /// "You use {item} on {target}, inflicting {amount} hp"
    Inflicted { item: Entity, target: Entity, amount: i32 },
    /// "You drink the {item}, adding {amount} deflections"
    Protected { item: Entity, amount: i32 },
    /// "You Drop a {item}."
    Dropped { item: Entity },
    /// "Bomb set"
    BombSet,
    /// "{victim} is dead"
    Dead { victim: Entity },
    /// "you descend to the next level, and take a moment to heal"
    Descended,
}

} // verus!
