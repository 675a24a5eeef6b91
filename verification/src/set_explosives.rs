use vstd::prelude::*;

verus! {

/// Sets off dropped bombs once their timer has run down; it has no effect yet.
pub struct SetExplosiveSystem {}

} // verus!
