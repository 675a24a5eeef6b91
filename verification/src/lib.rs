//! Game logic of a small roguelike: map generation, the entity
//! component model and the systems that run each turn.

pub mod map;
pub mod components;
pub mod rect;
pub mod random;
pub mod gamelog;
pub mod damage_system;
pub mod map_indexing_system;
pub mod inventory_system;
pub mod player;
pub mod state;
pub mod spawner;
pub mod set_explosives;
