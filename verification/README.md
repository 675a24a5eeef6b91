# time_tunnel

The logic of a small roguelike, verified with Verus.

- `src/map.rs`: the tile map, rooms and corridors, and the random level generator.
- `src/rect.rs`: rooms as rectangles.
- `src/components.rs`: entities, components, and `Storage`, the component store the systems work on.
- `src/damage_system.rs`, `src/inventory_system.rs`, `src/map_indexing_system.rs`: the systems run each turn,
  finding and burying the dead, and using, picking up and dropping items.
- `src/player.rs`: moving the player, and telling whether the player is dead.
- `src/state.rs`: the frame-by-frame state machine and level changes.
- `src/spawner.rs`: what rooms are populated with, drawn step by step (`SpawnDrawing`).
- `src/random.rs`: the random number generator of rltk.
- `app/`: the game itself: the ECS world (specs), drawing and input (rltk).

## Components

The systems read and write components through `components::Storage<T>`, a
list of `(Entity, T)` pairs with distinct entities whose view is a
`Map<Entity, T>`. The game itself keeps its components in specs' storages,
and `app/` copies them into `Storage` before a system runs and back after.
specs' storages cannot be handed to the verified code in their place:
- a specs storage only holds types that implement the trait
  `specs::Component` (its `MaskedStorage<T: Component>` and every method ask for
  it), and the library's component types cannot have that impl: an impl of
  an outside trait, like the derive that writes it, has no place in `src/`,
  and `app/` may not implement an outside trait for a type of the library;
- its methods take `specs::Entity` values, which only the world's entity
  allocator makes, and a storage borrows a resource fetched from the world
  for as long as it lives;
- walking a storage goes through specs' `Join` trait, and verified code cannot
  call through an outside trait.
