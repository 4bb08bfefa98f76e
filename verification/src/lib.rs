//! An entity store in which all entities that have the same set of
//! component types live in one table, the archetype of that set, with a
//! column for each type.
//!
//! `world::World` is the store. Entities are named by generational handles
//! (`entities`), their components are kept in archetypes (`archetype`), and
//! a set of component types finds its archetype through the identifier of
//! its sorted list (`bundles`). `queries` finds the archetypes that have
//! given component types and hands out their columns: to read, to any
//! number of shared queries at a time, or to read and write, to the one
//! exclusive query that holds the world. What the world is,
//! as a map from live entities to their components, and the invariant of
//! its storage are stated in `layout` and `archetype_view`.
//!
//! `components` and `generational_index` are a simpler storage, by pools
//! indexed by entity, and the index allocator that goes with it. `game`
//! holds the rules of a frame loop.

pub mod archetype;
pub mod archetype_view;
pub mod bundle_tuples;
pub mod bundles;
pub mod components;
pub mod entities;
pub mod game;
pub mod generational_index;
pub mod helpers;
pub mod layout;
pub mod queries;
pub mod world;
