//! Entity identifiers for an entity-component world.
//!
//! An [`entity::EntityManager`] hands out [`entity::Entity`] handles whose
//! indices are unique among the handles that are currently alive, takes them
//! back, and reissues returned indices before it mints fresh ones.
//! [`world::World`] owns one manager and forwards to it.
//!
//! The behaviour is stated over [`pool::Pool`], the mathematical state of a
//! manager, and the laws that hold of every sequence of calls are proved in
//! [`history`].

pub mod pool;
pub mod entity;
pub mod world;
pub mod history;
