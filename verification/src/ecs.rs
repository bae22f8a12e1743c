//! The entity-component-system: entities, their components, the tables and
//! columns that store them, archetypes, queries and systems.

pub mod error;
pub mod component;
pub mod component_attr;
pub mod entity;

pub use error::Error;
pub mod storage;
pub mod archetype;
pub mod world;
pub mod bundle;
pub mod system;
pub mod packed;
pub mod sparse;
pub mod query;
pub mod commands;
