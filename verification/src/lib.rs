//! A small entity-component-system engine whose storage, bookkeeping and
//! scheduling logic is verified with Verus.

pub mod any;
pub mod ecs;
pub mod rendering;
pub mod editor;
pub mod application;
