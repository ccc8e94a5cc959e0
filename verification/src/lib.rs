//! Core of a bullet-pattern simulation engine: a columnar store of
//! short-lived projectiles, partitioned into buckets by behavior signature,
//! advanced in fixed steps and rendered through parent/child composition.

pub mod behavior;
pub mod bucket;
pub mod color;
pub mod column_set;
pub mod compose;
pub mod columns;
pub mod fields;
pub mod form;
pub mod handlers;
pub mod lanes;
pub mod lanewise;
pub mod names;
pub mod numeric;
pub mod packed;
pub mod links;
pub mod queue;
pub mod render;
pub mod spawn;
pub mod staging;
pub mod standard_behaviors;
