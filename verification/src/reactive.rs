//! The engine: cells, the dependency graph and the propagation of changes.
pub mod cell_id;
pub mod cycles;
pub mod invariants;
pub mod language;
pub mod model;
pub mod ordered_sheet;
pub mod pushes;
pub mod rules;
pub mod sheet;
