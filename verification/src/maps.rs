//! Small containers for the engine: a two-way map, a two-way relation and a
//! queue that holds no item twice.
//!
//! Items are told apart by their views: the containers are for item types
//! whose `==` holds exactly of items with equal views.
pub mod bimap;
pub mod fastqueue;
pub mod pairmap;
pub mod sequences;
