//! What the rules are for: laws about what comes out of them, stated in terms of what goes in.

pub mod arrivals;
pub mod buffing;
pub mod catalogue;
pub mod crowds;
pub mod decks;
pub mod garrisons;
pub mod geometry;
pub mod learning;
pub mod outcome;
pub mod peers;
pub mod plays;
pub mod recordings;
pub mod rooms;
pub mod screens;
pub mod skirmishes;
pub mod spells;
pub mod strides;
pub mod strikes;
pub mod targets;
pub mod ticks;
pub mod views;
