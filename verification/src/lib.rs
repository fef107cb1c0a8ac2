//! Core rules of a small turn-based adventure: health and damage, weighted
//! loot, inventory handling, travel between places, the combat round and
//! the experience that a win is worth.
//!
//! The functions here are verified against their contracts. The one thing
//! assumed rather than proved is what the random draws of `rand` return;
//! it is written down where they are called, in `utilities::math`.
//!
//! Quantities that are fractions in the game's design are held as scaled
//! integers: armor reduction in hundredths, experience and its multiplier
//! in tenths, and selection weights as relative whole numbers. The level
//! that an amount of experience stands for is a logarithm and is left to
//! the caller, who hands the level in.

pub mod entities;
pub mod errors;
pub mod game;
pub mod items;
pub mod places;
pub mod player;
pub mod utilities;
