//! Oicana: a tower defence in which what the towers shoot down can be caught
//! and fed to puzzles, and completed puzzles build and improve the towers.
//!
//! This crate is the game without its engine. It owns everything in play and
//! takes it from one tick to the next; an application around it supplies the
//! time, the player's input and the drawing.
//!
//! # Numbers
//!
//! The game is played on a lattice. A coordinate counts thousandths of a
//! world unit, time is counted in whole milliseconds, and speeds in whole
//! world units per second, so that a speed times a duration is a length on
//! the lattice. Lengths are compared by their squares; where a length itself
//! is needed, it is rounded down. Nothing in the crate is a floating-point
//! number.
//!
//! Counters stop at the largest value their type can hold rather than wrap
//! around: the score, the wave baseline, the length an enemy has walked and
//! the numbers of a tower. An enemy's health stops at the least value. Only
//! the numbers by which puzzles are known must not run out.
//!
//! # Identity
//!
//! Enemies live in a roster, projectiles in a list of slots: vectors of
//! optional entries. An enemy is known by the index of its roster slot from
//! birth on; when it goes, the slot stays empty for good, so an index kept by
//! a projectile or by the player's hand never comes to name another enemy.
//! Projectile slots are reused, since nothing refers to them.
//!
//! # Modules
//!
//! [`game`] holds the world and the order of a tick. [`enemies`],
//! [`bullets`], [`towers`] and [`puzzle`] hold the parts that take their
//! turns in it, [`map`] the field they play on, [`ui`] the ledger, and
//! [`geometry`] the arithmetic of the lattice.

pub mod bullets;
pub mod enemies;
pub mod game;
pub mod geometry;
pub mod loading;
pub mod map;
pub mod puzzle;
mod rng;
pub mod towers;
pub mod ui;
