//! A verified core for a toroidal cellular-automaton simulation.
//!
//! The library provides a fixed-size two-dimensional grid whose indexing
//! wraps around both axes, an enumerator for square (Moore) neighborhoods,
//! a pluggable automaton rule with Conway's Life as the provided instance,
//! a supervisor that double-buffers generations, and a small settings store.
//! Presentation concerns (canvas drawing, viewport floating-point math,
//! browser event wiring) live outside this crate.

pub mod automaton;
pub mod settings;
pub mod supervisor;
