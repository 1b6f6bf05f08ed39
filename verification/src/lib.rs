//! Verified core of a 2D tile-game runtime.
//!
//! The library keeps a sparse entity store and a dense tile grid in step with
//! each other: component changes are collected per tick into a [`tracker::ChangeSet`],
//! the grid is updated incrementally by [`grid::MappingSystem`], and a pointer
//! position is resolved to a grid cell through an exact, invertible view
//! transform ([`view::Scene`], [`picker`]). A small scheduler validates the
//! dependency graph of the per-tick steps and orders them, render step last.
//!
//! Everything here works on plain integer and rational values; windowing,
//! GPU work and real clocks live with the host around the library.

pub mod clock;
pub mod components;
pub mod distribution;
pub mod entity;
pub mod error;
pub mod game;
pub mod grid;
pub mod input;
pub mod picker;
pub mod render;
pub mod scheduler;
pub mod tracker;
pub mod units;
pub mod view;
pub mod volume;
