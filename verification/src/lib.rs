//! Game semantics, strategy checking and the small pure rules of the
//! Gororoba workspace, written as a verified library.
pub mod arena;
pub mod strategy;
pub mod text;
pub mod conditions;
pub mod reach;
pub mod composition;
pub mod kernel_api;
pub mod learning;
pub mod synthesis;
pub mod studio;
pub mod voxels;
pub mod lattice;
pub mod probe;
pub mod sandbox;
pub mod game_core;
pub mod levels;
pub mod engine;
