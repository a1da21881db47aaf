//! A minimalist roguelike core: a procedural dungeon generator, a grid
//! ray marcher, and a fog-of-war visibility engine, together with the
//! thin turn-based interaction layer that consumes them.

use vstd::prelude::*;

pub mod entity;
pub mod fog;
pub mod game_map;
pub mod geom;
pub mod grid;
pub mod hash;
pub mod incmap;
pub mod mapgen;
pub mod names;
pub mod raycast;
pub mod rng;
pub mod state;

verus! {

} // verus!
