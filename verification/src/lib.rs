//! A small roguelike and the pieces of the terminal it runs on.
use vstd::prelude::*;

pub mod boot;
pub mod demo;
pub mod devices;
pub mod dungeon;
pub mod engine;
pub mod framebuffer;
pub mod generate;
pub mod input;
pub mod io;
pub mod keyboard;
pub mod line;
pub mod links;
pub mod map;
pub mod prelude;
pub mod rng;
pub mod serial;
pub mod terminal;
pub mod room;
pub mod tiles;
pub mod union_find;

verus! {

} // verus!
