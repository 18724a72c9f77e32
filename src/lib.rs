//! An interpreter for programs written on a two-dimensional, wrapping grid of
//! characters, run by instruction pointers and shared with free-moving
//! automata.
pub mod aut;
pub mod coord;
pub mod dir;
pub mod kye;
pub mod model;
pub mod ops;
pub mod thread;

pub use aut::Automaton;
pub use coord::Coord;
pub use dir::Dir;
pub use kye::Kye;
pub use ops::decode;
pub use thread::{State, Thread};
