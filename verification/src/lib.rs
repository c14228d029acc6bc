//! Core of a data-driven scene engine: a fixed-point geometry kernel, a
//! collision engine over primitive solids, and parsers plus runtime state
//! machines for scene descriptions, requirement expressions and branching
//! dialogue scripts.
pub mod fixed;
pub mod geom;
pub mod collision;
pub mod parse;
pub mod player;
pub mod requirements;
pub mod scenes;
pub mod script;
