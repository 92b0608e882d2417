//! A falling-sand cellular automaton: a grid of typed cells that evolves one
//! tick at a time under per-material rules, plus brush placement tasks that
//! may run side by side when their regions do not overlap.

pub mod cells;
pub mod definitions;
pub mod input;
pub mod rand;
pub mod world;
pub mod api;
pub mod logic;
pub mod line;
pub mod place;
pub mod sharing;
