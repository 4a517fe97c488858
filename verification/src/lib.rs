//! Rendering kernel for an elementary cellular automaton that scrolls over a
//! serpentine-wired LED panel.

pub mod automaton;
pub mod bits;
pub mod control;
pub mod display;
pub mod packed;
pub mod render;
pub mod ring;
pub mod state;
pub mod ticker;
