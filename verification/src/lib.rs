//! Rendering pipeline for a square LED dot-matrix panel: pixel frames, the
//! glyph table, the multiplexed scan of one frame, and the scroll
//! transitions that turn a string into a marquee. Beside it, the two rules of
//! the command line that feeds it: framing bytes into lines, and routing a
//! line to the commands registered for it.

pub mod cli;
pub mod frame_ascii;
pub mod matrix;
pub mod scroller;
pub mod transition;
pub mod transport;
