//! Integer core of a small plot renderer: pixel compositing, glyph-label
//! assembly, colour and layout rules, and the canvas that backs a plot.
pub mod blend;
pub mod canvas;
pub mod label;
pub mod kinds;
pub mod colors;
pub mod layout;
pub mod plan;
