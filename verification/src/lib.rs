//! A raster paint engine: a stride-aligned composite buffer, a drawing layer
//! anchored in image space, brush and fill rasterisation, per-pixel filters
//! and a bounded undo history; around it the tool panel of an editor and
//! the state of its input.
//!
//! All arithmetic is exact integer arithmetic. Positions and radii of brush
//! operations are fixed-point numbers with eight fractional bits, zoom is a
//! ratio of two integers, colour blending is done in 255ths, and brightness
//! and HSV components are in thousandths.
//!
//! Every operation has a mathematical model in terms of `CanvasView`, the
//! view of a `Canvas`, and a contract that says which model it computes.
//! What the operations have in common beyond that is stated by the proof
//! functions next to them.

pub mod text;
pub mod pixel;
pub mod grid;
pub mod view;
pub mod canvas;
pub mod disc;
pub mod paint;
pub mod brush;
pub mod fill;
pub mod filters;
pub mod history;
pub mod pointer;
pub mod layer;
pub mod compose;
pub mod codec;
pub mod icons;
pub mod input;
pub mod panel;
pub mod draw;
