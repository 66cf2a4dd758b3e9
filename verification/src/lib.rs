//! An interpreter core for Piet, the language whose programs are images.
//!
//! A program is a grid of coloured codels. The walker moves from colour block
//! to colour block; the change of hue and lightness between two blocks selects
//! the instruction to run on an integer stack.

pub mod block;
pub mod color;
pub mod command;
pub mod decimal;
pub mod direction;
pub mod grid;
pub mod interpreter;
pub mod raster;
pub mod stack;
pub mod text;
pub mod translator;
