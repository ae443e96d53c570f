//! Domain colouring of complex functions in exact integer arithmetic.
//!
//! A picture of a complex function is a grid of samples: every pixel stands for a
//! point of the plane, the function is evaluated there, and the value picks a
//! colour from a colour map. Everything in this crate is computed on integers and
//! fixed-point numbers, so that each step has an exact mathematical statement.
//!
//! - `color`, `colormap`, `registry`: colours, colour maps and the built-in maps;
//! - `view`: the configuration of a picture and the map from samples to points;
//! - `binary64`, `plane`, `colorize`: values of functions and their colours;
//! - `render`: pictures, whole or in parts;
//! - `options`: the meaning of the command line.

pub mod binary64;
pub mod color;
pub mod colorize;
pub mod colormap;
pub mod options;
pub mod plane;
pub mod registry;
pub mod render;
pub mod view;
