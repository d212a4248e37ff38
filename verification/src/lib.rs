//! A terminal drawing library: drawables are rasterised into a cell
//! buffer, dirty regions are tracked as intervals over the flattened
//! screen, and the buffer is turned into batched, colour-run draw commands.

pub mod basic_draw_creator;
pub mod builders;
pub mod cell;
pub mod clock;
pub mod drawables;
pub mod errors;
pub mod geometry;
pub mod input;
pub mod objects;
pub mod renderer;
pub mod screen_buffer;
pub mod screens;
pub mod shaders;
pub mod sprites;
pub mod update_interval;
