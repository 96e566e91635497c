//! The sketcher's model and rules, proved: the geometry and constraints of
//! a 2D sketch and what deleting, constraining, snapping, typing and
//! profiling do to them.
//!
//! Coordinates, radii and dimension values are `f32`s in the sketcher. Here
//! they are carried by their IEEE-754 bit patterns (`u32`); the proved code
//! moves them about and never computes with them. Ids are the 128-bit
//! values of the sketch's UUIDs.

pub mod ident;
pub mod text;
pub mod sketch;
pub mod constrain;
pub mod style;
pub mod profile;
pub mod snap;
pub mod ovp;
pub mod workbench;
pub mod commands;
pub mod step;
pub mod glyphs;
pub mod dxf;
pub mod validate;
pub mod params;
pub mod feature;
pub mod external;
pub mod selection;
