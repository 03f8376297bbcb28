//! Stitches long sequences of tall strip-format images into a smaller set of
//! taller pages, cutting only at pixel rows that are visually near-uniform so
//! that no artwork is severed by an output boundary.
//!
//! The pipeline runs strictly forward: a [`canvas::Canvas`] is loaded from
//! decoded image files, the selector walks its height choosing cut offsets
//! under height and uniformity constraints, and the assembler crops and
//! encodes one output image per segment.
#![verifier::loop_isolation(false)]

pub mod assembler;
pub mod canvas;
pub mod exporter;
pub mod io_section;
pub mod limit_section;
pub mod loader;
pub mod message;
pub mod numeric;
pub mod pixel_field;
pub mod scorer;
pub mod selector;
pub mod setting_section;
pub mod simple_screen;
pub mod sorting;
pub mod stitcher;
