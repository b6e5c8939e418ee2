//! The two vectorization engines.
pub mod region;
pub mod sort;
pub mod trace;
pub mod emit;
pub mod color_table;
pub mod pixel_exact;
pub mod spline;
pub mod guarantees;
pub mod enclosure;
pub mod ascii_svg;
