//! Core of a recursive ray tracer: the image buffer with its encodings, and
//! the parsing of command-line arguments and mesh face data.  The
//! floating-point rendering kernels live in the binary that drives this
//! library.

pub mod decimal;
pub mod image;
pub mod input;
