//! The analytical core of a colour analyser: the bounds and decisions of the
//! conversions between CIE XYZ, CIE Lab, sRGB and HSV, and the decisions of
//! k-means++ clustering of four-dimensional colour samples.
//!
//! Numbers are single-precision and are held as their bit patterns. The
//! library compares them and moves them; where a result needs no rounding it
//! computes it with whole numbers. Arithmetic that rounds is the caller's
//! part.

pub mod color_space;
pub mod command;
pub mod header;
pub mod hue;
pub mod kmeans;
pub mod literal;
pub mod model;
pub mod pixels;
pub mod random;
pub mod session;
pub mod single;
pub mod text;
