//! A small vector-to-raster renderer: geometric primitives (points, lines,
//! triangles, rectangles, pentagons, circles and wireframe cubes) are
//! decomposed into line segments and rasterized onto a pixel canvas with
//! the integer Bresenham and midpoint-circle algorithms.
//!
//! The canvas is raster's image, reached only through the bounds-checking
//! display adapter in [`canvas`]; out-of-bounds writes are clipped, never
//! errors. Every draw operation's effect on the canvas is specified
//! exactly, as a fold of clipped pixel writes over the shape's pixel
//! sequence, and each rasterizer's pixel sequence is itself pinned down:
//! lines by a closed form of the Bresenham error stepping ([`line`]),
//! circles by the midpoint walk ([`circle`]).

pub mod canvas;
pub mod circle;
pub mod color;
pub mod cube;
pub mod line;
pub mod pentagon;
pub mod point;
pub mod rectangle;
pub mod rng;
pub mod triangle;
