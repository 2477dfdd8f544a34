//! Software 2D rasterization and compositing.
//!
//! This crate draws shapes and glyph outlines onto an in-memory pixel
//! buffer.  It provides a compact packed encoding for path
//! instructions, per-format pixel blend algebra, a bounds-checked
//! pixel map, a layer of blitters selected per paint so that no more
//! work is done per pixel than the paint requires, and a canvas that
//! normalizes device geometry before drawing.  Coordinates are
//! carried through paths as opaque 64-bit operand payloads; the layer
//! that evaluates geometry decides what they mean.

pub mod blitter;
pub mod blitters;
pub mod canvas;
pub mod font;
pub mod format;
pub mod formats;
pub mod gui;
pub mod paint;
pub mod path;
pub mod pixel;
pub mod wallpaper;

pub use crate::blitter::create_blitter;
pub use crate::blitter::with_blitter;
pub use crate::blitter::AnyBlitter;
pub use crate::blitter::Blitter;
pub use crate::canvas::PixelMapCanvas;
pub use crate::format::Format;
pub use crate::formats::bgra8888::Bgra8888;
pub use crate::paint::BlendMode;
pub use crate::paint::Paint;
pub use crate::pixel::PixelMapMut;
pub use crate::wallpaper::draw_wallpaper;
