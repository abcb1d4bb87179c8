//! *roarsvg* turns event-based descriptions of 2-D vector paths into a
//! laid-out document tree ready for rendering as a scalable vector graphic.
//!
//! The two central pieces are the path event translator ([`translate`]), which
//! maps a stream of [`PathEvent`]s to normalized path geometry, and the
//! document assembler ([`LyonWriter`]), which accumulates shape and text
//! nodes, computes a bounding viewport, establishes a deterministic paint
//! order, and builds the output tree ([`SvgDocument`]).
//!
//! All coordinates, opacities and sizes are integers: a caller picks a unit
//! (for instance a fixed-point scale) and converts once at the boundary.
//! Serialization of the finished tree and font shaping are left to outside
//! collaborators.
//!
//! [`translate`]: translate::translate
//! [`PathEvent`]: geom::PathEvent
//! [`LyonWriter`]: writer::LyonWriter
//! [`SvgDocument`]: writer::SvgDocument

pub mod error;
pub mod geom;
pub mod style;
pub mod node;
pub mod order;
pub mod translate;
pub mod viewport;
pub mod writer;

pub use error::LyonTranslationError;
pub use geom::{NormalizedGeometry, PathCommand, PathEvent, Point};
pub use node::{build_shape, build_text, DocumentNode, ShapeNode, TextRun};
pub use style::{fill, stroke, Color, Fill, PaintStyle, Stroke, Transform};
pub use viewport::{Rect, Viewport};
pub use writer::{Group, LyonWriter, NoText, RootGroup, SvgDocument};
