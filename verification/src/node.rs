use vstd::prelude::*;

use crate::error::LyonTranslationError;
use crate::geom::{NormalizedGeometry, PathEvent};
use crate::style::{Fill, PaintStyle, Stroke, Transform};
use crate::translate::{translate, translated, translates_to_geometry};

verus! {

/// A drawable primitive: normalized geometry with paint attributes and a
/// transform of its own.
#[derive(Debug)]
pub struct ShapeNode {
    pub geometry: NormalizedGeometry,
    pub style: PaintStyle,
    pub transform: Transform,
}

/// An unflattened text primitive. It carries no geometry until an outside
/// font shaper converts it; one style span covers the whole content.
#[derive(Debug)]
pub struct TextRun {
    pub content: String,
    /// Font family names in fallback priority order.
    pub font_families: Vec<String>,
    /// The text size; always positive.
    pub size: u32,
    pub style: PaintStyle,
    pub transform: Transform,
}

/// One node of the growing document: either a shape or a text run.
#[derive(Debug)]
pub enum DocumentNode {
    Shape(ShapeNode),
    Text(TextRun),
}

/// The ascending paint-order key of a node: unstyled shapes first, then
/// fill-only, stroke-only and fill-and-stroke shapes, and all text above
/// all shapes.
pub open spec fn node_key(n: DocumentNode) -> int {
    match n {
        DocumentNode::Shape(s) => 2 * if s.style.fill is Some {
            1int
        } else {
            0int
        } + if s.style.stroke is Some {
            1int
        } else {
            0int
        },
        DocumentNode::Text(_) => 4int,
    }
}

/// Builds a shape node: translates the events and attaches style and
/// transform unchanged (no transform means identity). Opacity and width are
/// the style constructors' business and are not re-validated here.
pub fn build_shape(
    events: &Vec<PathEvent>,
    fill: Option<Fill>,
    stroke: Option<Stroke>,
    transform: Option<Transform>,
) -> (r: Result<ShapeNode, LyonTranslationError>)
    ensures
        r is Ok <==> translates_to_geometry(events@),
        r matches Ok(s) ==> {
            &&& s.geometry@ == translated(events@)
            &&& s.style == (PaintStyle { fill, stroke })
            &&& s.transform == (if transform is Some {
                transform.unwrap()
            } else {
                Transform::spec_identity()
            })
        },
        r matches Err(e) ==> e == LyonTranslationError::EmptyGeometry,
{
    let geometry = match translate(events) {
        Ok(g) => g,
        Err(e) => {
            return Err(e);
        },
    };
    let transform = match transform {
        Some(t) => t,
        None => Transform::identity(),
    };
    Ok(ShapeNode { geometry, style: PaintStyle { fill, stroke }, transform })
}

/// Builds a text run covering the whole content with a single style span.
/// Fails with [`LyonTranslationError::InvalidFontSize`] when the size is not
/// positive.
pub fn build_text(
    content: String,
    font_families: Vec<String>,
    size: u32,
    transform: Transform,
    fill: Option<Fill>,
    stroke: Option<Stroke>,
) -> (r: Result<TextRun, LyonTranslationError>)
    ensures
        r is Ok <==> size > 0,
        r matches Ok(t) ==> {
            &&& t.content == content
            &&& t.font_families == font_families
            &&& t.size == size
            &&& t.style == (PaintStyle { fill, stroke })
            &&& t.transform == transform
        },
        r matches Err(e) ==> e == LyonTranslationError::InvalidFontSize,
{
    if size == 0 {
        return Err(LyonTranslationError::InvalidFontSize);
    }
    Ok(TextRun { content, font_families, size, style: PaintStyle { fill, stroke }, transform })
}

} // verus!
