use vstd::prelude::*;

use crate::error::LyonTranslationError;
use crate::geom::PathEvent;
use crate::node::{build_shape, build_text, DocumentNode, TextRun};
use crate::order::{order_nodes, ordered};
use crate::style::{Fill, PaintStyle, Stroke, Transform};
use crate::translate::{translated, translates_to_geometry};
use crate::viewport::{
    compute_viewport, viewport_center_x, viewport_center_y, viewport_height, viewport_width,
    Viewport,
};

verus! {

/// A group of the output tree: a transform applied to its children.
#[derive(Debug)]
pub struct Group {
    pub transform: Transform,
    pub nodes: Vec<DocumentNode>,
}

/// The root wrapping group of the output tree. It carries nothing itself
/// and contains exactly one child group, which holds the global transform
/// and the ordered nodes.
#[derive(Debug)]
pub struct RootGroup {
    pub child: Group,
}

/// The finished document: a computed viewport and the root group, ready for
/// an outside document serializer.
#[derive(Debug)]
pub struct SvgDocument {
    pub viewport: Viewport,
    pub root: RootGroup,
}

/// The transform an optional setting denotes: identity when unset.
pub open spec fn transform_or_identity(t: Option<Transform>) -> Transform {
    match t {
        Option::Some(t) => t,
        Option::None => Transform::spec_identity(),
    }
}

/// A node that holds exactly the shape the given arguments build.
pub open spec fn is_built_shape(
    n: DocumentNode,
    events: Seq<PathEvent>,
    fill: Option<Fill>,
    stroke: Option<Stroke>,
    transform: Option<Transform>,
) -> bool {
    &&& n matches DocumentNode::Shape(s)
    &&& s.geometry@ == translated(events)
    &&& s.style == (PaintStyle { fill, stroke })
    &&& s.transform == transform_or_identity(transform)
}

/// A document built from the given node set and global transform: the
/// viewport is computed over the set, the single child group of the root
/// carries the transform and the nodes in deterministic paint order.
pub open spec fn is_document_of(
    doc: SvgDocument,
    nodes: Seq<DocumentNode>,
    global_transform: Option<Transform>,
) -> bool {
    &&& doc.viewport.width == viewport_width(nodes)
    &&& doc.viewport.height == viewport_height(nodes)
    &&& doc.viewport.center_x == viewport_center_x(nodes)
    &&& doc.viewport.center_y == viewport_center_y(nodes)
    &&& doc.root.child.transform == transform_or_identity(global_transform)
    &&& doc.root.child.nodes@ == ordered(nodes)
}

/// Marker for a [`LyonWriter`] with no font provider attached: text
/// operations are statically unavailable on it.
#[derive(Clone, Copy, Debug)]
pub struct NoText;

/// The document assembler. It accumulates shape and text nodes, carries an
/// optional global transform, and on [`prepare`](Self::prepare) computes the
/// viewport, orders the nodes and builds the output tree, consuming itself.
///
/// The type parameter fixes the text capability at construction time:
/// a writer starts as `LyonWriter<NoText>`, and only
/// [`add_fonts`](Self::add_fonts) turns it into one that accepts text.
#[derive(Debug)]
pub struct LyonWriter<T> {
    nodes: Vec<DocumentNode>,
    global_transform: Option<Transform>,
    fontdb: T,
}

/// Builds the output tree of a node set: viewport, paint order, and the
/// wrapping groups. Fails only when there is no node at all.
fn assemble(nodes: Vec<DocumentNode>, global_transform: Option<Transform>) -> (r: Result<
    SvgDocument,
    LyonTranslationError,
>)
    ensures
        r is Ok <==> nodes@.len() > 0,
        r matches Ok(doc) ==> is_document_of(doc, nodes@, global_transform),
        r matches Err(e) ==> e == LyonTranslationError::DegenerateViewport,
{
    if nodes.len() == 0 {
        return Err(LyonTranslationError::DegenerateViewport);
    }
    let viewport = compute_viewport(&nodes);
    let sorted = order_nodes(nodes);
    let transform = match global_transform {
        Some(t) => t,
        None => Transform::identity(),
    };
    Ok(SvgDocument { viewport, root: RootGroup { child: Group { transform, nodes: sorted } } })
}

impl<T> LyonWriter<T> {
    /// The accumulated nodes, in push order.
    pub closed spec fn nodes_seq(self) -> Seq<DocumentNode> {
        self.nodes@
    }

    /// The global transform, if one was set.
    pub closed spec fn transform_opt(self) -> Option<Transform> {
        self.global_transform
    }

    /// The font capability value the writer carries.
    pub closed spec fn fonts(self) -> T {
        self.fontdb
    }

    /// Translates a path's events and appends the resulting shape node with
    /// the given paint attributes (eager translation). On failure the error
    /// of the translator is returned unchanged and nothing is appended.
    pub fn push(
        &mut self,
        events: &Vec<PathEvent>,
        fill: Option<Fill>,
        stroke: Option<Stroke>,
        transform: Option<Transform>,
    ) -> (r: Result<(), LyonTranslationError>)
        ensures
            r is Ok <==> translates_to_geometry(events@),
            r is Ok ==> final(self).nodes_seq() == old(self).nodes_seq().push(
                final(self).nodes_seq().last(),
            ) && is_built_shape(
                final(self).nodes_seq().last(),
                events@,
                fill,
                stroke,
                transform,
            ),
            r matches Err(e) ==> e == LyonTranslationError::EmptyGeometry && *final(self)
                == *old(self),
            final(self).transform_opt() == old(self).transform_opt(),
            final(self).fonts() == old(self).fonts(),
    {
        let node = match build_shape(events, fill, stroke, transform) {
            Ok(s) => s,
            Err(e) => {
                return Err(e);
            },
        };
        self.nodes.push(DocumentNode::Shape(node));
        Ok(())
    }

    /// Appends a node without any indirection.
    pub fn push_node(&mut self, node: DocumentNode)
        ensures
            final(self).nodes_seq() == old(self).nodes_seq().push(node),
            final(self).transform_opt() == old(self).transform_opt(),
            final(self).fonts() == old(self).fonts(),
    {
        self.nodes.push(node);
    }

    /// Records a transform to be applied to the whole document as a
    /// wrapping group; it replaces, not composes, any previous one.
    pub fn with_transform(self, trans: Transform) -> (w: Self)
        ensures
            w.nodes_seq() == self.nodes_seq(),
            w.transform_opt() == Some(trans),
            w.fonts() == self.fonts(),
    {
        LyonWriter { global_transform: Some(trans), ..self }
    }

    /// Attaches a font provider, enabling the text operations. The provider
    /// itself is opaque to the assembler; it is handed back on
    /// [`prepare_text`](LyonWriter::prepare_text) for the outside shaper.
    pub fn add_fonts<Fp>(self, fonts: Fp) -> (w: LyonWriter<Option<Fp>>)
        ensures
            w.nodes_seq() == self.nodes_seq(),
            w.transform_opt() == self.transform_opt(),
            w.fonts() == Some(fonts),
    {
        LyonWriter {
            nodes: self.nodes,
            global_transform: self.global_transform,
            fontdb: Some(fonts),
        }
    }

    /// Builds the output tree, consuming the writer: computes the viewport
    /// over the accumulated nodes, orders them deterministically, and wraps
    /// them in the root groups. Fails with
    /// [`LyonTranslationError::DegenerateViewport`] when no node was pushed.
    pub fn prepare(self) -> (r: Result<SvgDocument, LyonTranslationError>)
        ensures
            r is Ok <==> self.nodes_seq().len() > 0,
            r matches Ok(doc) ==> is_document_of(doc, self.nodes_seq(), self.transform_opt()),
            r matches Err(e) ==> e == LyonTranslationError::DegenerateViewport,
    {
        let LyonWriter { nodes, global_transform, fontdb: _ } = self;
        assemble(nodes, global_transform)
    }
}

impl LyonWriter<NoText> {
    /// A fresh writer with no nodes, no global transform and no font
    /// provider.
    pub fn new() -> (w: LyonWriter<NoText>)
        ensures
            w.nodes_seq() == Seq::<DocumentNode>::empty(),
            w.transform_opt() is None,
    {
        LyonWriter { nodes: Vec::new(), global_transform: None, fontdb: NoText }
    }
}

impl Default for LyonWriter<NoText> {
    /// Same as [`LyonWriter::new`].
    fn default() -> (w: Self)
        ensures
            w.nodes_seq() == Seq::<DocumentNode>::empty(),
            w.transform_opt() is None,
    {
        LyonWriter::new()
    }
}

impl<Fp> LyonWriter<Option<Fp>> {
    /// Appends a text run covering the whole content with one style span.
    /// Only a writer with fonts attached offers this operation. Fails with
    /// [`LyonTranslationError::InvalidFontSize`] when the size is not
    /// positive; nothing is appended then.
    pub fn push_text(
        &mut self,
        text: String,
        font_families: Vec<String>,
        font_size: u32,
        transform: Transform,
        fill: Option<Fill>,
        stroke: Option<Stroke>,
    ) -> (r: Result<(), LyonTranslationError>)
        ensures
            r is Ok <==> font_size > 0,
            r is Ok ==> final(self).nodes_seq() == old(self).nodes_seq().push(
                DocumentNode::Text(
                    TextRun {
                        content: text,
                        font_families,
                        size: font_size,
                        style: PaintStyle { fill, stroke },
                        transform,
                    },
                ),
            ),
            r matches Err(e) ==> e == LyonTranslationError::InvalidFontSize && *final(self)
                == *old(self),
            final(self).transform_opt() == old(self).transform_opt(),
            final(self).fonts() == old(self).fonts(),
    {
        let run = match build_text(text, font_families, font_size, transform, fill, stroke) {
            Ok(t) => t,
            Err(e) => {
                return Err(e);
            },
        };
        self.nodes.push(DocumentNode::Text(run));
        Ok(())
    }

    /// Builds the output tree as [`prepare`](LyonWriter::prepare) does and
    /// hands the font provider back beside it, for the outside font shaper
    /// to flatten the text nodes. Fails with
    /// [`LyonTranslationError::MissingFontProvider`] when the provider was
    /// already taken, before anything else is checked.
    pub fn prepare_text(self) -> (r: Result<(SvgDocument, Fp), LyonTranslationError>)
        ensures
            self.fonts() is None ==> (r matches Err(e) && e
                == LyonTranslationError::MissingFontProvider),
            self.fonts() is Some ==> {
                &&& r is Ok <==> self.nodes_seq().len() > 0
                &&& (r matches Ok(p) ==> is_document_of(p.0, self.nodes_seq(), self.transform_opt())
                    && p.1 == self.fonts().unwrap())
                &&& (r matches Err(e) ==> e == LyonTranslationError::DegenerateViewport)
            },
    {
        let LyonWriter { nodes, global_transform, fontdb } = self;
        let fonts = match fontdb {
            Some(f) => f,
            None => {
                return Err(LyonTranslationError::MissingFontProvider);
            },
        };
        match assemble(nodes, global_transform) {
            Ok(doc) => Ok((doc, fonts)),
            Err(e) => Err(e),
        }
    }
}

} // verus!
