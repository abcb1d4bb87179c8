//! Round-trip through the document serializer: a rectangle path is built,
//! serialized with the outside serializer, parsed back by the serializer's
//! own reader, and must reproduce the same geometry bounds.

use std::rc::Rc;

use roarsvg::{fill, Color, DocumentNode, LyonWriter, PathCommand, PathEvent, Point, SvgDocument};
use usvg::{TreeParsing, TreeWriting};

fn pt(x: i32, y: i32) -> Point {
    Point { x, y }
}

/// Renders a finished document as the outside serializer's tree, one unit
/// per SVG pixel, mirroring what a serializer adapter does.
fn to_usvg_tree(doc: &SvgDocument) -> usvg::Tree {
    let root_node = usvg::Node::new(usvg::NodeKind::Group(usvg::Group::default()));
    let group_node = usvg::Node::new(usvg::NodeKind::Group(usvg::Group::default()));
    for node in &doc.root.child.nodes {
        let shape = match node {
            DocumentNode::Shape(s) => s,
            DocumentNode::Text(_) => panic!("this round trip carries no text"),
        };
        let mut pb = usvg::tiny_skia_path::PathBuilder::new();
        for cmd in shape.geometry.commands() {
            match *cmd {
                PathCommand::MoveTo(p) => pb.move_to(p.x as f32, p.y as f32),
                PathCommand::LineTo(p) => pb.line_to(p.x as f32, p.y as f32),
                PathCommand::QuadTo(c, p) => {
                    pb.quad_to(c.x as f32, c.y as f32, p.x as f32, p.y as f32)
                }
                PathCommand::CubicTo(c1, c2, p) => pb.cubic_to(
                    c1.x as f32,
                    c1.y as f32,
                    c2.x as f32,
                    c2.y as f32,
                    p.x as f32,
                    p.y as f32,
                ),
                PathCommand::Close => pb.close(),
            }
        }
        let mut svg_path = usvg::Path::new(Rc::new(pb.finish().unwrap()));
        svg_path.fill = shape.style.fill.map(|f| usvg::Fill {
            paint: usvg::Paint::Color(usvg::Color::new_rgb(
                f.color.red,
                f.color.green,
                f.color.blue,
            )),
            opacity: usvg::Opacity::new_clamped(f.opacity as f32 / 1000.0),
            ..usvg::Fill::default()
        });
        group_node.append(usvg::Node::new(usvg::NodeKind::Path(svg_path)));
    }
    root_node.append(group_node);
    usvg::Tree {
        size: usvg::Size::from_wh(doc.viewport.width as f32, doc.viewport.height as f32).unwrap(),
        view_box: usvg::ViewBox {
            rect: usvg::NonZeroRect::from_xywh(
                doc.viewport.center_x as f32,
                doc.viewport.center_y as f32,
                doc.viewport.width as f32,
                doc.viewport.height as f32,
            )
            .unwrap(),
            aspect: usvg::AspectRatio::default(),
        },
        root: root_node,
    }
}

#[test]
fn rectangle_round_trips_through_the_serializer() {
    // An axis-aligned rectangle from (1, 2) to (11, 8): four line segments,
    // closed, with a known fill color.
    let events = vec![
        PathEvent::Begin { at: pt(1, 2) },
        PathEvent::Line {
            from: pt(1, 2),
            to: pt(11, 2),
        },
        PathEvent::Line {
            from: pt(11, 2),
            to: pt(11, 8),
        },
        PathEvent::Line {
            from: pt(11, 8),
            to: pt(1, 8),
        },
        PathEvent::End {
            last: pt(1, 8),
            first: pt(1, 2),
            closed: true,
        },
    ];
    let mut writer = LyonWriter::new();
    writer
        .push(&events, Some(fill(Color::new_rgb(253, 77, 44), 800)), None, None)
        .unwrap();
    let doc = writer.prepare().unwrap();

    let tree = to_usvg_tree(&doc);
    let svg_text = tree.to_string(&usvg::XmlOptions::default());

    let reparsed = usvg::Tree::from_str(&svg_text, &usvg::Options::default()).unwrap();
    let mut bounds = None;
    for node in reparsed.root.descendants() {
        if let usvg::NodeKind::Path(ref path) = *node.borrow() {
            bounds = Some(path.data.bounds());
        }
    }
    let bounds = bounds.expect("the parsed document must hold the path");
    assert!((bounds.left() - 1.0).abs() < 1e-3);
    assert!((bounds.top() - 2.0).abs() < 1e-3);
    assert!((bounds.right() - 11.0).abs() < 1e-3);
    assert!((bounds.bottom() - 8.0).abs() < 1e-3);
}
