//! Tests of the document assembler: viewport math, paint order, tree shape.

use roarsvg::{
    build_text, fill, stroke, Color, DocumentNode, LyonTranslationError, LyonWriter, PathEvent,
    Point, Transform,
};

fn pt(x: i32, y: i32) -> Point {
    Point { x, y }
}

/// A rectangle from (x0, y0) to (x1, y1): four line segments, closed.
fn rect_events(x0: i32, y0: i32, x1: i32, y1: i32) -> Vec<PathEvent> {
    vec![
        PathEvent::Begin { at: pt(x0, y0) },
        PathEvent::Line {
            from: pt(x0, y0),
            to: pt(x1, y0),
        },
        PathEvent::Line {
            from: pt(x1, y0),
            to: pt(x1, y1),
        },
        PathEvent::Line {
            from: pt(x1, y1),
            to: pt(x0, y1),
        },
        PathEvent::End {
            last: pt(x0, y1),
            first: pt(x0, y0),
            closed: true,
        },
    ]
}

#[test]
fn empty_writer_fails_with_degenerate_viewport() {
    let writer = LyonWriter::new();
    assert_eq!(
        writer.prepare().unwrap_err(),
        LyonTranslationError::DegenerateViewport
    );
}

#[test]
fn text_only_document_gets_floored_viewport() {
    // Text nodes carry no geometry: the bounding box stays degenerate and
    // both axes are floored, never zero and never a failure.
    let writer = LyonWriter::new();
    let mut writer = writer.add_fonts(());
    writer
        .push_text(
            "hello".to_string(),
            vec!["Arial".to_string()],
            12,
            Transform::identity(),
            None,
            None,
        )
        .unwrap();
    let (doc, _fonts) = writer.prepare_text().unwrap();
    assert_eq!(doc.viewport.width, 2);
    assert_eq!(doc.viewport.height, 2);
    assert_eq!(doc.viewport.center_x, 0);
    assert_eq!(doc.viewport.center_y, 0);
}

#[test]
fn viewport_of_one_rectangle() {
    let mut writer = LyonWriter::new();
    writer
        .push(&rect_events(0, 0, 10, 4), None, None, None)
        .unwrap();
    let doc = writer.prepare().unwrap();
    assert_eq!(doc.viewport.width, 10);
    assert_eq!(doc.viewport.height, 4);
    assert_eq!(doc.viewport.center_x, 5);
    assert_eq!(doc.viewport.center_y, 2);
}

#[test]
fn viewport_box_folds_in_the_origin() {
    // The union box starts from the degenerate box at the origin, so a shape
    // strictly in the positive quadrant still spans from zero.
    let mut writer = LyonWriter::new();
    writer
        .push(&rect_events(4, 6, 10, 8), None, None, None)
        .unwrap();
    let doc = writer.prepare().unwrap();
    assert_eq!(doc.viewport.width, 10);
    assert_eq!(doc.viewport.height, 8);
    assert_eq!(doc.viewport.center_x, 7);
    assert_eq!(doc.viewport.center_y, 7);
}

#[test]
fn viewport_center_averages_over_all_nodes() {
    // Two shapes with midpoints (5, 2) and (15, 2), plus one text node: the
    // box ignores the text, the center's divisor counts it.
    let writer = LyonWriter::new();
    let mut writer = writer.add_fonts(());
    writer
        .push(&rect_events(0, 0, 10, 4), None, None, None)
        .unwrap();
    writer
        .push(&rect_events(10, 0, 20, 4), None, None, None)
        .unwrap();
    writer
        .push_text(
            "hello".to_string(),
            vec!["Arial".to_string()],
            12,
            Transform::identity(),
            None,
            None,
        )
        .unwrap();
    let (doc, _) = writer.prepare_text().unwrap();
    assert_eq!(doc.viewport.width, 20);
    assert_eq!(doc.viewport.height, 4);
    // (5 + 15 + 0) / 3, rounded toward negative infinity.
    assert_eq!(doc.viewport.center_x, 6);
    assert_eq!(doc.viewport.center_y, 1);
}

#[test]
fn push_text_rejects_zero_size() {
    let writer = LyonWriter::new();
    let mut writer = writer.add_fonts(());
    let r = writer.push_text(
        "hello".to_string(),
        vec!["Arial".to_string()],
        0,
        Transform::identity(),
        None,
        None,
    );
    assert_eq!(r.unwrap_err(), LyonTranslationError::InvalidFontSize);
    // Nothing was appended: the writer still has no nodes.
    assert_eq!(
        writer.prepare().unwrap_err(),
        LyonTranslationError::DegenerateViewport
    );
}

#[test]
fn nodes_order_by_style_key_then_text_stably() {
    let some_fill = Some(fill(Color::black(), 1000));
    let some_stroke = Some(stroke(Color::black(), 1000, 1));
    let writer = LyonWriter::new();
    let mut writer = writer.add_fonts(());
    // Push in scrambled order; x0 of each rectangle identifies the node.
    writer
        .push(&rect_events(1, 0, 2, 1), some_fill, some_stroke, None)
        .unwrap(); // key 3
    writer
        .push_text(
            "hello".to_string(),
            vec!["Arial".to_string()],
            12,
            Transform::identity(),
            None,
            None,
        )
        .unwrap(); // key 4
    writer
        .push(&rect_events(2, 0, 3, 1), some_fill, None, None)
        .unwrap(); // key 2
    writer
        .push(&rect_events(3, 0, 4, 1), None, None, None)
        .unwrap(); // key 0
    writer
        .push(&rect_events(4, 0, 5, 1), None, some_stroke, None)
        .unwrap(); // key 1
    writer
        .push(&rect_events(5, 0, 6, 1), None, None, None)
        .unwrap(); // key 0, after the other key-0 node
    let (doc, _) = writer.prepare_text().unwrap();
    let marks: Vec<i32> = doc
        .root
        .child
        .nodes
        .iter()
        .map(|n| match n {
            DocumentNode::Shape(s) => match s.geometry.commands()[0] {
                roarsvg::PathCommand::MoveTo(p) => p.x,
                _ => panic!("geometry must begin with a move"),
            },
            DocumentNode::Text(_) => -1,
        })
        .collect();
    // Unstyled first (3 then 5: stable), stroke-only, fill-only, both, text.
    assert_eq!(marks, vec![3, 5, 4, 2, 1, -1]);
}

#[test]
fn with_transform_replaces_the_previous_one() {
    let mut writer = LyonWriter::new();
    writer
        .push(&rect_events(0, 0, 1, 1), None, None, None)
        .unwrap();
    let writer = writer
        .with_transform(Transform::from_translate(1, 1))
        .with_transform(Transform::from_translate(7, 9));
    let doc = writer.prepare().unwrap();
    assert_eq!(doc.root.child.transform, Transform::from_translate(7, 9));
}

#[test]
fn missing_transform_defaults_to_identity() {
    let mut writer = LyonWriter::new();
    writer
        .push(&rect_events(0, 0, 1, 1), None, None, None)
        .unwrap();
    let doc = writer.prepare().unwrap();
    assert_eq!(doc.root.child.transform, Transform::identity());
}

#[test]
fn push_node_appends_directly() {
    let mut writer = LyonWriter::new();
    let run = build_text(
        "hi".to_string(),
        vec!["Arial".to_string()],
        10,
        Transform::identity(),
        None,
        None,
    )
    .unwrap();
    writer.push_node(DocumentNode::Text(run));
    writer
        .push(&rect_events(0, 0, 4, 4), None, None, None)
        .unwrap();
    let doc = writer.prepare().unwrap();
    assert_eq!(doc.root.child.nodes.len(), 2);
    // The shape orders before the text.
    assert!(matches!(doc.root.child.nodes[0], DocumentNode::Shape(_)));
    assert!(matches!(doc.root.child.nodes[1], DocumentNode::Text(_)));
}

#[test]
fn failed_push_appends_nothing() {
    let mut writer = LyonWriter::new();
    let empty: Vec<PathEvent> = Vec::new();
    assert_eq!(
        writer.push(&empty, None, None, None).unwrap_err(),
        LyonTranslationError::EmptyGeometry
    );
    assert_eq!(
        writer.prepare().unwrap_err(),
        LyonTranslationError::DegenerateViewport
    );
}

#[test]
fn default_writer_is_fresh() {
    let writer = LyonWriter::default();
    assert_eq!(
        writer.prepare().unwrap_err(),
        LyonTranslationError::DegenerateViewport
    );
}

#[test]
fn viewport_with_negative_coordinates_floors_the_center() {
    let mut writer = LyonWriter::new();
    writer
        .push(&rect_events(-10, -4, 0, 0), None, None, None)
        .unwrap();
    let doc = writer.prepare().unwrap();
    assert_eq!(doc.viewport.width, 10);
    assert_eq!(doc.viewport.height, 4);
    assert_eq!(doc.viewport.center_x, -5);
    assert_eq!(doc.viewport.center_y, -2);

    // An odd negative span rounds the midpoint toward negative infinity.
    let mut writer = LyonWriter::new();
    writer
        .push(&rect_events(-3, 0, 0, 1), None, None, None)
        .unwrap();
    let doc = writer.prepare().unwrap();
    assert_eq!(doc.viewport.center_x, -2);
    assert_eq!(doc.viewport.center_y, 0);
}

#[test]
fn end_only_stream_appends_nothing() {
    // An unclosed end with no cursor emits no command at all.
    let mut writer = LyonWriter::new();
    let events = vec![PathEvent::End {
        last: pt(1, 1),
        first: pt(0, 0),
        closed: false,
    }];
    assert_eq!(
        writer.push(&events, None, None, None).unwrap_err(),
        LyonTranslationError::EmptyGeometry
    );
}

#[test]
fn prepare_text_hands_the_provider_back() {
    let writer = LyonWriter::new();
    let mut writer = writer.add_fonts(42u64);
    writer
        .push(&rect_events(0, 0, 1, 1), None, None, None)
        .unwrap();
    let (_, fonts) = writer.prepare_text().unwrap();
    assert_eq!(fonts, 42);
}
