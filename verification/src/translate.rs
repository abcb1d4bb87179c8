use vstd::prelude::*;

use crate::error::LyonTranslationError;
use crate::geom::{NormalizedGeometry, PathCommand, PathEvent, Point};

verus! {

/// The commands an implicit move contributes: when a cursor is set and the
/// segment starts away from it, a single `MoveTo` bridges the discontinuity.
/// Two near-identical but not bit-equal points are *not* coalesced:
/// discontinuity detection is exact, which keeps translation lossless.
pub open spec fn implicit_move(cursor: Option<Point>, from: Point) -> Seq<PathCommand> {
    match cursor {
        Option::Some(c) => if from == c {
            Seq::<PathCommand>::empty()
        } else {
            seq![PathCommand::MoveTo(from)]
        },
        Option::None => Seq::<PathCommand>::empty(),
    }
}

/// The commands one event emits, given the cursor position before it.
pub open spec fn event_commands(cursor: Option<Point>, e: PathEvent) -> Seq<PathCommand> {
    match e {
        PathEvent::Begin { at } => seq![PathCommand::MoveTo(at)],
        PathEvent::Line { from, to } => implicit_move(cursor, from) + seq![
            PathCommand::LineTo(to),
        ],
        PathEvent::Quadratic { from, ctrl, to } => implicit_move(cursor, from) + seq![
            PathCommand::QuadTo(ctrl, to),
        ],
        PathEvent::Cubic { from, ctrl1, ctrl2, to } => implicit_move(cursor, from) + seq![
            PathCommand::CubicTo(ctrl1, ctrl2, to),
        ],
        PathEvent::End { last, first, closed } => implicit_move(cursor, last) + if closed {
            seq![PathCommand::LineTo(first), PathCommand::Close]
        } else {
            Seq::<PathCommand>::empty()
        },
    }
}

/// Where the cursor stands after one event: every event sets it.
pub open spec fn event_cursor(e: PathEvent) -> Point {
    match e {
        PathEvent::Begin { at } => at,
        PathEvent::Line { from, to } => to,
        PathEvent::Quadratic { from, ctrl, to } => to,
        PathEvent::Cubic { from, ctrl1, ctrl2, to } => to,
        PathEvent::End { last, first, closed } => last,
    }
}

/// The cursor after a whole event stream: unset only on the empty stream.
pub open spec fn cursor_after(events: Seq<PathEvent>) -> Option<Point> {
    if events.len() == 0 {
        Option::None
    } else {
        Option::Some(event_cursor(events.last()))
    }
}

/// The normalized command sequence of an event stream.
pub open spec fn translated(events: Seq<PathEvent>) -> Seq<PathCommand>
    decreases events.len(),
{
    if events.len() == 0 {
        Seq::<PathCommand>::empty()
    } else {
        translated(events.drop_last()) + event_commands(
            cursor_after(events.drop_last()),
            events.last(),
        )
    }
}

/// Translation succeeds exactly when the stream yields at least one command
/// and the first one is a move; anything else is malformed input.
pub open spec fn translates_to_geometry(events: Seq<PathEvent>) -> bool {
    translated(events).len() > 0 && translated(events)[0] is MoveTo
}

/// Extending a stream by one event appends that event's commands.
proof fn lemma_translated_step(events: Seq<PathEvent>, i: int)
    requires
        0 <= i < events.len(),
    ensures
        translated(events.take(i + 1)) == translated(events.take(i)) + event_commands(
            cursor_after(events.take(i)),
            events[i],
        ),
        cursor_after(events.take(i + 1)) == Option::Some(event_cursor(events[i])),
{
    assert(events.take(i + 1).drop_last() =~= events.take(i));
    assert(events.take(i + 1).last() == events[i]);
}

/// Turns a stream of path events into normalized geometry, maintaining a
/// current-point cursor and resolving discontinuities into explicit moves.
///
/// Fails with [`LyonTranslationError::EmptyGeometry`] when the stream yields
/// no commands (for instance an empty stream), or when the commands would
/// not begin with a move (a stream whose events never begin a sub-path).
pub fn translate(events: &Vec<PathEvent>) -> (r: Result<
    NormalizedGeometry,
    LyonTranslationError,
>)
    ensures
        r is Ok <==> translates_to_geometry(events@),
        r matches Ok(g) ==> g@ == translated(events@),
        r matches Err(e) ==> e == LyonTranslationError::EmptyGeometry,
{
    let mut out: Vec<PathCommand> = Vec::new();
    let mut cursor: Option<Point> = None;
    let n = events.len();
    let mut i: usize = 0;
    while i < n
        invariant
            n == events@.len(),
            0 <= i <= n,
            out@ == translated(events@.take(i as int)),
            cursor == cursor_after(events@.take(i as int)),
        decreases n - i,
    {
        proof {
            lemma_translated_step(events@, i as int);
        }
        let ghost pre = out@;
        let ghost cmds = event_commands(cursor, events@[i as int]);
        let e = events[i];
        match e {
            PathEvent::Begin { at } => {
                out.push(PathCommand::MoveTo(at));
                cursor = Some(at);
            },
            PathEvent::Line { from, to } => {
                if let Some(c) = cursor {
                    if from != c {
                        out.push(PathCommand::MoveTo(from));
                    }
                }
                out.push(PathCommand::LineTo(to));
                cursor = Some(to);
            },
            PathEvent::Quadratic { from, ctrl, to } => {
                if let Some(c) = cursor {
                    if from != c {
                        out.push(PathCommand::MoveTo(from));
                    }
                }
                out.push(PathCommand::QuadTo(ctrl, to));
                cursor = Some(to);
            },
            PathEvent::Cubic { from, ctrl1, ctrl2, to } => {
                if let Some(c) = cursor {
                    if from != c {
                        out.push(PathCommand::MoveTo(from));
                    }
                }
                out.push(PathCommand::CubicTo(ctrl1, ctrl2, to));
                cursor = Some(to);
            },
            PathEvent::End { last, first, closed } => {
                if let Some(c) = cursor {
                    if last != c {
                        out.push(PathCommand::MoveTo(last));
                    }
                }
                if closed {
                    out.push(PathCommand::LineTo(first));
                    out.push(PathCommand::Close);
                }
                cursor = Some(last);
            },
        }
        assert(out@ =~= pre + cmds);
        i = i + 1;
    }
    assert(events@.take(n as int) =~= events@);
    if out.len() == 0 {
        return Err(LyonTranslationError::EmptyGeometry);
    }
    let first_is_move = match out[0] {
        PathCommand::MoveTo(_) => true,
        _ => false,
    };
    if !first_is_move {
        return Err(LyonTranslationError::EmptyGeometry);
    }
    Ok(NormalizedGeometry::from_commands(out))
}

/// A single straight segment, begun at its own start point, translates to
/// exactly a move and a line; closing it adds the closing line and the
/// close, four commands in all.
pub proof fn lemma_single_segment(p0: Point, p1: Point)
    ensures
        translated(
            seq![PathEvent::Begin { at: p0 }, PathEvent::Line { from: p0, to: p1 }],
        ) == seq![PathCommand::MoveTo(p0), PathCommand::LineTo(p1)],
        translated(
            seq![
                PathEvent::Begin { at: p0 },
                PathEvent::Line { from: p0, to: p1 },
                PathEvent::End { last: p1, first: p0, closed: true },
            ],
        ) == seq![
            PathCommand::MoveTo(p0),
            PathCommand::LineTo(p1),
            PathCommand::LineTo(p0),
            PathCommand::Close,
        ],
{
    reveal_with_fuel(translated, 4);
    let open_evs = seq![PathEvent::Begin { at: p0 }, PathEvent::Line { from: p0, to: p1 }];
    let closed_evs = seq![
        PathEvent::Begin { at: p0 },
        PathEvent::Line { from: p0, to: p1 },
        PathEvent::End { last: p1, first: p0, closed: true },
    ];
    assert(closed_evs.drop_last() =~= open_evs);
    assert(open_evs.drop_last() =~= seq![PathEvent::Begin { at: p0 }]);
    assert(seq![PathEvent::Begin { at: p0 }].drop_last() =~= Seq::<PathEvent>::empty());
    assert(translated(open_evs) =~= seq![PathCommand::MoveTo(p0), PathCommand::LineTo(p1)]);
    assert(translated(closed_evs) =~= seq![
        PathCommand::MoveTo(p0),
        PathCommand::LineTo(p1),
        PathCommand::LineTo(p0),
        PathCommand::Close,
    ]);
}

/// A path of two connected line segments followed by a closed end
/// translates to exactly five commands: the move, the two lines, the
/// closing line back to the first point, and the close.
pub proof fn lemma_two_segments_closed(p0: Point, p1: Point, p2: Point)
    ensures
        translated(
            seq![
                PathEvent::Begin { at: p0 },
                PathEvent::Line { from: p0, to: p1 },
                PathEvent::Line { from: p1, to: p2 },
                PathEvent::End { last: p2, first: p0, closed: true },
            ],
        ) == seq![
            PathCommand::MoveTo(p0),
            PathCommand::LineTo(p1),
            PathCommand::LineTo(p2),
            PathCommand::LineTo(p0),
            PathCommand::Close,
        ],
{
    reveal_with_fuel(translated, 5);
    let evs = seq![
        PathEvent::Begin { at: p0 },
        PathEvent::Line { from: p0, to: p1 },
        PathEvent::Line { from: p1, to: p2 },
        PathEvent::End { last: p2, first: p0, closed: true },
    ];
    let evs3 = seq![
        PathEvent::Begin { at: p0 },
        PathEvent::Line { from: p0, to: p1 },
        PathEvent::Line { from: p1, to: p2 },
    ];
    let evs2 = seq![PathEvent::Begin { at: p0 }, PathEvent::Line { from: p0, to: p1 }];
    let evs1 = seq![PathEvent::Begin { at: p0 }];
    assert(evs.drop_last() =~= evs3);
    assert(evs3.drop_last() =~= evs2);
    assert(evs2.drop_last() =~= evs1);
    assert(evs1.drop_last() =~= Seq::<PathEvent>::empty());
    assert(translated(evs) =~= seq![
        PathCommand::MoveTo(p0),
        PathCommand::LineTo(p1),
        PathCommand::LineTo(p2),
        PathCommand::LineTo(p0),
        PathCommand::Close,
    ]);
}

/// Discontinuity handling: appending a line event whose start equals the
/// current cursor appends exactly the line command, while one whose start
/// differs inserts exactly one extra move before it.
pub proof fn lemma_discontinuity(events: Seq<PathEvent>, from: Point, to: Point)
    requires
        events.len() > 0,
    ensures
        from == event_cursor(events.last()) ==> translated(
            events.push(PathEvent::Line { from, to }),
        ) == translated(events) + seq![PathCommand::LineTo(to)],
        from != event_cursor(events.last()) ==> translated(
            events.push(PathEvent::Line { from, to }),
        ) == translated(events) + seq![PathCommand::MoveTo(from), PathCommand::LineTo(to)],
{
    let extended = events.push(PathEvent::Line { from, to });
    assert(extended.drop_last() =~= events);
    assert(extended.last() == PathEvent::Line { from, to });
    let c = event_cursor(events.last());
    if from == c {
        assert(event_commands(cursor_after(events), PathEvent::Line { from, to }) =~= seq![
            PathCommand::LineTo(to),
        ]);
    } else {
        assert(event_commands(cursor_after(events), PathEvent::Line { from, to }) =~= seq![
            PathCommand::MoveTo(from),
            PathCommand::LineTo(to),
        ]);
    }
}

} // verus!
