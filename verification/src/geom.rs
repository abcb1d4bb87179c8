use vstd::prelude::*;

verus! {

/// A 2-D point with integer coordinates, in the unit chosen by the caller.
#[derive(Clone, Copy, Debug, PartialEq, Eq, Structural)]
pub struct Point {
    pub x: i32,
    pub y: i32,
}

/// One drawing instruction of an incoming event stream, in the coordinate
/// system supplied by the caller. Produced by a path-authoring source and
/// consumed only by the translator.
#[derive(Clone, Copy, Debug, PartialEq, Eq, Structural)]
pub enum PathEvent {
    Begin { at: Point },
    Line { from: Point, to: Point },
    Quadratic { from: Point, ctrl: Point, to: Point },
    Cubic { from: Point, ctrl1: Point, ctrl2: Point, to: Point },
    End { last: Point, first: Point, closed: bool },
}

/// One canonical drawing command of normalized geometry.
#[derive(Clone, Copy, Debug, PartialEq, Eq, Structural)]
pub enum PathCommand {
    MoveTo(Point),
    LineTo(Point),
    QuadTo(Point, Point),
    CubicTo(Point, Point, Point),
    Close,
}

/// The canonical, implicit-move-resolved command sequence of one path.
///
/// A value of this type is never empty and always begins with a
/// [`PathCommand::MoveTo`]; only the translator can build one.
#[derive(Debug)]
pub struct NormalizedGeometry {
    commands: Vec<PathCommand>,
}

impl View for NormalizedGeometry {
    type V = Seq<PathCommand>;

    closed spec fn view(&self) -> Seq<PathCommand> {
        self.commands@
    }
}

impl NormalizedGeometry {
    #[verifier::type_invariant]
    spec fn inv(self) -> bool {
        self.commands@.len() > 0 && self.commands@[0] is MoveTo
    }

    /// Wraps a command sequence that already satisfies the invariant.
    pub(crate) fn from_commands(commands: Vec<PathCommand>) -> (g: Self)
        requires
            commands@.len() > 0,
            commands@[0] is MoveTo,
        ensures
            g@ == commands@,
    {
        NormalizedGeometry { commands }
    }

    /// The commands, in drawing order. Normalized geometry is never empty
    /// and always begins with a move.
    pub fn commands(&self) -> (r: &Vec<PathCommand>)
        ensures
            r@ == self@,
            self@.len() > 0,
            self@[0] is MoveTo,
    {
        proof {
            use_type_invariant(self);
        }
        &self.commands
    }
}

} // verus!
