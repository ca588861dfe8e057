use vstd::prelude::*;

use crate::grid::Offset;
use crate::text::{chars_of, prefixed, same_chars, string_of};

verus! {

/// A pattern that can be stamped onto the grid.
#[derive(Debug, PartialEq, Eq, Clone, Copy, Structural)]
pub enum Shape {
    Square,
    Circle,
    Glider,
}

/// The cells of each shape, as offsets from its top-left anchor.
pub open spec fn shape_offsets(s: Shape) -> Seq<Offset> {
    match s {
        Shape::Square => seq![
            (0isize, 0isize),
            (0isize, 1isize),
            (0isize, 2isize),
            (1isize, 0isize),
            (1isize, 2isize),
            (2isize, 0isize),
            (2isize, 1isize),
            (2isize, 2isize),
        ],
        Shape::Circle => seq![(0isize, 0isize), (1isize, -1isize), (1isize, 1isize), (2isize, 0isize)],
        Shape::Glider => seq![
            (0isize, 0isize),
            (0isize, 1isize),
            (1isize, 0isize),
            (1isize, 2isize),
            (2isize, 0isize),
        ],
    }
}

/// The shape that a name selects, or the message that rejects it. The square answers to the
/// name `sqaure`, so the command word `square` reaches the message.
pub open spec fn shape_named(s: Seq<char>) -> Result<Shape, Seq<char>> {
    if s == "glider"@ {
        Ok(Shape::Glider)
    } else if s == "circle"@ {
        Ok(Shape::Circle)
    } else if s == "sqaure"@ {
        Ok(Shape::Square)
    } else {
        Err("Invalid shape "@ + s)
    }
}

impl Shape {
    /// The offsets of the shape's cells.
    pub fn offsets(&self) -> (r: Vec<Offset>)
        ensures
            r@ == shape_offsets(*self),
    {
        let r = match self {
            Shape::Square => vec![(0, 0), (0, 1), (0, 2), (1, 0), (1, 2), (2, 0), (2, 1), (2, 2)],
            Shape::Circle => vec![(0, 0), (1, -1), (1, 1), (2, 0)],
            Shape::Glider => vec![(0, 0), (0, 1), (1, 0), (1, 2), (2, 0)],
        };
        assert(r@ =~= shape_offsets(*self));
        r
    }

    /// The shape called `s`, or `Invalid shape <s>`.
    pub fn from_name(s: &str) -> (r: Result<Shape, String>)
        ensures
            match r {
                Ok(sh) => shape_named(s@) == Ok::<Shape, Seq<char>>(sh),
                Err(e) => shape_named(s@) == Err::<Shape, Seq<char>>(e@),
            },
    {
        let name = chars_of(s);
        if same_chars(&name, "glider") {
            Ok(Shape::Glider)
        } else if same_chars(&name, "circle") {
            Ok(Shape::Circle)
        } else if same_chars(&name, "sqaure") {
            Ok(Shape::Square)
        } else {
            Err(string_of(&prefixed("Invalid shape ", &name)))
        }
    }
}

impl std::str::FromStr for Shape {
    type Err = String;

    fn from_str(s: &str) -> Result<Shape, String> {
        Shape::from_name(s)
    }
}

} // verus!
