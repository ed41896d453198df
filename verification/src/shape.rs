//! The pieces a cell can hold.

use crate::random::pick_one;
use vstd::prelude::*;

verus! {

/// The value held by a cell: one of four plain colours or one of four specials.
#[derive(Clone, Copy, PartialEq, Eq, Debug, Structural)]
pub enum Shape {
    Red,
    Blue,
    Green,
    Pink,
    Bomb,
    HorizontalLiner,
    VerticalLiner,
    Eliminator,
}

/// The colour family a piece is drawn with.
#[derive(Clone, Copy, PartialEq, Eq, Debug, Structural)]
pub enum Tint {
    Red,
    Blue,
    Green,
    Pink,
    Gray,
    Yellow,
    Purple,
}

impl Shape {
    /// Whether the piece is a special (never colour-matched).
    pub open spec fn special(self) -> bool {
        self is Bomb || self is HorizontalLiner || self is VerticalLiner || self is Eliminator
    }

    /// The tint of each piece; both liners share one.
    pub open spec fn tint(self) -> Tint {
        match self {
            Shape::Red => Tint::Red,
            Shape::Blue => Tint::Blue,
            Shape::Green => Tint::Green,
            Shape::Pink => Tint::Pink,
            Shape::Bomb => Tint::Gray,
            Shape::HorizontalLiner | Shape::VerticalLiner => Tint::Yellow,
            Shape::Eliminator => Tint::Purple,
        }
    }

    /// The tint the piece is drawn with.
    pub fn color(&self) -> (tint: Tint)
        ensures
            tint == self.tint(),
    {
        match self {
            Shape::Red => Tint::Red,
            Shape::Blue => Tint::Blue,
            Shape::Green => Tint::Green,
            Shape::Pink => Tint::Pink,
            Shape::Bomb => Tint::Gray,
            Shape::HorizontalLiner | Shape::VerticalLiner => Tint::Yellow,
            Shape::Eliminator => Tint::Purple,
        }
    }

    /// Whether the piece is a special.
    pub fn is_special(&self) -> (special: bool)
        ensures
            special == self.special(),
    {
        match self {
            Shape::Bomb | Shape::HorizontalLiner | Shape::VerticalLiner | Shape::Eliminator => true,
            Shape::Red | Shape::Blue | Shape::Green | Shape::Pink => false,
        }
    }
}

/// A plain piece picked at random: red, pink, blue or green.
pub fn get_random_shape() -> (shape: Shape)
    ensures
        !shape.special(),
{
    let colors = plain_shapes();
    shape_of_draw(pick_one(&colors))
}

/// The four plain pieces, in the order in which they are offered to a draw.
pub open spec fn plain_colors() -> Seq<Shape> {
    seq![Shape::Red, Shape::Pink, Shape::Blue, Shape::Green]
}

/// The four plain pieces, in the order in which they are offered to a draw.
pub fn plain_shapes() -> (colors: Vec<Shape>)
    ensures
        colors@ == plain_colors(),
{
    let mut colors: Vec<Shape> = Vec::new();
    colors.push(Shape::Red);
    colors.push(Shape::Pink);
    colors.push(Shape::Blue);
    colors.push(Shape::Green);
    colors
}

/// The piece that a draw gave. A draw among the plain pieces always gives
/// one; where a draw gave nothing, the piece is red.
pub fn shape_of_draw(picked: Option<Shape>) -> (shape: Shape)
    ensures
        shape == match picked {
            Some(color) => color,
            None => Shape::Red,
        },
{
    match picked {
        Some(color) => color,
        None => Shape::Red,
    }
}

} // verus!
