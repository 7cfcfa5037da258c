use vstd::prelude::*;

verus! {

/// One tile of the game: a shape paired with a color.
#[derive(Debug, Clone, Copy, PartialEq, Eq, Structural)]
pub struct Piece {
    shape: Shape,
    color: Color,
}

#[derive(Debug, Clone, Copy, PartialEq, Eq, Structural)]
pub enum Shape {
    Circle,
    Star4,
    Diamond,
    Square,
    Star8,
    Clover,
}

#[derive(Debug, Clone, Copy, PartialEq, Eq, Structural)]
pub enum Color {
    Red,
    Orange,
    Yellow,
    Green,
    Blue,
    Purple,
}

/// How a neighbor relates to a piece: same shape with another color, or
/// same color with another shape.
#[derive(Debug, Clone, Copy, PartialEq, Eq, Structural)]
pub enum MatchKind {
    Shape,
    Color,
}

/// The piece behind an optional reference.
pub open spec fn copied(o: Option<&Piece>) -> Option<Piece> {
    match o {
        Some(p) => Some(*p),
        None => None,
    }
}

impl Piece {
    /// The piece with the given shape and color.
    pub closed spec fn spec_new(shape: Shape, color: Color) -> Piece {
        Piece { shape, color }
    }

    pub closed spec fn spec_shape(self) -> Shape {
        self.shape
    }

    pub closed spec fn spec_color(self) -> Color {
        self.color
    }

    /// The match kind of `other` seen from `self`, or `None` when the two
    /// pieces share both attributes or neither.
    pub open spec fn kind_of(self, other: Piece) -> Option<MatchKind> {
        let same_shape = other.spec_shape() == self.spec_shape();
        let same_color = other.spec_color() == self.spec_color();
        if same_shape && !same_color {
            Some(MatchKind::Shape)
        } else if !same_shape && same_color {
            Some(MatchKind::Color)
        } else {
            None
        }
    }

    /// An absent neighbor, or a present one that matches on exactly one attribute.
    pub open spec fn accepts(self, n: Option<Piece>) -> bool {
        match n {
            Some(p) => self.kind_of(p) is Some,
            None => true,
        }
    }

    /// Two opposite neighbors that are both present match `self` in the same way.
    pub open spec fn agree(self, a: Option<Piece>, b: Option<Piece>) -> bool {
        (a is Some && b is Some) ==> self.kind_of(a.unwrap()) == self.kind_of(b.unwrap())
    }

    /// The placement rule for `self` between the given neighbors.
    pub open spec fn spec_fits(
        self,
        up: Option<Piece>,
        down: Option<Piece>,
        left: Option<Piece>,
        right: Option<Piece>,
    ) -> bool {
        &&& self.accepts(up)
        &&& self.accepts(down)
        &&& self.accepts(left)
        &&& self.accepts(right)
        &&& !(up is None && down is None && left is None && right is None)
        &&& self.agree(up, down)
        &&& self.agree(left, right)
    }

    pub fn new(shape: Shape, color: Color) -> (r: Self)
        ensures
            r == Piece::spec_new(shape, color),
            r.spec_shape() == shape,
            r.spec_color() == color,
    {
        Self { shape, color }
    }

    pub fn shape(&self) -> (r: Shape)
        ensures
            r == self.spec_shape(),
    {
        self.shape
    }

    pub fn color(&self) -> (r: Color)
        ensures
            r == self.spec_color(),
    {
        self.color
    }

    fn kind_toward(&self, other: &Piece) -> (r: Option<MatchKind>)
        ensures
            r == self.kind_of(*other),
    {
        match (other.shape == self.shape, other.color == self.color) {
            (true, false) => Some(MatchKind::Shape),
            (false, true) => Some(MatchKind::Color),
            _ => None,
        }
    }

    /// Whether this piece may be placed between the given neighbors: every
    /// present neighbor matches it on exactly one attribute, at least one
    /// neighbor is present, and opposite neighbors match it the same way.
    pub fn fits(
        &self,
        up: Option<&Self>,
        down: Option<&Self>,
        left: Option<&Self>,
        right: Option<&Self>,
    ) -> (r: bool)
        ensures
            r == self.spec_fits(
                copied(up),
                copied(down),
                copied(left),
                copied(right),
            ),
    {
        let up_kind = match up {
            Some(p) => match self.kind_toward(p) {
                Some(k) => Some(k),
                None => return false,
            },
            None => None,
        };
        let down_kind = match down {
            Some(p) => match self.kind_toward(p) {
                Some(k) => Some(k),
                None => return false,
            },
            None => None,
        };
        let left_kind = match left {
            Some(p) => match self.kind_toward(p) {
                Some(k) => Some(k),
                None => return false,
            },
            None => None,
        };
        let right_kind = match right {
            Some(p) => match self.kind_toward(p) {
                Some(k) => Some(k),
                None => return false,
            },
            None => None,
        };
        if up_kind.is_none() && down_kind.is_none() && left_kind.is_none() && right_kind.is_none() {
            return false;
        }
        if let (Some(u), Some(d)) = (up_kind, down_kind) {
            if u != d {
                return false;
            }
        }
        if let (Some(l), Some(r)) = (left_kind, right_kind) {
            if l != r {
                return false;
            }
        }
        true
    }
}

} // verus!
