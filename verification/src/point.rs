use vstd::prelude::*;

use crate::coordinate::PositionUnit;
use crate::text::{decimal, push_decimal};

verus! {

/// A point in two dimensional space.
#[derive(Debug, PartialEq, Eq, Clone, Copy, Hash)]
pub struct Point<C> {
    /// The x coordinate.
    pub x: C,
    /// The y coordinate.
    pub y: C,
}

/// The text of a point: `(x,y)` with both coordinates in decimal.
pub open spec fn point_text<C: PositionUnit>(p: Point<C>) -> Seq<char> {
    seq!['('] + decimal(p.x.val()) + seq![','] + decimal(p.y.val()) + seq![')']
}

impl<C: PositionUnit> Point<C> {
    /// Create a new point at a given x and y.
    pub fn new(x: C, y: C) -> (p: Self)
        ensures
            p.x == x,
            p.y == y,
    {
        Point { x, y }
    }

    /// Write the point as `(x,y)`.
    pub fn to_string(&self) -> (s: String)
        ensures
            s@ == point_text(*self),
    {
        let mut s = String::new();
        self.push_text(&mut s);
        s
    }

    /// Append `(x,y)` to `s`.
    pub(crate) fn push_text(&self, s: &mut String)
        ensures
            final(s)@ == old(s)@ + point_text(*self),
    {
        proof {
            reveal_strlit("(");
            reveal_strlit(",");
            reveal_strlit(")");
        }
        s.append("(");
        push_decimal(s, self.x.to_i128());
        s.append(",");
        push_decimal(s, self.y.to_i128());
        s.append(")");
        assert(final(s)@ =~= old(s)@ + point_text(*self));
    }
}

impl<C: PositionUnit> From<(C, C)> for Point<C> {
    fn from(t: (C, C)) -> (p: Self)
        ensures
            p.x == t.0,
            p.y == t.1,
    {
        Point { x: t.0, y: t.1 }
    }
}

impl<C: PositionUnit> vstd::std_specs::convert::FromSpecImpl<(C, C)> for Point<C> {
    open spec fn obeys_from_spec() -> bool {
        true
    }

    open spec fn from_spec(t: (C, C)) -> Self {
        Point { x: t.0, y: t.1 }
    }
}

/// A point made from a tuple takes its x from the tuple's first item and its
/// y from the second, whatever their order.
pub proof fn law_point_from_tuple<C: PositionUnit>(t: (C, C))
    ensures
        <Point<C> as vstd::std_specs::convert::FromSpec<(C, C)>>::from_spec(t).x == t.0,
        <Point<C> as vstd::std_specs::convert::FromSpec<(C, C)>>::from_spec(t).y == t.1,
{
}

} // verus!
