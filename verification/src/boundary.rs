use vstd::prelude::*;

use crate::coordinate::{half, PositionUnit};
use crate::point::{point_text, Point};

verus! {

/// A rectangular area, from its top left corner `p1` to its bottom right
/// corner `p2`, borders included.
#[derive(Debug, Clone, Copy, PartialEq, Eq)]
pub struct Boundary<C> {
    /// The top left corner.
    pub p1: Point<C>,
    /// The bottom right corner.
    pub p2: Point<C>,
}

/// `p` lies inside `b` or on its border.
pub open spec fn in_area<C: PositionUnit>(b: Boundary<C>, p: Point<C>) -> bool {
    &&& b.p1.x.val() <= p.x.val() <= b.p2.x.val()
    &&& b.p1.y.val() <= p.y.val() <= b.p2.y.val()
}

/// `a` and `b` share at least their borders (compared corner by corner).
pub open spec fn areas_overlap<C: PositionUnit>(a: Boundary<C>, b: Boundary<C>) -> bool {
    !(b.p2.x.val() < a.p1.x.val() || b.p1.x.val() > a.p2.x.val() || b.p2.y.val() < a.p1.y.val()
        || b.p1.y.val() > a.p2.y.val())
}

/// The corners of `b` lie within `a`.
pub open spec fn area_encloses<C: PositionUnit>(a: Boundary<C>, b: Boundary<C>) -> bool {
    &&& a.p1.x.val() <= b.p1.x.val()
    &&& b.p2.x.val() <= a.p2.x.val()
    &&& a.p1.y.val() <= b.p1.y.val()
    &&& b.p2.y.val() <= a.p2.y.val()
}

/// The x coordinate at which `b` is split into a left and a right half.
pub open spec fn mid_x<C: PositionUnit>(b: Boundary<C>) -> int {
    b.p1.x.val() + half(b.p2.x.val() - b.p1.x.val())
}

/// The y coordinate at which `b` is split into a top and a bottom half.
pub open spec fn mid_y<C: PositionUnit>(b: Boundary<C>) -> int {
    b.p1.y.val() + half(b.p2.y.val() - b.p1.y.val())
}

/// `q` is quadrant `i` of `b`: quadrant 0 is the top left, 1 the top right,
/// 2 the bottom left and 3 the bottom right one. The quadrants meet at the
/// point (`mid_x(b)`, `mid_y(b)`) and together reach every corner of `b`.
pub open spec fn is_quadrant<C: PositionUnit>(b: Boundary<C>, i: int, q: Boundary<C>) -> bool {
    let right = i == 1 || i == 3;
    let bottom = i == 2 || i == 3;
    &&& q.p1.x.val() == (if right { mid_x(b) } else { b.p1.x.val() })
    &&& q.p2.x.val() == (if right { b.p2.x.val() } else { mid_x(b) })
    &&& q.p1.y.val() == (if bottom { mid_y(b) } else { b.p1.y.val() })
    &&& q.p2.y.val() == (if bottom { b.p2.y.val() } else { mid_y(b) })
}

/// The text of a boundary: its two corners, `(x1,y1),(x2,y2)`.
pub open spec fn boundary_text<C: PositionUnit>(b: Boundary<C>) -> Seq<char> {
    point_text(b.p1) + seq![','] + point_text(b.p2)
}

impl<C: PositionUnit> Boundary<C> {
    /// Create a boundary from its top left corner, a width and a height.
    pub fn new(p1: Point<C>, width: C, height: C) -> (b: Self)
        requires
            C::lowest() <= p1.x.val() + width.val() <= C::highest(),
            C::lowest() <= p1.y.val() + height.val() <= C::highest(),
        ensures
            b.p1 == p1,
            b.p2.x.val() == p1.x.val() + width.val(),
            b.p2.y.val() == p1.y.val() + height.val(),
    {
        let p2 = Point { x: p1.x.add(width), y: p1.y.add(height) };
        Boundary { p1, p2 }
    }

    /// Create the boundary between two points: `p1` is its top left corner
    /// and `p2` its bottom right one.
    pub fn between_points(p1: Point<C>, p2: Point<C>) -> (b: Self)
        ensures
            b.p1 == p1,
            b.p2 == p2,
    {
        Boundary { p1, p2 }
    }

    /// Split the boundary into its four quadrants: top left, top right,
    /// bottom left and bottom right.
    pub fn split(&self) -> (r: [Boundary<C>; 4])
        ensures
            forall|i: int| 0 <= i < 4 ==> is_quadrant(*self, i, #[trigger] r[i]),
    {
        let mx = C::midpoint(self.p1.x, self.p2.x);
        let my = C::midpoint(self.p1.y, self.p2.y);
        let mid = Point { x: mx, y: my };
        let b0 = Boundary { p1: self.p1, p2: mid };
        let b1 = Boundary { p1: Point { x: mx, y: self.p1.y }, p2: Point { x: self.p2.x, y: my } };
        let b2 = Boundary { p1: Point { x: self.p1.x, y: my }, p2: Point { x: mx, y: self.p2.y } };
        let b3 = Boundary { p1: mid, p2: self.p2 };
        let r = [b0, b1, b2, b3];
        assert(is_quadrant(*self, 0, r[0]));
        assert(is_quadrant(*self, 1, r[1]));
        assert(is_quadrant(*self, 2, r[2]));
        assert(is_quadrant(*self, 3, r[3]));
        r
    }

    /// Whether `point` lies inside the boundary or on its border.
    pub fn contains(&self, point: &Point<C>) -> (r: bool)
        ensures
            r == in_area(*self, *point),
    {
        !(point.x.less_than(self.p1.x) || self.p2.x.less_than(point.x) || point.y.less_than(
            self.p1.y,
        ) || self.p2.y.less_than(point.y))
    }

    /// Whether `other` overlaps this boundary, borders included.
    pub fn overlaps(&self, other: &Boundary<C>) -> (r: bool)
        ensures
            r == areas_overlap(*self, *other),
    {
        !(other.p2.x.less_than(self.p1.x) || self.p2.x.less_than(other.p1.x)
            || other.p2.y.less_than(self.p1.y) || self.p2.y.less_than(other.p1.y))
    }

    /// Whether the corners of `other` lie within this boundary.
    pub fn encloses(&self, other: &Boundary<C>) -> (r: bool)
        ensures
            r == area_encloses(*self, *other),
    {
        !(other.p1.x.less_than(self.p1.x) || self.p2.x.less_than(other.p2.x)
            || other.p1.y.less_than(self.p1.y) || self.p2.y.less_than(other.p2.y))
    }

    /// Write the boundary as `(x1,y1),(x2,y2)`.
    pub fn to_string(&self) -> (s: String)
        ensures
            s@ == boundary_text(*self),
    {
        let mut s = String::new();
        self.push_text(&mut s);
        s
    }

    /// Append `(x1,y1),(x2,y2)` to `s`.
    pub(crate) fn push_text(&self, s: &mut String)
        ensures
            final(s)@ == old(s)@ + boundary_text(*self),
    {
        proof {
            reveal_strlit(",");
        }
        self.p1.push_text(s);
        s.append(",");
        self.p2.push_text(s);
        assert(final(s)@ =~= old(s)@ + boundary_text(*self));
    }
}

/// A point inside two boundaries shows that they overlap.
pub proof fn lemma_common_point_overlaps<C: PositionUnit>(a: Boundary<C>, b: Boundary<C>, p: Point<C>)
    requires
        in_area(a, p),
        in_area(b, p),
    ensures
        areas_overlap(a, b),
{
}

/// A point inside an enclosed boundary lies inside the enclosing one.
pub proof fn lemma_enclosed_point<C: PositionUnit>(a: Boundary<C>, b: Boundary<C>, p: Point<C>)
    requires
        area_encloses(a, b),
        in_area(b, p),
    ensures
        in_area(a, p),
{
}

/// The index of the quadrant of `b` to which a point goes: 1 is added when
/// `p` lies right of the vertical cut, 2 when it lies below the horizontal one.
pub open spec fn route_index<C: PositionUnit>(b: Boundary<C>, p: Point<C>) -> int {
    (if mid_y(b) < p.y.val() { 2int } else { 0int }) + (if mid_x(b) < p.x.val() { 1int } else { 0int })
}

/// The quadrants cover their area: a point of `b` lies in the quadrant to
/// which it is routed.
pub proof fn lemma_routed_quadrant_contains<C: PositionUnit>(b: Boundary<C>, q: Boundary<C>, p: Point<C>)
    requires
        in_area(b, p),
        is_quadrant(b, route_index(b, p), q),
    ensures
        in_area(q, p),
{
}

/// For an area whose width and height are not negative, each quadrant lies
/// within the area.
pub proof fn lemma_quadrant_inside<C: PositionUnit>(b: Boundary<C>, i: int, q: Boundary<C>)
    requires
        is_quadrant(b, i, q),
        b.p1.x.val() <= b.p2.x.val(),
        b.p1.y.val() <= b.p2.y.val(),
    ensures
        area_encloses(b, q),
{
}

/// Quadrant `i` of an area is one boundary.
pub proof fn lemma_quadrant_unique<C: PositionUnit>(b: Boundary<C>, i: int, q: Boundary<C>, r: Boundary<C>)
    requires
        is_quadrant(b, i, q),
        is_quadrant(b, i, r),
    ensures
        q == r,
{
    q.p1.x.lemma_val(r.p1.x);
    q.p1.y.lemma_val(r.p1.y);
    q.p2.x.lemma_val(r.p2.x);
    q.p2.y.lemma_val(r.p2.y);
}

/// Splitting halves an area: for an area whose width is not negative, the
/// left and right quadrants share the width, the left one taking half of it
/// rounded down and the right one the rest, so their widths differ by at
/// most one; likewise the top and bottom quadrants share the height. The
/// quadrants on one side line up with the area's edges on that side.
pub proof fn law_split_halves<C: PositionUnit>(
    b: Boundary<C>,
    q0: Boundary<C>,
    q1: Boundary<C>,
    q2: Boundary<C>,
    q3: Boundary<C>,
)
    requires
        is_quadrant(b, 0, q0),
        is_quadrant(b, 1, q1),
        is_quadrant(b, 2, q2),
        is_quadrant(b, 3, q3),
    ensures
        ({
            let w = b.p2.x.val() - b.p1.x.val();
            let left = q0.p2.x.val() - q0.p1.x.val();
            let right = q1.p2.x.val() - q1.p1.x.val();
            w >= 0 ==> {
                &&& left + right == w
                &&& 2 * left == w || 2 * left + 1 == w
                &&& left <= right <= left + 1
            }
        }),
        ({
            let h = b.p2.y.val() - b.p1.y.val();
            let top = q0.p2.y.val() - q0.p1.y.val();
            let bottom = q2.p2.y.val() - q2.p1.y.val();
            h >= 0 ==> {
                &&& top + bottom == h
                &&& 2 * top == h || 2 * top + 1 == h
                &&& top <= bottom <= top + 1
            }
        }),
        q0.p1 == b.p1,
        q3.p2 == b.p2,
        q1.p1.x == q0.p2.x && q3.p1.x == q2.p2.x && q2.p1.y == q0.p2.y && q3.p1.y == q1.p2.y,
        q1.p2.x.val() == b.p2.x.val() && q3.p1.x.val() == q1.p1.x.val(),
        q2.p2.y.val() == b.p2.y.val() && q3.p1.y.val() == q2.p1.y.val(),
{
    q0.p1.x.lemma_val(b.p1.x);
    q0.p1.y.lemma_val(b.p1.y);
    q3.p2.x.lemma_val(b.p2.x);
    q3.p2.y.lemma_val(b.p2.y);
    q1.p1.x.lemma_val(q0.p2.x);
    q3.p1.x.lemma_val(q2.p2.x);
    q2.p1.y.lemma_val(q0.p2.y);
    q3.p1.y.lemma_val(q1.p2.y);
}

} // verus!
