use vstd::prelude::*;

use crate::boundary::{
    boundary_text, in_area, is_quadrant, lemma_quadrant_unique, route_index, Boundary,
};
use crate::capacity::{Capacity, ConstCap, DynCap};
use crate::coordinate::PositionUnit;
use crate::point::{point_text, Point};
use vstd::multiset::Multiset;

pub mod iter;
pub mod query;

verus! {

broadcast use {vstd::seq_lib::lemma_multiset_commutative, vstd::seq_lib::to_multiset_build};

/// A quad tree over the area `boundary`.
///
/// Each level holds up to `capacity` items with their points; once a level
/// is full, further items go to one of its four quadrants.
///
/// `C` is the coordinate type, `Item` the type of the stored items and
/// `Cap` says how the capacity of each level is given.
#[derive(Debug, PartialEq, Eq)]
pub struct QuadTree<C, Item, Cap = DynCap> {
    boundary: Boundary<C>,
    quadrants: Option<Box<Quadrants<C, Item, Cap>>>,
    items: Option<Vec<(Point<C>, Item)>>,
    capacity: Cap,
}

/// The four quadrants of a level: top left, top right, bottom left and
/// bottom right.
#[derive(Debug, PartialEq, Eq)]
struct Quadrants<C, Item, Cap> {
    q0: QuadTree<C, Item, Cap>,
    q1: QuadTree<C, Item, Cap>,
    q2: QuadTree<C, Item, Cap>,
    q3: QuadTree<C, Item, Cap>,
}

/// Possible errors.
#[derive(Debug, PartialEq, Eq, Clone)]
pub enum QuadTreeError<C> {
    /// The point lies outside of the boundary.
    OutOfBounds(Boundary<C>, Point<C>),
}

/// This trait allows a type to be used with `QuadTree::insert`.
pub trait AsPoint<C> {
    /// The position of the item.
    fn as_point(&self) -> Point<C>;
}

impl<C: PositionUnit, Item, Cap: Capacity> QuadTree<C, Item, Cap> {
    /// The area covered by this level.
    pub closed spec fn area(self) -> Boundary<C> {
        self.boundary
    }

    /// The capacity of each level.
    pub closed spec fn level_cap(self) -> nat {
        self.capacity.cap()
    }

    /// The value that gives the capacity of each level.
    pub closed spec fn capacity_value(self) -> Cap {
        self.capacity
    }

    /// The items kept at this level, with their points, in insertion order.
    pub closed spec fn level_items(self) -> Seq<(Point<C>, Item)> {
        match self.items {
            Some(v) => v@,
            None => Seq::empty(),
        }
    }

    /// Whether this level has a list of items: it gets one with its first item.
    pub closed spec fn has_item_list(self) -> bool {
        self.items is Some
    }

    /// Whether this level has been split into quadrants.
    pub closed spec fn is_split(self) -> bool {
        self.quadrants is Some
    }

    /// Quadrant `i` of this level (meaningful when the level is split).
    pub closed spec fn quadrant_at(self, i: int) -> Self {
        let q = self.quadrants->0;
        if i == 0 {
            q.q0
        } else if i == 1 {
            q.q1
        } else if i == 2 {
            q.q2
        } else {
            q.q3
        }
    }

    /// The number of levels below this one.
    pub closed spec fn height(self) -> nat
        decreases self,
    {
        match self.quadrants {
            None => 0,
            Some(q) => {
                let h0 = q.q0.height();
                let h1 = q.q1.height();
                let h2 = q.q2.height();
                let h3 = q.q3.height();
                let a = if h0 > h1 { h0 } else { h1 };
                let b = if h2 > h3 { h2 } else { h3 };
                1 + if a > b { a } else { b }
            },
        }
    }

    /// Every item of the tree with its point: the items of a level come
    /// before those of its quadrants, and the quadrants in the order
    /// top left, top right, bottom left, bottom right.
    pub closed spec fn elements(self) -> Seq<(Point<C>, Item)>
        decreases self,
    {
        self.level_items() + match self.quadrants {
            None => Seq::empty(),
            Some(q) => q.q0.elements() + q.q1.elements() + q.q2.elements() + q.q3.elements(),
        }
    }

    /// Every item of the tree with its point, in the order in which a query
    /// visits them: the quadrants of a level, in order, before the level's
    /// own items.
    pub closed spec fn query_order(self) -> Seq<(Point<C>, Item)>
        decreases self,
    {
        let quads = match self.quadrants {
            None => Seq::empty(),
            Some(q) => q.q0.query_order() + q.q1.query_order() + q.q2.query_order()
                + q.q3.query_order(),
        };
        quads + self.level_items()
    }

    /// Each subtree holds only items whose points lie in the area of its top
    /// level.
    pub closed spec fn placed(self) -> bool
        decreases self,
    {
        &&& forall|i: int|
            0 <= i < self.query_order().len() ==> in_area(
                self.boundary,
                (#[trigger] self.query_order()[i]).0,
            )
        &&& match self.quadrants {
            None => true,
            Some(q) => q.q0.placed() && q.q1.placed() && q.q2.placed() && q.q3.placed(),
        }
    }

    /// The shape that the tree keeps: no level holds more than the capacity,
    /// a level has a list of items only once it holds an item, a level is
    /// split only once it is full, and each quadrant covers its part of the
    /// level's area (see `is_quadrant`) and has the same capacity.
    pub closed spec fn wf(self) -> bool
        decreases self,
    {
        &&& self.level_items().len() <= self.capacity.cap()
        &&& self.items is Some ==> self.level_items().len() > 0
        &&& match self.quadrants {
            None => true,
            Some(q) => {
                &&& self.level_items().len() == self.capacity.cap()
                &&& q.q0.capacity == self.capacity
                &&& q.q1.capacity == self.capacity
                &&& q.q2.capacity == self.capacity
                &&& q.q3.capacity == self.capacity
                &&& is_quadrant(self.boundary, 0, q.q0.boundary)
                &&& is_quadrant(self.boundary, 1, q.q1.boundary)
                &&& is_quadrant(self.boundary, 2, q.q2.boundary)
                &&& is_quadrant(self.boundary, 3, q.q3.boundary)
                &&& q.q0.wf()
                &&& q.q1.wf()
                &&& q.q2.wf()
                &&& q.q3.wf()
            },
        }
    }

    /// `c` is the fresh quadrant `i` of `self` made when `self` splits while
    /// an item is inserted at `p`: it covers quadrant `i` of the area, has
    /// the same capacity, no quadrants, and holds `(p, v)` when `i` is the
    /// quadrant to which `p` is routed, nothing otherwise.
    pub closed spec fn fresh_quadrant(self, c: Self, i: int, p: Point<C>, v: Item) -> bool {
        &&& is_quadrant(self.boundary, i, c.boundary)
        &&& c.capacity == self.capacity
        &&& c.quadrants is None
        &&& if i == route_index(self.boundary, p) {
            c.items is Some && c.level_items() == seq![(p, v)]
        } else {
            c.items is None
        }
    }

    /// `new` is `self` after `(p, v)` was inserted without a bounds check:
    /// the item joins the first level on its way down that is not full,
    /// going from a full level to the quadrant given by `route_index`, and a
    /// full level without quadrants is first split into four.
    pub closed spec fn inserted(self, new: Self, p: Point<C>, v: Item) -> bool
        decreases self,
    {
        &&& new.boundary == self.boundary
        &&& new.capacity == self.capacity
        &&& if self.level_items().len() < self.capacity.cap() {
            &&& new.items is Some
            &&& new.level_items() == self.level_items().push((p, v))
            &&& new.quadrants == self.quadrants
        } else {
            &&& new.items == self.items
            &&& match new.quadrants {
                None => false,
                Some(nq) => {
                    let k = route_index(self.boundary, p);
                    match self.quadrants {
                        Some(oq) => {
                            &&& if k == 0 { oq.q0.inserted(nq.q0, p, v) } else { nq.q0 == oq.q0 }
                            &&& if k == 1 { oq.q1.inserted(nq.q1, p, v) } else { nq.q1 == oq.q1 }
                            &&& if k == 2 { oq.q2.inserted(nq.q2, p, v) } else { nq.q2 == oq.q2 }
                            &&& if k == 3 { oq.q3.inserted(nq.q3, p, v) } else { nq.q3 == oq.q3 }
                        },
                        None => {
                            &&& self.fresh_quadrant(nq.q0, 0, p, v)
                            &&& self.fresh_quadrant(nq.q1, 1, p, v)
                            &&& self.fresh_quadrant(nq.q2, 2, p, v)
                            &&& self.fresh_quadrant(nq.q3, 3, p, v)
                        },
                    }
                },
            }
        }
    }

    /// Create a new quad tree for a given area where each level of the tree
    /// has a given capacity.
    pub fn new_with_capacity(boundary: Boundary<C>, capacity: Cap) -> (t: Self)
        ensures
            t.wf(),
            t.area() == boundary,
            t.level_cap() == capacity.cap(),
            t.capacity_value() == capacity,
            !t.has_item_list(),
            !t.is_split(),
            t.level_items() == Seq::<(Point<C>, Item)>::empty(),
            t.elements() == Seq::<(Point<C>, Item)>::empty(),
            t.placed(),
    {
        let t = QuadTree { boundary, quadrants: None, items: None, capacity };
        assert(t.elements() =~= Seq::<(Point<C>, Item)>::empty());
        assert(t.query_order() =~= Seq::<(Point<C>, Item)>::empty());
        t
    }

    /// Same as `insert_at` except that no bounds check is performed.
    pub fn insert_at_unchecked(&mut self, point: Point<C>, value: Item)
        requires
            old(self).wf(),
            old(self).level_cap() > 0,
        ensures
            final(self).wf(),
            final(self).area() == old(self).area(),
            final(self).level_cap() == old(self).level_cap(),
            old(self).inserted(*final(self), point, value),
            final(self).elements().to_multiset() == old(self).elements().to_multiset().insert(
                (point, value),
            ),
        decreases old(self).height(), if old(self).level_items().len() < old(self).level_cap() {
            0nat
        } else {
            1nat
        },
    {
        let cap = self.capacity.capacity();
        let len = match &self.items {
            Some(v) => v.len(),
            None => 0,
        };
        if len < cap {
            let mut v = match self.items.take() {
                Some(v) => v,
                None => Vec::with_capacity(cap),
            };
            v.push((point, value));
            self.items = Some(v);
            proof {
                self.lemma_inserted_elements(*old(self), point, value);
            }
            return ;
        }
        let mut quads: Quadrants<C, Item, Cap> = match self.quadrants.take() {
            Some(q) => *q,
            None => {
                let bs = self.boundary.split();
                Quadrants {
                    q0: QuadTree::new_with_capacity(bs[0], self.capacity),
                    q1: QuadTree::new_with_capacity(bs[1], self.capacity),
                    q2: QuadTree::new_with_capacity(bs[2], self.capacity),
                    q3: QuadTree::new_with_capacity(bs[3], self.capacity),
                }
            },
        };
        let is_in_right_half = quads.q0.boundary.p2.x.less_than(point.x);
        let is_in_bottom_half = quads.q0.boundary.p2.y.less_than(point.y);
        if !is_in_bottom_half && !is_in_right_half {
            quads.q0.insert_at_unchecked(point, value);
        } else if !is_in_bottom_half {
            quads.q1.insert_at_unchecked(point, value);
        } else if !is_in_right_half {
            quads.q2.insert_at_unchecked(point, value);
        } else {
            quads.q3.insert_at_unchecked(point, value);
        }
        self.quadrants = Some(Box::new(quads));
        proof {
            if old(self).quadrants is None {
                assert(Seq::<(Point<C>, Item)>::empty().push((point, value)) =~= seq![(point, value)]);
            }
            self.lemma_inserted_elements(*old(self), point, value);
        }
    }

    /// An insertion adds exactly the one item to the tree.
    pub proof fn lemma_inserted_elements(self, old: Self, p: Point<C>, v: Item)
        requires
            old.inserted(self, p, v),
        ensures
            self.elements().to_multiset() == old.elements().to_multiset().insert((p, v)),
        decreases old,
    {
        let x = (p, v);
        let ne = self.elements();
        let oe = old.elements();
        if old.level_items().len() < old.capacity.cap() {
            let rest = match old.quadrants {
                None => Seq::empty(),
                Some(q) => q.q0.elements() + q.q1.elements() + q.q2.elements() + q.q3.elements(),
            };
            assert(ne == old.level_items().push(x) + rest);
            assert(oe == old.level_items() + rest);
            assert(ne.to_multiset() =~= oe.to_multiset().insert(x));
        } else {
            let nq = self.quadrants->0;
            let k = route_index(old.boundary, p);
            match old.quadrants {
                Some(oq) => {
                    if k == 0 {
                        self.quadrants->0.q0.lemma_inserted_elements(oq.q0, p, v);
                    } else if k == 1 {
                        self.quadrants->0.q1.lemma_inserted_elements(oq.q1, p, v);
                    } else if k == 2 {
                        self.quadrants->0.q2.lemma_inserted_elements(oq.q2, p, v);
                    } else {
                        self.quadrants->0.q3.lemma_inserted_elements(oq.q3, p, v);
                    }
                    assert(ne == old.level_items() + (nq.q0.elements() + nq.q1.elements()
                        + nq.q2.elements() + nq.q3.elements()));
                    assert(oe == old.level_items() + (oq.q0.elements() + oq.q1.elements()
                        + oq.q2.elements() + oq.q3.elements()));
                    assert(ne.to_multiset() =~= oe.to_multiset().insert(x));
                },
                None => {
                    let e0 = nq.q0.elements();
                    let e1 = nq.q1.elements();
                    let e2 = nq.q2.elements();
                    let e3 = nq.q3.elements();
                    assert(e0 =~= nq.q0.level_items());
                    assert(e1 =~= nq.q1.level_items());
                    assert(e2 =~= nq.q2.level_items());
                    assert(e3 =~= nq.q3.level_items());
                    assert(oe =~= old.level_items());
                    assert(ne == old.level_items() + (e0 + e1 + e2 + e3));
                    assert((e0 + e1 + e2 + e3).to_multiset() =~= Multiset::empty().insert(x));
                    assert(ne.to_multiset() =~= oe.to_multiset().insert(x));
                },
            }
        }
    }
}

impl<C: PositionUnit> QuadTreeError<C> {
    /// The message of the error: `point (x,y) is outside of area (x1,y1),(x2,y2)`.
    pub fn to_string(&self) -> (s: String)
        ensures
            s@ == error_text(*self),
    {
        proof {
            reveal_strlit("point ");
            reveal_strlit(" is outside of area ");
        }
        match self {
            QuadTreeError::OutOfBounds(boundary, point) => {
                let mut s = String::from_str("point ");
                point.push_text(&mut s);
                s.append(" is outside of area ");
                boundary.push_text(&mut s);
                s
            },
        }
    }
}

/// The message of an error.
pub open spec fn error_text<C: PositionUnit>(e: QuadTreeError<C>) -> Seq<char> {
    match e {
        QuadTreeError::OutOfBounds(b, p) => "point "@ + point_text(p) + " is outside of area "@
            + boundary_text(b),
    }
}

/// What `insert_at` does: it inserts `(p, v)` when `p` lies inside the area of
/// the tree, and otherwise leaves the tree as it is and returns the error
/// `OutOfBounds` with the tree's area and `p`.
pub open spec fn insert_at_outcome<C: PositionUnit, Item, Cap: Capacity>(
    old: QuadTree<C, Item, Cap>,
    new: QuadTree<C, Item, Cap>,
    p: Point<C>,
    v: Item,
    r: Result<(), QuadTreeError<C>>,
) -> bool {
    match r {
        Ok(()) => in_area(old.area(), p) && old.inserted(new, p, v),
        Err(e) => !in_area(old.area(), p) && e == QuadTreeError::OutOfBounds(old.area(), p) && new
            == old,
    }
}

impl<C: PositionUnit, Item, Cap: Capacity> QuadTree<C, Item, Cap> {
    /// Insert a new item at a point of the tree's area.
    ///
    /// # Errors
    /// Returns `OutOfBounds` if the point lies outside of the tree's area.
    pub fn insert_at(&mut self, point: Point<C>, value: Item) -> (r: Result<(), QuadTreeError<C>>)
        requires
            old(self).wf(),
            in_area(old(self).area(), point) ==> old(self).level_cap() > 0,
        ensures
            final(self).wf(),
            final(self).area() == old(self).area(),
            final(self).level_cap() == old(self).level_cap(),
            insert_at_outcome(*old(self), *final(self), point, value, r),
            r is Ok ==> final(self).elements().to_multiset() == old(
                self,
            ).elements().to_multiset().insert((point, value)),
            old(self).placed() ==> final(self).placed(),
    {
        if !self.boundary.contains(&point) {
            return Err(QuadTreeError::OutOfBounds(self.boundary, point));
        }
        self.insert_at_unchecked(point, value);
        proof {
            if old(self).placed() {
                old(self).lemma_insert_keeps_placed(*self, point, value);
            }
        }
        Ok(())
    }

    /// Returns the boundary of the tree.
    pub fn boundary(&self) -> (b: &Boundary<C>)
        ensures
            *b == self.area(),
    {
        &self.boundary
    }

    /// Returns the capacity of each level.
    pub fn capacity(&self) -> (c: usize)
        ensures
            c == self.level_cap(),
    {
        self.capacity.capacity()
    }

    /// The items kept at this level, with their points, if any was ever put here.
    pub fn items(&self) -> (r: Option<&Vec<(Point<C>, Item)>>)
        ensures
            r is Some <==> self.has_item_list(),
            r is Some ==> r->0@ == self.level_items(),
            r is None ==> self.level_items() == Seq::<(Point<C>, Item)>::empty(),
    {
        self.items.as_ref()
    }

    /// Quadrant `i` of this level (0 top left, 1 top right, 2 bottom left,
    /// 3 bottom right), if the level has been split.
    pub fn quadrant(&self, i: usize) -> (r: Option<&QuadTree<C, Item, Cap>>)
        ensures
            r is Some <==> (self.is_split() && i < 4),
            r is Some ==> *r->0 == self.quadrant_at(i as int),
    {
        match &self.quadrants {
            None => None,
            Some(q) => {
                if i == 0 {
                    Some(&q.q0)
                } else if i == 1 {
                    Some(&q.q1)
                } else if i == 2 {
                    Some(&q.q2)
                } else if i == 3 {
                    Some(&q.q3)
                } else {
                    None
                }
            },
        }
    }
}

impl<C: PositionUnit, Item: AsPoint<C>, Cap: Capacity> QuadTree<C, Item, Cap> {
    /// Insert a new item at the point that the item gives.
    ///
    /// # Errors
    /// Returns `OutOfBounds` if the item's point lies outside of the tree's area.
    pub fn insert(&mut self, item: Item) -> (r: Result<(), QuadTreeError<C>>)
        requires
            old(self).wf(),
            forall|p: Point<C>|
                call_ensures(Item::as_point, (&item,), p) && in_area(old(self).area(), p)
                    ==> old(self).level_cap() > 0,
        ensures
            final(self).wf(),
            final(self).area() == old(self).area(),
            final(self).level_cap() == old(self).level_cap(),
            exists|p: Point<C>|
                call_ensures(Item::as_point, (&item,), p) && insert_at_outcome(
                    *old(self),
                    *final(self),
                    p,
                    item,
                    r,
                ),
            r is Ok ==> exists|p: Point<C>|
                call_ensures(Item::as_point, (&item,), p) && final(self).elements().to_multiset()
                    == old(self).elements().to_multiset().insert((p, item)),
            old(self).placed() ==> final(self).placed(),
    {
        let p = item.as_point();
        self.insert_at(p, item)
    }

    /// Same as `insert` except that no bounds check is performed.
    pub fn insert_unchecked(&mut self, item: Item)
        requires
            old(self).wf(),
            old(self).level_cap() > 0,
        ensures
            final(self).wf(),
            final(self).area() == old(self).area(),
            final(self).level_cap() == old(self).level_cap(),
            exists|p: Point<C>|
                call_ensures(Item::as_point, (&item,), p) && old(self).inserted(
                    *final(self),
                    p,
                    item,
                ) && final(self).elements().to_multiset() == old(
                    self,
                ).elements().to_multiset().insert((p, item)),
    {
        let p = item.as_point();
        self.insert_at_unchecked(p, item)
    }
}

impl<C: PositionUnit, Item> QuadTree<C, Item, DynCap> {
    /// Create a new quad tree whose levels hold `cap` items each.
    pub fn new_with_dyn_cap(boundary: Boundary<C>, cap: usize) -> (t: Self)
        ensures
            t.wf(),
            t.area() == boundary,
            t.level_cap() == cap,
            !t.has_item_list(),
            !t.is_split(),
            t.level_items() == Seq::<(Point<C>, Item)>::empty(),
            t.elements() == Seq::<(Point<C>, Item)>::empty(),
            t.placed(),
    {
        Self::new_with_capacity(boundary, DynCap::new(cap))
    }
}

impl<C: PositionUnit, Item, const CAP: usize> QuadTree<C, Item, ConstCap<CAP>> {
    /// Create a new quad tree whose levels hold `CAP` items each.
    pub fn new_with_const_cap(boundary: Boundary<C>) -> (t: Self)
        ensures
            t.wf(),
            t.area() == boundary,
            t.level_cap() == CAP,
            !t.has_item_list(),
            !t.is_split(),
            t.level_items() == Seq::<(Point<C>, Item)>::empty(),
            t.elements() == Seq::<(Point<C>, Item)>::empty(),
            t.placed(),
    {
        let capacity = ConstCap;
        Self::new_with_capacity(boundary, capacity)
    }
}

impl<C: PositionUnit, Item, Cap: Capacity> QuadTree<C, Item, Cap> {
    /// The elements of the quadrants `i` to 3 of this level, in order
    /// (nothing when the level is not split).
    pub closed spec fn elements_from_quadrant(self, i: int) -> Seq<(Point<C>, Item)> {
        match self.quadrants {
            None => Seq::empty(),
            Some(q) => if i <= 0 {
                q.q0.elements() + q.q1.elements() + q.q2.elements() + q.q3.elements()
            } else if i == 1 {
                q.q1.elements() + q.q2.elements() + q.q3.elements()
            } else if i == 2 {
                q.q2.elements() + q.q3.elements()
            } else if i == 3 {
                q.q3.elements()
            } else {
                Seq::empty()
            },
        }
    }

    /// The weight of a subtree: 2 for each level and 1 for each item. A walk
    /// over the tree uses it to show that it ends.
    spec fn weight(self) -> nat
        decreases self,
    {
        2 + self.level_items().len() + match self.quadrants {
            None => 0,
            Some(q) => q.q0.weight() + q.q1.weight() + q.q2.weight() + q.q3.weight(),
        }
    }

    spec fn weight_from_quadrant(self, i: int) -> nat {
        match self.quadrants {
            None => 0,
            Some(q) => if i <= 0 {
                q.q0.weight() + q.q1.weight() + q.q2.weight() + q.q3.weight()
            } else if i == 1 {
                q.q1.weight() + q.q2.weight() + q.q3.weight()
            } else if i == 2 {
                q.q2.weight() + q.q3.weight()
            } else if i == 3 {
                q.q3.weight()
            } else {
                0
            },
        }
    }

    /// Quadrant `i` of this level, in exec code.
    fn quadrant_ref(&self, i: usize) -> (r: &QuadTree<C, Item, Cap>)
        requires
            self.is_split(),
            i < 4,
        ensures
            *r == self.quadrant_at(i as int),
    {
        let q = self.quadrants.as_ref().unwrap();
        if i == 0 {
            &q.q0
        } else if i == 1 {
            &q.q1
        } else if i == 2 {
            &q.q2
        } else {
            &q.q3
        }
    }

    /// The number of items kept at this level.
    fn level_len(&self) -> (r: usize)
        ensures
            r == self.level_items().len(),
    {
        match &self.items {
            Some(v) => v.len(),
            None => 0,
        }
    }

    /// Item `i` of this level.
    fn level_item(&self, i: usize) -> (r: &(Point<C>, Item))
        requires
            i < self.level_items().len(),
        ensures
            *r == self.level_items()[i as int],
    {
        &self.items.as_ref().unwrap()[i]
    }

    proof fn lemma_elements_split(self)
        ensures
            self.elements() == self.level_items() + self.elements_from_quadrant(0),
            self.weight() == 2 + self.level_items().len() + self.weight_from_quadrant(0),
    {
        assert(self.elements() =~= self.level_items() + self.elements_from_quadrant(0));
    }

    proof fn lemma_from_quadrant_step(self, i: int)
        requires
            self.is_split(),
            0 <= i < 4,
        ensures
            self.elements_from_quadrant(i) == self.quadrant_at(i).elements()
                + self.elements_from_quadrant(i + 1),
            self.weight_from_quadrant(i) == self.quadrant_at(i).weight()
                + self.weight_from_quadrant(i + 1),
    {
        let q = self.quadrants->0;
        if i == 0 {
            assert(self.elements_from_quadrant(0) =~= q.q0.elements() + self.elements_from_quadrant(1));
        } else if i == 1 {
            assert(self.elements_from_quadrant(1) =~= q.q1.elements() + self.elements_from_quadrant(2));
        } else if i == 2 {
            assert(self.elements_from_quadrant(2) =~= q.q2.elements() + self.elements_from_quadrant(3));
        } else {
            assert(self.elements_from_quadrant(3) =~= q.q3.elements() + self.elements_from_quadrant(4));
        }
    }

}

impl<C, Item, Cap> QuadTree<C, Item, Cap> {
    /// Whether this level has been split, in exec code.
    fn is_split_exec(&self) -> (r: bool)
        ensures
            r == (self.quadrants is Some),
    {
        self.quadrants.is_some()
    }
}

impl<C: PositionUnit, Item, Cap: Capacity> QuadTree<C, Item, Cap> {
    /// The capacity of each level is the one that its capacity value gives.
    pub proof fn lemma_level_cap(self)
        ensures
            self.level_cap() == self.capacity_value().cap(),
    {
    }

    /// `self` and `other` are the same tree: the same areas, capacities,
    /// item lists (present or not, and their items) and quadrants, level by
    /// level. Two such trees differ at most in the spare room of their
    /// item vectors.
    pub closed spec fn same_as(self, other: Self) -> bool
        decreases self,
    {
        &&& other.boundary == self.boundary
        &&& other.capacity == self.capacity
        &&& (other.items is Some) == (self.items is Some)
        &&& other.level_items() == self.level_items()
        &&& match self.quadrants {
            None => other.quadrants is None,
            Some(a) => match other.quadrants {
                None => false,
                Some(b) => {
                    &&& a.q0.same_as(b.q0)
                    &&& a.q1.same_as(b.q1)
                    &&& a.q2.same_as(b.q2)
                    &&& a.q3.same_as(b.q3)
                },
            },
        }
    }

    /// What `same_as` is, one level at a time.
    pub proof fn lemma_same_as_unfold(self, other: Self)
        ensures
            self.same_as(other) == {
                &&& other.area() == self.area()
                &&& other.capacity_value() == self.capacity_value()
                &&& other.has_item_list() == self.has_item_list()
                &&& other.level_items() == self.level_items()
                &&& other.is_split() == self.is_split()
                &&& self.is_split() ==> forall|i: int|
                    0 <= i < 4 ==> (#[trigger] self.quadrant_at(i)).same_as(other.quadrant_at(i))
            },
    {
        if self.is_split() && other.is_split() {
            let a = self.quadrants->0;
            let b = other.quadrants->0;
            assert(self.quadrant_at(0) == a.q0 && other.quadrant_at(0) == b.q0);
            assert(self.quadrant_at(1) == a.q1 && other.quadrant_at(1) == b.q1);
            assert(self.quadrant_at(2) == a.q2 && other.quadrant_at(2) == b.q2);
            assert(self.quadrant_at(3) == a.q3 && other.quadrant_at(3) == b.q3);
        }
    }

    /// Every tree is the same as itself.
    pub proof fn lemma_same_as_refl(self)
        ensures
            self.same_as(self),
        decreases self,
    {
        match self.quadrants {
            None => {},
            Some(q) => {
                q.q0.lemma_same_as_refl();
                q.q1.lemma_same_as_refl();
                q.q2.lemma_same_as_refl();
                q.q3.lemma_same_as_refl();
            },
        }
    }

    /// Trees that are the same hold the same items in the same order.
    pub proof fn lemma_same_as_elements(self, other: Self)
        requires
            self.same_as(other),
        ensures
            other.elements() == self.elements(),
            other.query_order() == self.query_order(),
        decreases self,
    {
        match self.quadrants {
            None => {},
            Some(a) => {
                let b = other.quadrants->0;
                a.q0.lemma_same_as_elements(b.q0);
                a.q1.lemma_same_as_elements(b.q1);
                a.q2.lemma_same_as_elements(b.q2);
                a.q3.lemma_same_as_elements(b.q3);
            },
        }
    }

    /// An insertion fixes the new tree: two trees that both result from
    /// inserting `(p, v)` into `self` are the same tree. So `insert_at` at a
    /// point of the area leaves the tree that `insert_at_unchecked` leaves.
    pub proof fn lemma_inserted_determines(self, a: Self, b: Self, p: Point<C>, v: Item)
        requires
            self.inserted(a, p, v),
            self.inserted(b, p, v),
        ensures
            a.same_as(b),
        decreases self,
    {
        if self.level_items().len() < self.capacity.cap() {
            match self.quadrants {
                None => {},
                Some(q) => {
                    let qa = a.quadrants->0;
                    q.q0.lemma_same_as_refl();
                    q.q1.lemma_same_as_refl();
                    q.q2.lemma_same_as_refl();
                    q.q3.lemma_same_as_refl();
                    assert(qa == q);
                },
            }
        } else {
            let qa = a.quadrants->0;
            let qb = b.quadrants->0;
            let k = route_index(self.boundary, p);
            match self.quadrants {
                Some(q) => {
                    if k == 0 { q.q0.lemma_inserted_determines(qa.q0, qb.q0, p, v); } else { q.q0.lemma_same_as_refl(); }
                    if k == 1 { q.q1.lemma_inserted_determines(qa.q1, qb.q1, p, v); } else { q.q1.lemma_same_as_refl(); }
                    if k == 2 { q.q2.lemma_inserted_determines(qa.q2, qb.q2, p, v); } else { q.q2.lemma_same_as_refl(); }
                    if k == 3 { q.q3.lemma_inserted_determines(qa.q3, qb.q3, p, v); } else { q.q3.lemma_same_as_refl(); }
                    assert(qa.q0.same_as(qb.q0));
                    assert(qa.q1.same_as(qb.q1));
                    assert(qa.q2.same_as(qb.q2));
                },
                None => {
                    lemma_quadrant_unique(self.boundary, 0, qa.q0.boundary, qb.q0.boundary);
                    lemma_quadrant_unique(self.boundary, 1, qa.q1.boundary, qb.q1.boundary);
                    lemma_quadrant_unique(self.boundary, 2, qa.q2.boundary, qb.q2.boundary);
                    lemma_quadrant_unique(self.boundary, 3, qa.q3.boundary, qb.q3.boundary);
                    assert(qa.q0.same_as(qb.q0));
                    assert(qa.q1.same_as(qb.q1));
                    assert(qa.q2.same_as(qb.q2));
                    assert(qa.q3.same_as(qb.q3));
                },
            }
        }
    }

    /// `insert_at` at a point of the area leaves the same tree as
    /// `insert_at_unchecked` with the same arguments.
    pub proof fn law_insert_at_inside_is_unchecked_insert(
        self,
        checked: Self,
        unchecked: Self,
        p: Point<C>,
        v: Item,
        r: Result<(), QuadTreeError<C>>,
    )
        requires
            insert_at_outcome(self, checked, p, v, r),
            in_area(self.area(), p),
            self.inserted(unchecked, p, v),
        ensures
            r is Ok,
            checked.same_as(unchecked),
    {
        self.lemma_inserted_determines(checked, unchecked, p, v);
    }

    /// What `elements` is, one level at a time.
    pub proof fn lemma_elements_unfold(self)
        ensures
            self.elements() == self.level_items() + if self.is_split() {
                self.quadrant_at(0).elements() + self.quadrant_at(1).elements()
                    + self.quadrant_at(2).elements() + self.quadrant_at(3).elements()
            } else {
                Seq::empty()
            },
    {
    }

    /// What `query_order` is, one level at a time.
    pub proof fn lemma_query_order_unfold(self)
        ensures
            self.query_order() == if self.is_split() {
                self.quadrant_at(0).query_order() + self.quadrant_at(1).query_order()
                    + self.quadrant_at(2).query_order() + self.quadrant_at(3).query_order()
            } else {
                Seq::empty()
            } + self.level_items(),
    {
    }

    /// What `wf` is, one level at a time.
    pub proof fn lemma_wf_unfold(self)
        ensures
            self.wf() == {
                &&& self.level_items().len() <= self.level_cap()
                &&& self.has_item_list() ==> self.level_items().len() > 0
                &&& self.is_split() ==> {
                    &&& self.level_items().len() == self.level_cap()
                    &&& forall|i: int|
                        0 <= i < 4 ==> {
                            &&& (#[trigger] self.quadrant_at(i)).capacity_value()
                                == self.capacity_value()
                            &&& self.quadrant_at(i).level_cap() == self.level_cap()
                            &&& is_quadrant(self.area(), i, self.quadrant_at(i).area())
                            &&& self.quadrant_at(i).wf()
                        }
                }
            },
    {
        if self.is_split() {
            let q = self.quadrants->0;
            assert(self.quadrant_at(0) == q.q0);
            assert(self.quadrant_at(1) == q.q1);
            assert(self.quadrant_at(2) == q.q2);
            assert(self.quadrant_at(3) == q.q3);
        }
    }

    /// What `placed` is, one level at a time.
    pub proof fn lemma_placed_unfold(self)
        ensures
            self.placed() == {
                &&& forall|i: int|
                    0 <= i < self.query_order().len() ==> in_area(
                        self.area(),
                        (#[trigger] self.query_order()[i]).0,
                    )
                &&& self.is_split() ==> forall|i: int|
                    0 <= i < 4 ==> (#[trigger] self.quadrant_at(i)).placed()
            },
    {
        if self.is_split() {
            let q = self.quadrants->0;
            assert(self.quadrant_at(0) == q.q0);
            assert(self.quadrant_at(1) == q.q1);
            assert(self.quadrant_at(2) == q.q2);
            assert(self.quadrant_at(3) == q.q3);
        }
    }

    /// What `fresh_quadrant` says, in terms of the public accessors.
    pub proof fn lemma_fresh_quadrant_unfold(self, c: Self, i: int, p: Point<C>, v: Item)
        requires
            self.fresh_quadrant(c, i, p, v),
        ensures
            is_quadrant(self.area(), i, c.area()),
            c.capacity_value() == self.capacity_value(),
            !c.is_split(),
            i == route_index(self.area(), p) ==> c.has_item_list() && c.level_items() == seq![
                (p, v),
            ],
            i != route_index(self.area(), p) ==> !c.has_item_list() && c.level_items()
                == Seq::<(Point<C>, Item)>::empty(),
    {
    }

    /// What `inserted` says, one level at a time, in terms of the public
    /// accessors.
    pub proof fn lemma_inserted_unfold(self, new: Self, p: Point<C>, v: Item)
        requires
            self.inserted(new, p, v),
        ensures
            new.area() == self.area(),
            new.capacity_value() == self.capacity_value(),
            self.level_items().len() < self.level_cap() ==> {
                &&& new.has_item_list()
                &&& new.level_items() == self.level_items().push((p, v))
                &&& new.is_split() == self.is_split()
                &&& forall|i: int| 0 <= i < 4 ==> #[trigger] new.quadrant_at(i) == self.quadrant_at(i)
            },
            self.level_items().len() >= self.level_cap() ==> {
                &&& new.has_item_list() == self.has_item_list()
                &&& new.level_items() == self.level_items()
                &&& new.is_split()
                &&& self.is_split() ==> forall|i: int|
                    0 <= i < 4 ==> if i == route_index(self.area(), p) {
                        self.quadrant_at(i).inserted(#[trigger] new.quadrant_at(i), p, v)
                    } else {
                        new.quadrant_at(i) == self.quadrant_at(i)
                    }
                &&& !self.is_split() ==> forall|i: int|
                    0 <= i < 4 ==> self.fresh_quadrant(#[trigger] new.quadrant_at(i), i, p, v)
            },
    {
        if self.level_items().len() >= self.level_cap() {
            let nq = new.quadrants->0;
            assert(new.quadrant_at(0) == nq.q0);
            assert(new.quadrant_at(1) == nq.q1);
            assert(new.quadrant_at(2) == nq.q2);
            assert(new.quadrant_at(3) == nq.q3);
        }
    }
}

impl<C: PositionUnit, Item: Clone, Cap: Capacity> QuadTree<C, Item, Cap> {
    /// `c` is a clone of this tree: it has the same areas, capacities and
    /// levels, the same points, and each of its items is a clone of the
    /// item in the same place here.
    pub closed spec fn is_clone_of(self, c: Self) -> bool
        decreases self,
    {
        &&& c.boundary == self.boundary
        &&& c.capacity == self.capacity
        &&& (c.items is Some) == (self.items is Some)
        &&& c.level_items().len() == self.level_items().len()
        &&& forall|i: int|
            0 <= i < self.level_items().len() ==> {
                &&& (#[trigger] c.level_items()[i]).0 == self.level_items()[i].0
                &&& cloned(self.level_items()[i].1, c.level_items()[i].1)
            }
        &&& match self.quadrants {
            None => c.quadrants is None,
            Some(a) => match c.quadrants {
                None => false,
                Some(b) => {
                    &&& a.q0.is_clone_of(b.q0)
                    &&& a.q1.is_clone_of(b.q1)
                    &&& a.q2.is_clone_of(b.q2)
                    &&& a.q3.is_clone_of(b.q3)
                },
            },
        }
    }

    fn clone_items(v: &Vec<(Point<C>, Item)>) -> (r: Vec<(Point<C>, Item)>)
        ensures
            r@.len() == v@.len(),
            forall|i: int|
                0 <= i < v@.len() ==> {
                    &&& (#[trigger] r@[i]).0 == v@[i].0
                    &&& cloned(v@[i].1, r@[i].1)
                },
    {
        let mut r: Vec<(Point<C>, Item)> = Vec::with_capacity(v.len());
        let mut i: usize = 0;
        while i < v.len()
            invariant
                i <= v@.len(),
                r@.len() == i,
                forall|j: int|
                    0 <= j < i ==> {
                        &&& (#[trigger] r@[j]).0 == v@[j].0
                        &&& cloned(v@[j].1, r@[j].1)
                    },
            decreases v@.len() - i,
        {
            let item = v[i].1.clone();
            r.push((v[i].0, item));
            i = i + 1;
        }
        r
    }

    fn clone_tree(&self) -> (r: Self)
        ensures
            self.is_clone_of(r),
        decreases self,
    {
        let items = match &self.items {
            Some(v) => Some(Self::clone_items(v)),
            None => None,
        };
        let quadrants = match &self.quadrants {
            None => None,
            Some(q) => Some(
                Box::new(
                    Quadrants {
                        q0: q.q0.clone_tree(),
                        q1: q.q1.clone_tree(),
                        q2: q.q2.clone_tree(),
                        q3: q.q3.clone_tree(),
                    },
                ),
            ),
        };
        QuadTree { boundary: self.boundary, quadrants, items, capacity: self.capacity }
    }
}

impl<C: PositionUnit, Item: Clone, Cap: Capacity> Clone for QuadTree<C, Item, Cap> {
    /// A copy of the tree whose items are clones of the tree's items.
    fn clone(&self) -> (r: Self)
        ensures
            self.is_clone_of(r),
            r.area() == self.area(),
            r.level_cap() == self.level_cap(),
            r.elements().len() == self.elements().len(),
            forall|i: int|
                0 <= i < self.elements().len() ==> {
                    &&& (#[trigger] r.elements()[i]).0 == self.elements()[i].0
                    &&& cloned(self.elements()[i].1, r.elements()[i].1)
                },
    {
        let r = self.clone_tree();
        proof {
            law_clone_holds_the_items(*self, r);
        }
        r
    }
}

/// `b` holds, in order, the points of `a` with clones of its items.
proof fn lemma_clones_concat<C, Item: Clone>(
    a1: Seq<(Point<C>, Item)>,
    b1: Seq<(Point<C>, Item)>,
    a2: Seq<(Point<C>, Item)>,
    b2: Seq<(Point<C>, Item)>,
)
    requires
        b1.len() == a1.len(),
        forall|i: int|
            0 <= i < a1.len() ==> (#[trigger] b1[i]).0 == a1[i].0 && cloned(a1[i].1, b1[i].1),
        b2.len() == a2.len(),
        forall|i: int|
            0 <= i < a2.len() ==> (#[trigger] b2[i]).0 == a2[i].0 && cloned(a2[i].1, b2[i].1),
    ensures
        (b1 + b2).len() == (a1 + a2).len(),
        forall|i: int|
            0 <= i < (a1 + a2).len() ==> (#[trigger] (b1 + b2)[i]).0 == (a1 + a2)[i].0 && cloned(
                (a1 + a2)[i].1,
                (b1 + b2)[i].1,
            ),
{
    assert forall|i: int| 0 <= i < (a1 + a2).len() implies (#[trigger] (b1 + b2)[i]).0 == (a1
        + a2)[i].0 && cloned((a1 + a2)[i].1, (b1 + b2)[i].1) by {
        if i < a1.len() {
            assert((b1 + b2)[i] == b1[i]);
            assert((a1 + a2)[i] == a1[i]);
        } else {
            assert((b1 + b2)[i] == b2[i - a1.len()]);
            assert((a1 + a2)[i] == a2[i - a1.len()]);
        }
    }
}

/// A clone of a tree holds the same number of items as the tree, at the same
/// points and in the same order, each item a clone of the tree's item; it
/// covers the same area with the same capacity.
pub proof fn law_clone_holds_the_items<C: PositionUnit, Item: Clone, Cap: Capacity>(
    t: QuadTree<C, Item, Cap>,
    c: QuadTree<C, Item, Cap>,
)
    requires
        t.is_clone_of(c),
    ensures
        c.area() == t.area(),
        c.level_cap() == t.level_cap(),
        c.level_items().len() == t.level_items().len(),
        c.elements().len() == t.elements().len(),
        forall|i: int|
            0 <= i < t.elements().len() ==> {
                &&& (#[trigger] c.elements()[i]).0 == t.elements()[i].0
                &&& cloned(t.elements()[i].1, c.elements()[i].1)
            },
    decreases t,
{
    match t.quadrants {
        None => {
            assert(t.elements() =~= t.level_items());
            assert(c.elements() =~= c.level_items());
        },
        Some(a) => {
            let b = c.quadrants->0;
            law_clone_holds_the_items(a.q0, b.q0);
            law_clone_holds_the_items(a.q1, b.q1);
            law_clone_holds_the_items(a.q2, b.q2);
            law_clone_holds_the_items(a.q3, b.q3);
            lemma_clones_concat(a.q0.elements(), b.q0.elements(), a.q1.elements(), b.q1.elements());
            let a01 = a.q0.elements() + a.q1.elements();
            let b01 = b.q0.elements() + b.q1.elements();
            lemma_clones_concat(a01, b01, a.q2.elements(), b.q2.elements());
            let a012 = a01 + a.q2.elements();
            let b012 = b01 + b.q2.elements();
            lemma_clones_concat(a012, b012, a.q3.elements(), b.q3.elements());
            let aq = a012 + a.q3.elements();
            let bq = b012 + b.q3.elements();
            lemma_clones_concat(t.level_items(), c.level_items(), aq, bq);
            assert(t.elements() == t.level_items() + aq);
            assert(c.elements() == c.level_items() + bq);
        },
    }
}

} // verus!
