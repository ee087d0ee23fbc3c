use vstd::prelude::*;

use super::{insert_at_outcome, QuadTree, QuadTreeError};
use crate::boundary::{
    area_encloses, areas_overlap, in_area, lemma_common_point_overlaps,
    lemma_routed_quadrant_contains, route_index, Boundary,
};
use crate::capacity::Capacity;
use crate::coordinate::PositionUnit;
use crate::point::Point;

verus! {

/// Whether a query over `area` keeps an item: every item of a level that
/// lies wholly inside the area (`enclosed`), otherwise those whose point
/// lies inside the area.
pub open spec fn keep<C: PositionUnit, Item>(area: Boundary<C>, enclosed: bool) -> spec_fn(
    (Point<C>, Item),
) -> bool {
    |e: (Point<C>, Item)| enclosed || in_area(area, e.0)
}

/// One level of the tree that a query is walking through.
#[derive(Clone)]
struct QueryStackItem<'a, C, Item, Cap> {
    node: &'a QuadTree<C, Item, Cap>,
    is_enclosed_by_area: bool,
    item_idx: usize,
    quad_idx: usize,
}

/// The state shared by `Query` and `QueryPoints`.
#[derive(Clone)]
struct QuerySharedData<'a, C, Item, Cap> {
    area: Boundary<C>,
    stack: Vec<QueryStackItem<'a, C, Item, Cap>>,
}

/// Query iterator over items and their points.
#[derive(Clone)]
pub struct QueryPoints<'a, C, Item, Cap>(QuerySharedData<'a, C, Item, Cap>);

/// Query iterator over items.
#[derive(Clone)]
pub struct Query<'a, C, Item, Cap>(QuerySharedData<'a, C, Item, Cap>);

impl<C: PositionUnit, Item, Cap: Capacity> QuadTree<C, Item, Cap> {
    /// What a query over `area` hands out from this subtree: first what it
    /// hands out of the quadrants, in order, then the kept items of this
    /// level. A quadrant is entered only if the level is enclosed by the area
    /// or the quadrant's area overlaps it; it is enclosed if its level is or
    /// the area encloses its boundary.
    pub closed spec fn query_elements(self, enclosed: bool, area: Boundary<C>) -> Seq<
        (Point<C>, Item),
    >
        decreases self,
    {
        let quads = match self.quadrants {
            None => Seq::empty(),
            Some(q) => (if enclosed || areas_overlap(area, q.q0.boundary) {
                q.q0.query_elements(enclosed || area_encloses(area, q.q0.boundary), area)
            } else {
                Seq::empty()
            }) + (if enclosed || areas_overlap(area, q.q1.boundary) {
                q.q1.query_elements(enclosed || area_encloses(area, q.q1.boundary), area)
            } else {
                Seq::empty()
            }) + (if enclosed || areas_overlap(area, q.q2.boundary) {
                q.q2.query_elements(enclosed || area_encloses(area, q.q2.boundary), area)
            } else {
                Seq::empty()
            }) + (if enclosed || areas_overlap(area, q.q3.boundary) {
                q.q3.query_elements(enclosed || area_encloses(area, q.q3.boundary), area)
            } else {
                Seq::empty()
            }),
        };
        quads + self.level_items().filter(keep(area, enclosed))
    }

    /// What a query hands out of quadrant `c` of a level that is `enclosed`.
    pub open spec fn quadrant_query(c: Self, enclosed: bool, area: Boundary<C>) -> Seq<
        (Point<C>, Item),
    > {
        if enclosed || areas_overlap(area, c.area()) {
            c.query_elements(enclosed || area_encloses(area, c.area()), area)
        } else {
            Seq::empty()
        }
    }

    /// What a query hands out of the quadrants `i` to 3 of this level.
    pub open spec fn query_from_quadrant(self, i: int, enclosed: bool, area: Boundary<C>) -> Seq<
        (Point<C>, Item),
    > {
        if !self.is_split() || i > 3 {
            Seq::empty()
        } else if i <= 0 {
            Self::quadrant_query(self.quadrant_at(0), enclosed, area) + Self::quadrant_query(
                self.quadrant_at(1),
                enclosed,
                area,
            ) + Self::quadrant_query(self.quadrant_at(2), enclosed, area) + Self::quadrant_query(
                self.quadrant_at(3),
                enclosed,
                area,
            )
        } else if i == 1 {
            Self::quadrant_query(self.quadrant_at(1), enclosed, area) + Self::quadrant_query(
                self.quadrant_at(2),
                enclosed,
                area,
            ) + Self::quadrant_query(self.quadrant_at(3), enclosed, area)
        } else if i == 2 {
            Self::quadrant_query(self.quadrant_at(2), enclosed, area) + Self::quadrant_query(
                self.quadrant_at(3),
                enclosed,
                area,
            )
        } else {
            Self::quadrant_query(self.quadrant_at(3), enclosed, area)
        }
    }

    /// What `query_elements` is, one level at a time.
    pub proof fn lemma_query_split(self, enclosed: bool, area: Boundary<C>)
        ensures
            self.query_elements(enclosed, area) == self.query_from_quadrant(0, enclosed, area)
                + self.level_items().filter(keep(area, enclosed)),
    {
        assert(self.query_elements(enclosed, area) =~= self.query_from_quadrant(0, enclosed, area)
            + self.level_items().filter(keep(area, enclosed)));
    }

    proof fn lemma_query_from_quadrant_step(self, i: int, enclosed: bool, area: Boundary<C>)
        requires
            self.is_split(),
            0 <= i < 4,
        ensures
            self.query_from_quadrant(i, enclosed, area) == Self::quadrant_query(
                self.quadrant_at(i),
                enclosed,
                area,
            ) + self.query_from_quadrant(i + 1, enclosed, area),
    {
        let a = self.query_from_quadrant(i, enclosed, area);
        let b = Self::quadrant_query(self.quadrant_at(i), enclosed, area)
            + self.query_from_quadrant(i + 1, enclosed, area);
        assert(a =~= b);
    }

    /// Get all items in a given area.
    pub fn query(&self, area: Boundary<C>) -> (q: Query<'_, C, Item, Cap>)
        ensures
            q.valid(),
            q.remaining() == self.query_elements(area_encloses(area, self.area()), area),
            q.remaining().to_multiset().subset_of(self.elements().to_multiset()),
            self.placed() ==> q.remaining() == self.query_order().filter(
                keep::<C, Item>(area, false),
            ),
            self.placed() ==> q.remaining().to_multiset() == self.elements().filter(
                keep::<C, Item>(area, false),
            ).to_multiset(),
    {
        proof {
            law_query_hands_out_stored_items(*self, area);
            if self.placed() {
                law_query_is_exact(*self, area);
            }
        }
        Query::new(self, area)
    }

    /// Get all items in a given area and their points.
    pub fn query_points(&self, area: Boundary<C>) -> (q: QueryPoints<'_, C, Item, Cap>)
        ensures
            q.valid(),
            q.remaining() == self.query_elements(area_encloses(area, self.area()), area),
            q.remaining().to_multiset().subset_of(self.elements().to_multiset()),
            self.placed() ==> q.remaining() == self.query_order().filter(
                keep::<C, Item>(area, false),
            ),
            self.placed() ==> q.remaining().to_multiset() == self.elements().filter(
                keep::<C, Item>(area, false),
            ).to_multiset(),
    {
        proof {
            law_query_hands_out_stored_items(*self, area);
            if self.placed() {
                law_query_is_exact(*self, area);
            }
        }
        QueryPoints::new(self, area)
    }
}

impl<'a, C: PositionUnit, Item, Cap: Capacity> QueryStackItem<'a, C, Item, Cap> {
    /// The level `tree` as a query over `area` enters it, from a level that
    /// is (or not) enclosed by the area.
    fn new(tree: &'a QuadTree<C, Item, Cap>, parent_is_enclosed_by_area: bool, area: &Boundary<C>) -> (r: Self)
        ensures
            r.node == tree,
            r.is_enclosed_by_area == (parent_is_enclosed_by_area || area_encloses(*area, tree.area())),
            r.item_idx == 0,
            r.quad_idx == 0,
    {
        QueryStackItem {
            is_enclosed_by_area: parent_is_enclosed_by_area || area.encloses(tree.boundary()),
            node: tree,
            item_idx: 0,
            quad_idx: 0,
        }
    }

    spec fn valid(self) -> bool {
        &&& self.item_idx <= self.node.level_items().len()
        &&& self.quad_idx <= 4
    }

    spec fn rest(self, area: Boundary<C>) -> Seq<(Point<C>, Item)> {
        self.node.query_from_quadrant(self.quad_idx as int, self.is_enclosed_by_area, area)
            + self.node.level_items().skip(self.item_idx as int).filter(
            keep(area, self.is_enclosed_by_area),
        )
    }

    spec fn work(self) -> nat {
        1 + (self.node.level_items().len() - self.item_idx) as nat
            + self.node.weight_from_quadrant(self.quad_idx as int)
    }
}

spec fn stack_rest<'a, C: PositionUnit, Item, Cap: Capacity>(
    s: Seq<QueryStackItem<'a, C, Item, Cap>>,
    area: Boundary<C>,
) -> Seq<(Point<C>, Item)>
    decreases s.len(),
{
    if s.len() == 0 {
        Seq::empty()
    } else {
        s.last().rest(area) + stack_rest(s.drop_last(), area)
    }
}

spec fn stack_work<'a, C: PositionUnit, Item, Cap: Capacity>(
    s: Seq<QueryStackItem<'a, C, Item, Cap>>,
) -> nat
    decreases s.len(),
{
    if s.len() == 0 {
        0
    } else {
        s.last().work() + stack_work(s.drop_last())
    }
}

impl<'a, C: PositionUnit, Item, Cap: Capacity> QuerySharedData<'a, C, Item, Cap> {
    spec fn valid(self) -> bool {
        forall|i: int| 0 <= i < self.stack@.len() ==> (#[trigger] self.stack@[i]).valid()
    }

    spec fn remaining(self) -> Seq<(Point<C>, Item)> {
        stack_rest(self.stack@, self.area)
    }

    fn new(tree: &'a QuadTree<C, Item, Cap>, area: Boundary<C>) -> (r: Self)
        ensures
            r.valid(),
            r.area == area,
            r.remaining() == tree.query_elements(area_encloses(area, tree.area()), area),
    {
        let mut stack = Vec::new();
        stack.push(QueryStackItem::new(tree, false, &area));
        proof {
            let enc = area_encloses(area, tree.area());
            tree.lemma_query_split(enc, area);
            assert(tree.level_items().skip(0) =~= tree.level_items());
            assert(stack@.drop_last() =~= Seq::<QueryStackItem<'a, C, Item, Cap>>::empty());
            assert(stack_rest(stack@.drop_last(), area) == Seq::<(Point<C>, Item)>::empty());
            assert(stack_rest(stack@, area) =~= tree.query_elements(enc, area));
        }
        QuerySharedData { stack, area }
    }

}

proof fn lemma_stack_push<'a, C: PositionUnit, Item, Cap: Capacity>(
    s: Seq<QueryStackItem<'a, C, Item, Cap>>,
    x: QueryStackItem<'a, C, Item, Cap>,
    area: Boundary<C>,
)
    ensures
        stack_rest(s.push(x), area) == x.rest(area) + stack_rest(s, area),
        stack_work(s.push(x)) == x.work() + stack_work(s),
{
    assert(s.push(x).drop_last() =~= s);
}

/// Hand out the next item in the area, with its point: what the
/// quadrants of a level hold comes before the level's own items.
#[verifier::spinoff_prover]
fn query_next<'a, C: PositionUnit, Item, Cap: Capacity>(
    data: &mut QuerySharedData<'a, C, Item, Cap>,
) -> (r: Option<&'a (Point<C>, Item)>)
    requires
        old(data).valid(),
    ensures
        final(data).valid(),
        final(data).area == old(data).area,
        match r {
            None => old(data).remaining().len() == 0 && final(data).remaining().len() == 0,
            Some(e) => {
                &&& old(data).remaining().len() > 0
                &&& *e == old(data).remaining()[0]
                &&& final(data).remaining() == old(data).remaining().drop_first()
            },
        },
{
    let ghost area = data.area;
    loop
        invariant
            data.valid(),
            data.area == area,
            area == old(data).area,
            data.remaining() == old(data).remaining(),
        decreases stack_work(data.stack@),
    {
        let ghost s0 = data.stack@;
        let f = match data.stack.pop() {
            Some(f) => f,
            None => {
                assert(s0 =~= Seq::<QueryStackItem<'a, C, Item, Cap>>::empty());
                return None;
            },
        };
        proof {
            assert(s0 == data.stack@.push(f));
            lemma_stack_push(data.stack@, f, area);
            assert(s0[s0.len() - 1].valid());
        }
        let ghost s = data.stack@;
        let node: &'a QuadTree<C, Item, Cap> = f.node;
        let enc = f.is_enclosed_by_area;
        if node.is_split_exec() && f.quad_idx < 4 {
            let quad = node.quadrant_ref(f.quad_idx);
            let f2 = QueryStackItem {
                node,
                is_enclosed_by_area: enc,
                item_idx: f.item_idx,
                quad_idx: f.quad_idx + 1,
            };
            proof {
                lemma_frame_quad_step(f, f2, area);
                lemma_stack_push(s, f2, area);
            }
            data.stack.push(f2);
            if enc || data.area.overlaps(quad.boundary()) {
                let int_query = QueryStackItem::new(quad, enc, &data.area);
                proof {
                    lemma_fresh_frame(int_query, area);
                    lemma_stack_push(s.push(f2), int_query, area);
                }
                data.stack.push(int_query);
            }
            proof {
                let s1 = data.stack@;
                assert forall|i: int| 0 <= i < s1.len() implies (#[trigger] s1[i]).valid() by {
                    if i < s.len() {
                        assert(s1[i] == s0[i]);
                    }
                }
            }
        } else {
            let len = node.level_len();
            if f.item_idx < len {
                let item = node.level_item(f.item_idx);
                let f2 = QueryStackItem {
                    node,
                    is_enclosed_by_area: enc,
                    item_idx: f.item_idx + 1,
                    quad_idx: f.quad_idx,
                };
                proof {
                    lemma_frame_item_step(f, f2, area);
                    lemma_stack_push(s, f2, area);
                }
                data.stack.push(f2);
                let keep_it = enc || data.area.contains(&item.0);
                proof {
                    let s1 = data.stack@;
                    assert forall|i: int| 0 <= i < s1.len() implies (#[trigger] s1[i]).valid() by {
                        if i < s.len() {
                            assert(s1[i] == s0[i]);
                        }
                    }
                }
                if keep_it {
                    proof {
                        assert(stack_rest(data.stack@, area) =~= stack_rest(s0, area).drop_first());
                    }
                    return Some(item);
                }
            } else {
                proof {
                    assert(node.level_items().skip(f.item_idx as int) =~= Seq::<
                        (Point<C>, Item),
                    >::empty());
                    assert(node.query_from_quadrant(f.quad_idx as int, enc, area)
                        =~= Seq::<(Point<C>, Item)>::empty());
                    assert(f.rest(area) =~= Seq::<(Point<C>, Item)>::empty());
                    assert(stack_rest(s0, area) =~= stack_rest(data.stack@, area));
                }
            }
        }
    }
}

proof fn lemma_frame_quad_step<'a, C: PositionUnit, Item, Cap: Capacity>(
    f: QueryStackItem<'a, C, Item, Cap>,
    f2: QueryStackItem<'a, C, Item, Cap>,
    area: Boundary<C>,
)
    requires
        f.node.is_split(),
        f.quad_idx < 4,
        f2.node == f.node,
        f2.is_enclosed_by_area == f.is_enclosed_by_area,
        f2.item_idx == f.item_idx,
        f2.quad_idx == f.quad_idx + 1,
    ensures
        f.rest(area) == QuadTree::<C, Item, Cap>::quadrant_query(
            f.node.quadrant_at(f.quad_idx as int),
            f.is_enclosed_by_area,
            area,
        ) + f2.rest(area),
        f.work() == f.node.quadrant_at(f.quad_idx as int).weight() + f2.work(),
{
    f.node.lemma_from_quadrant_step(f.quad_idx as int);
    f.node.lemma_query_from_quadrant_step(f.quad_idx as int, f.is_enclosed_by_area, area);
    assert(f.rest(area) =~= QuadTree::<C, Item, Cap>::quadrant_query(
        f.node.quadrant_at(f.quad_idx as int),
        f.is_enclosed_by_area,
        area,
    ) + f2.rest(area));
}

proof fn lemma_fresh_frame<'a, C: PositionUnit, Item, Cap: Capacity>(
    f: QueryStackItem<'a, C, Item, Cap>,
    area: Boundary<C>,
)
    requires
        f.item_idx == 0,
        f.quad_idx == 0,
    ensures
        f.rest(area) == f.node.query_elements(f.is_enclosed_by_area, area),
        f.work() + 1 == f.node.weight(),
{
    f.node.lemma_query_split(f.is_enclosed_by_area, area);
    f.node.lemma_elements_split();
    assert(f.node.level_items().skip(0) =~= f.node.level_items());
}

proof fn lemma_frame_item_step<'a, C: PositionUnit, Item, Cap: Capacity>(
    f: QueryStackItem<'a, C, Item, Cap>,
    f2: QueryStackItem<'a, C, Item, Cap>,
    area: Boundary<C>,
)
    requires
        !(f.node.is_split() && f.quad_idx < 4),
        f.item_idx < f.node.level_items().len(),
        f2.node == f.node,
        f2.is_enclosed_by_area == f.is_enclosed_by_area,
        f2.item_idx == f.item_idx + 1,
        f2.quad_idx == f.quad_idx,
    ensures
        ({
            let x = f.node.level_items()[f.item_idx as int];
            f.rest(area) == (if f.is_enclosed_by_area || in_area(area, x.0) {
                seq![x]
            } else {
                Seq::empty()
            }) + f2.rest(area)
        }),
        f.work() == 1 + f2.work(),
{
    let items = f.node.level_items();
    let i = f.item_idx as int;
    let p = keep::<C, Item>(area, f.is_enclosed_by_area);
    assert(f.node.query_from_quadrant(f.quad_idx as int, f.is_enclosed_by_area, area)
        =~= Seq::<(Point<C>, Item)>::empty());
    assert(items.skip(i) =~= seq![items[i]] + items.skip(i + 1));
    items.skip(i + 1).lemma_filter_prepend(items[i], p);
    assert(f.rest(area) =~= (if p(items[i]) {
        seq![items[i]]
    } else {
        Seq::empty()
    }) + f2.rest(area));
}

impl<'a, C: PositionUnit, Item, Cap: Capacity> QueryPoints<'a, C, Item, Cap> {
    /// The items, with their points, that the query has still to hand out.
    pub closed spec fn remaining(self) -> Seq<(Point<C>, Item)> {
        self.0.remaining()
    }

    /// The query's own well-formedness.
    pub closed spec fn valid(self) -> bool {
        self.0.valid()
    }

    /// Create a query over `area` of the items of `tree` and their points.
    pub fn new(tree: &'a QuadTree<C, Item, Cap>, area: Boundary<C>) -> (q: Self)
        ensures
            q.valid(),
            q.remaining() == tree.query_elements(area_encloses(area, tree.area()), area),
    {
        QueryPoints(QuerySharedData::new(tree, area))
    }

    /// The next item in the area and its point, `None` once all were handed out.
    pub fn next(&mut self) -> (r: Option<&'a (Point<C>, Item)>)
        requires
            old(self).valid(),
        ensures
            final(self).valid(),
            match r {
                None => old(self).remaining().len() == 0 && final(self).remaining().len() == 0,
                Some(e) => {
                    &&& old(self).remaining().len() > 0
                    &&& *e == old(self).remaining()[0]
                    &&& final(self).remaining() == old(self).remaining().drop_first()
                },
            },
    {
        query_next(&mut self.0)
    }
}

impl<'a, C: PositionUnit, Item, Cap: Capacity> Query<'a, C, Item, Cap> {
    /// The items, with their points, that the query has still to hand out.
    pub closed spec fn remaining(self) -> Seq<(Point<C>, Item)> {
        self.0.remaining()
    }

    /// The query's own well-formedness.
    pub closed spec fn valid(self) -> bool {
        self.0.valid()
    }

    /// Create a query over `area` of the items of `tree`.
    pub fn new(tree: &'a QuadTree<C, Item, Cap>, area: Boundary<C>) -> (q: Self)
        ensures
            q.valid(),
            q.remaining() == tree.query_elements(area_encloses(area, tree.area()), area),
    {
        Query(QuerySharedData::new(tree, area))
    }

    /// The next item in the area, `None` once all were handed out.
    pub fn next(&mut self) -> (r: Option<&'a Item>)
        requires
            old(self).valid(),
        ensures
            final(self).valid(),
            match r {
                None => old(self).remaining().len() == 0 && final(self).remaining().len() == 0,
                Some(e) => {
                    &&& old(self).remaining().len() > 0
                    &&& *e == old(self).remaining()[0].1
                    &&& final(self).remaining() == old(self).remaining().drop_first()
                },
            },
    {
        match query_next(&mut self.0) {
            Some(e) => Some(&e.1),
            None => None,
        }
    }
}

/// A filter that keeps everything gives back the sequence.
proof fn lemma_filter_keeps_all<A>(s: Seq<A>, p: spec_fn(A) -> bool)
    requires
        forall|i: int| 0 <= i < s.len() ==> p(#[trigger] s[i]),
    ensures
        s.filter(p) == s,
    decreases s.len(),
{
    reveal(Seq::filter);
    if s.len() > 0 {
        lemma_filter_keeps_all(s.drop_last(), p);
        assert(s.drop_last().push(s.last()) =~= s);
    }
}

/// A filter that keeps nothing gives back the empty sequence.
proof fn lemma_filter_keeps_none<A>(s: Seq<A>, p: spec_fn(A) -> bool)
    requires
        forall|i: int| 0 <= i < s.len() ==> !p(#[trigger] s[i]),
    ensures
        s.filter(p) == Seq::<A>::empty(),
    decreases s.len(),
{
    reveal(Seq::filter);
    if s.len() > 0 {
        lemma_filter_keeps_none(s.drop_last(), p);
    }
}

impl<C: PositionUnit, Item, Cap: Capacity> QuadTree<C, Item, Cap> {
    /// Within a level that the area encloses, a query hands out everything.
    pub proof fn lemma_query_enclosed(self, area: Boundary<C>)
        ensures
            self.query_elements(true, area) == self.query_order(),
        decreases self,
    {
        lemma_filter_keeps_all(self.level_items(), keep::<C, Item>(area, true));
        match self.quadrants {
            None => {
                assert(self.query_elements(true, area) =~= self.query_order());
            },
            Some(q) => {
                q.q0.lemma_query_enclosed(area);
                q.q1.lemma_query_enclosed(area);
                q.q2.lemma_query_enclosed(area);
                q.q3.lemma_query_enclosed(area);
                assert(self.query_elements(true, area) =~= self.query_order());
            },
        }
    }

    /// The query order holds the same items as `elements`.
    pub proof fn lemma_query_order_items(self)
        ensures
            self.query_order().to_multiset() == self.elements().to_multiset(),
        decreases self,
    {
        broadcast use vstd::seq_lib::lemma_multiset_commutative;

        match self.quadrants {
            None => {
                assert(self.query_order() =~= self.level_items());
                assert(self.elements() =~= self.level_items());
            },
            Some(q) => {
                q.q0.lemma_query_order_items();
                q.q1.lemma_query_order_items();
                q.q2.lemma_query_order_items();
                q.q3.lemma_query_order_items();
                let a = q.q0.query_order() + q.q1.query_order() + q.q2.query_order()
                    + q.q3.query_order();
                let b = q.q0.elements() + q.q1.elements() + q.q2.elements() + q.q3.elements();
                assert(a.to_multiset() =~= b.to_multiset());
                assert(self.query_order().to_multiset() =~= self.elements().to_multiset());
            },
        }
    }

    /// What a query over `area` entering this level hands out is exactly the
    /// items whose points lie in the area, in query order, provided every
    /// subtree holds only items inside its area.
    pub proof fn lemma_query_selects(self, enclosed: bool, area: Boundary<C>)
        requires
            self.placed(),
            enclosed ==> area_encloses(area, self.area()),
        ensures
            self.query_elements(enclosed, area) == self.query_order().filter(
                keep::<C, Item>(area, false),
            ),
        decreases self, 0nat,
    {
        broadcast use Seq::filter_distributes_over_add;

        let p = keep::<C, Item>(area, false);
        if enclosed {
            self.lemma_query_enclosed(area);
            assert forall|i: int| 0 <= i < self.query_order().len() implies p(
                #[trigger] self.query_order()[i],
            ) by {
                crate::boundary::lemma_enclosed_point(area, self.boundary, self.query_order()[i].0);
            }
            lemma_filter_keeps_all(self.query_order(), p);
        } else {
            match self.quadrants {
                None => {
                    assert(self.query_elements(enclosed, area) =~= self.level_items().filter(p));
                    assert(self.query_order() =~= self.level_items());
                },
                Some(q) => {
                    Self::lemma_quadrant_query_selects(q.q0, area);
                    Self::lemma_quadrant_query_selects(q.q1, area);
                    Self::lemma_quadrant_query_selects(q.q2, area);
                    Self::lemma_quadrant_query_selects(q.q3, area);
                    let qo = q.q0.query_order() + q.q1.query_order() + q.q2.query_order()
                        + q.q3.query_order();
                    assert(self.query_order() == qo + self.level_items());
                    assert(qo.filter(p) == q.q0.query_order().filter(p) + q.q1.query_order().filter(p)
                        + q.q2.query_order().filter(p) + q.q3.query_order().filter(p));
                    assert(self.query_elements(enclosed, area) =~= self.query_order().filter(p));
                },
            }
        }
    }

    proof fn lemma_quadrant_query_selects(c: Self, area: Boundary<C>)
        requires
            c.placed(),
        ensures
            Self::quadrant_query(c, false, area) == c.query_order().filter(keep::<C, Item>(area, false)),
        decreases c, 1nat,
    {
        let p = keep::<C, Item>(area, false);
        if areas_overlap(area, c.boundary) {
            c.lemma_query_selects(area_encloses(area, c.boundary), area);
        } else {
            assert forall|i: int| 0 <= i < c.query_order().len() implies !p(
                #[trigger] c.query_order()[i],
            ) by {
                if in_area(area, c.query_order()[i].0) {
                    lemma_common_point_overlaps(area, c.boundary, c.query_order()[i].0);
                }
            }
            lemma_filter_keeps_none(c.query_order(), p);
        }
    }
}

/// How often `x` occurs in a filtered sequence.
proof fn lemma_filter_count<A>(s: Seq<A>, p: spec_fn(A) -> bool, x: A)
    ensures
        s.filter(p).to_multiset().count(x) == if p(x) {
            s.to_multiset().count(x)
        } else {
            0
        },
    decreases s.len(),
{
    broadcast use vstd::seq_lib::to_multiset_build;
    broadcast use vstd::multiset::group_multiset_axioms;

    reveal(Seq::filter);
    if s.len() == 0 {
        assert(s =~= Seq::<A>::empty());
        assert(s.filter(p) =~= Seq::<A>::empty());
        s.to_multiset_ensures();
    } else {
        lemma_filter_count(s.drop_last(), p, x);
        assert(s.drop_last().push(s.last()) =~= s);
    }
}

/// Sequences that hold the same items keep the same items under a filter.
proof fn lemma_filter_same_items<A>(a: Seq<A>, b: Seq<A>, p: spec_fn(A) -> bool)
    requires
        a.to_multiset() == b.to_multiset(),
    ensures
        a.filter(p).to_multiset() == b.filter(p).to_multiset(),
{
    assert forall|x: A| #[trigger] a.filter(p).to_multiset().count(x) == b.filter(
        p,
    ).to_multiset().count(x) by {
        lemma_filter_count(a, p, x);
        lemma_filter_count(b, p, x);
    }
    assert(a.filter(p).to_multiset() =~= b.filter(p).to_multiset());
}

impl<C: PositionUnit, Item, Cap: Capacity> QuadTree<C, Item, Cap> {
    /// A query hands out only items of the tree, each at most as often as
    /// the tree holds it, whatever the tree.
    pub proof fn lemma_query_within(self, enclosed: bool, area: Boundary<C>)
        ensures
            self.query_elements(enclosed, area).to_multiset().subset_of(
                self.query_order().to_multiset(),
            ),
        decreases self, 0nat,
    {
        broadcast use vstd::seq_lib::lemma_multiset_commutative;
        broadcast use vstd::multiset::group_multiset_axioms;

        let items = self.level_items();
        let f = items.filter(keep::<C, Item>(area, enclosed));
        assert forall|x: (Point<C>, Item)| #[trigger] f.to_multiset().count(x) <= items.to_multiset().count(
            x,
        ) by {
            lemma_filter_count(items, keep::<C, Item>(area, enclosed), x);
        }
        match self.quadrants {
            None => {
                assert(self.query_elements(enclosed, area) =~= f);
                assert(self.query_order() =~= items);
            },
            Some(q) => {
                Self::lemma_quadrant_query_within(q.q0, enclosed, area);
                Self::lemma_quadrant_query_within(q.q1, enclosed, area);
                Self::lemma_quadrant_query_within(q.q2, enclosed, area);
                Self::lemma_quadrant_query_within(q.q3, enclosed, area);
                let e0 = Self::quadrant_query(q.q0, enclosed, area);
                let e1 = Self::quadrant_query(q.q1, enclosed, area);
                let e2 = Self::quadrant_query(q.q2, enclosed, area);
                let e3 = Self::quadrant_query(q.q3, enclosed, area);
                let qe = self.query_elements(enclosed, area);
                let qo = self.query_order();
                assert(qe == e0 + e1 + e2 + e3 + f);
                assert(qo == q.q0.query_order() + q.q1.query_order() + q.q2.query_order()
                    + q.q3.query_order() + items);
                assert forall|x: (Point<C>, Item)| #[trigger] qe.to_multiset().count(x)
                    <= qo.to_multiset().count(x) by {
                    assert(e0.to_multiset().count(x) <= q.q0.query_order().to_multiset().count(x));
                    assert(e1.to_multiset().count(x) <= q.q1.query_order().to_multiset().count(x));
                    assert(e2.to_multiset().count(x) <= q.q2.query_order().to_multiset().count(x));
                    assert(e3.to_multiset().count(x) <= q.q3.query_order().to_multiset().count(x));
                }
            },
        }
    }

    proof fn lemma_quadrant_query_within(c: Self, enclosed: bool, area: Boundary<C>)
        ensures
            Self::quadrant_query(c, enclosed, area).to_multiset().subset_of(
                c.query_order().to_multiset(),
            ),
        decreases c, 1nat,
    {
        broadcast use vstd::multiset::group_multiset_axioms;

        if enclosed || areas_overlap(area, c.area()) {
            c.lemma_query_within(enclosed || area_encloses(area, c.area()), area);
        } else {
            Seq::<(Point<C>, Item)>::empty().to_multiset_ensures();
            assert(Self::quadrant_query(c, enclosed, area) =~= Seq::<(Point<C>, Item)>::empty());
        }
    }
}

/// Whatever the tree, a query over any area hands out only items that the
/// tree holds, each at most as often as the tree holds it.
pub proof fn law_query_hands_out_stored_items<C: PositionUnit, Item, Cap: Capacity>(
    tree: QuadTree<C, Item, Cap>,
    area: Boundary<C>,
)
    ensures
        tree.query_elements(area_encloses(area, tree.area()), area).to_multiset().subset_of(
            tree.elements().to_multiset(),
        ),
{
    tree.lemma_query_within(area_encloses(area, tree.area()), area);
    tree.lemma_query_order_items();
}

/// A query over `area` hands out exactly the items of the tree whose points
/// lie in the area, each as often as the tree holds it, when each subtree
/// holds only items inside its own area (as every tree built with
/// `new_with_*`, `insert_at` and `insert` does). In order, it hands them out
/// as they come in `query_order`, which holds the same items as `elements`.
pub proof fn law_query_is_exact<C: PositionUnit, Item, Cap: Capacity>(
    tree: QuadTree<C, Item, Cap>,
    area: Boundary<C>,
)
    requires
        tree.placed(),
    ensures
        tree.query_elements(area_encloses(area, tree.area()), area) == tree.query_order().filter(
            keep::<C, Item>(area, false),
        ),
        tree.query_order().to_multiset() == tree.elements().to_multiset(),
        tree.query_elements(area_encloses(area, tree.area()), area).to_multiset()
            == tree.elements().filter(keep::<C, Item>(area, false)).to_multiset(),
{
    tree.lemma_query_selects(area_encloses(area, tree.area()), area);
    tree.lemma_query_order_items();
    lemma_filter_same_items(tree.query_order(), tree.elements(), keep::<C, Item>(area, false));
}

/// A query over the whole area of a tree built with `new_with_*`,
/// `insert_at` and `insert` hands out every item of the tree, each once.
pub proof fn law_query_whole_area<C: PositionUnit, Item, Cap: Capacity>(tree: QuadTree<C, Item, Cap>)
    requires
        tree.placed(),
    ensures
        tree.query_elements(area_encloses(tree.area(), tree.area()), tree.area()) == tree.query_order(),
        tree.query_elements(area_encloses(tree.area(), tree.area()), tree.area()).to_multiset()
            == tree.elements().to_multiset(),
{
    tree.lemma_query_enclosed(tree.area());
    tree.lemma_query_order_items();
}

/// Every element of `b` lies in `area` when `b` holds the elements of `a`,
/// all in `area`, and one more that lies in `area`.
proof fn lemma_all_in_area_grows<C: PositionUnit, Item>(
    a: Seq<(Point<C>, Item)>,
    b: Seq<(Point<C>, Item)>,
    x: (Point<C>, Item),
    area: Boundary<C>,
)
    requires
        forall|i: int| 0 <= i < a.len() ==> in_area(area, (#[trigger] a[i]).0),
        in_area(area, x.0),
        b.to_multiset() == a.to_multiset().insert(x),
    ensures
        forall|i: int| 0 <= i < b.len() ==> in_area(area, (#[trigger] b[i]).0),
{
    broadcast use vstd::seq_lib::to_multiset_contains;
    broadcast use vstd::multiset::group_multiset_axioms;

    assert forall|i: int| 0 <= i < b.len() implies in_area(area, (#[trigger] b[i]).0) by {
        let y = b[i];
        assert(b.contains(y));
        assert(b.to_multiset().count(y) > 0);
        if y != x {
            assert(a.to_multiset().count(y) > 0);
            assert(a.contains(y));
            let j = choose|j: int| 0 <= j < a.len() && a[j] == y;
            assert(in_area(area, a[j].0));
        }
    }
}

impl<C: PositionUnit, Item, Cap: Capacity> QuadTree<C, Item, Cap> {
    /// Inserting an item at a point of the area keeps every subtree holding
    /// only items inside its area: on its way down the item goes from a
    /// level to the quadrant that covers its point.
    pub proof fn lemma_insert_keeps_placed(self, new: Self, p: Point<C>, v: Item)
        requires
            self.wf(),
            self.placed(),
            in_area(self.area(), p),
            self.inserted(new, p, v),
        ensures
            new.placed(),
        decreases self,
    {
        new.lemma_inserted_elements(self, p, v);
        self.lemma_query_order_items();
        new.lemma_query_order_items();
        lemma_all_in_area_grows(self.query_order(), new.query_order(), (p, v), self.boundary);
        if self.level_items().len() < self.capacity.cap() {
        } else {
            let k = route_index(self.boundary, p);
            let nq = new.quadrants->0;
            match self.quadrants {
                Some(oq) => {
                    if k == 0 {
                        lemma_routed_quadrant_contains(self.boundary, oq.q0.boundary, p);
                        oq.q0.lemma_insert_keeps_placed(nq.q0, p, v);
                    } else if k == 1 {
                        lemma_routed_quadrant_contains(self.boundary, oq.q1.boundary, p);
                        oq.q1.lemma_insert_keeps_placed(nq.q1, p, v);
                    } else if k == 2 {
                        lemma_routed_quadrant_contains(self.boundary, oq.q2.boundary, p);
                        oq.q2.lemma_insert_keeps_placed(nq.q2, p, v);
                    } else {
                        lemma_routed_quadrant_contains(self.boundary, oq.q3.boundary, p);
                        oq.q3.lemma_insert_keeps_placed(nq.q3, p, v);
                    }
                },
                None => {
                    Self::lemma_fresh_placed(self, nq.q0, 0, p, v);
                    Self::lemma_fresh_placed(self, nq.q1, 1, p, v);
                    Self::lemma_fresh_placed(self, nq.q2, 2, p, v);
                    Self::lemma_fresh_placed(self, nq.q3, 3, p, v);
                },
            }
        }
    }

    proof fn lemma_fresh_placed(parent: Self, c: Self, i: int, p: Point<C>, v: Item)
        requires
            parent.fresh_quadrant(c, i, p, v),
            in_area(parent.boundary, p),
        ensures
            c.placed(),
    {
        if i == route_index(parent.boundary, p) {
            lemma_routed_quadrant_contains(parent.boundary, c.boundary, p);
        }
        assert(c.query_order() =~= c.level_items());
    }
}

/// What a read gives back of a write: once `(p, v)` was inserted at a point
/// of the area of a tree whose subtrees hold only items inside their areas
/// (every tree built with `new_with_*` and `insert_at`), the subtrees still
/// do so, the iteration over all items hands it out, and so does any query
/// over an area that contains `p`.
pub proof fn law_inserted_item_is_found<C: PositionUnit, Item, Cap: Capacity>(
    old: QuadTree<C, Item, Cap>,
    new: QuadTree<C, Item, Cap>,
    p: Point<C>,
    v: Item,
    area: Boundary<C>,
)
    requires
        old.wf(),
        old.placed(),
        in_area(old.area(), p),
        old.inserted(new, p, v),
        in_area(area, p),
    ensures
        new.placed(),
        new.area() == old.area(),
        new.elements().contains((p, v)),
        new.query_elements(area_encloses(area, new.area()), area).contains((p, v)),
{
    broadcast use vstd::seq_lib::to_multiset_contains;
    broadcast use vstd::multiset::group_multiset_axioms;
    broadcast use Seq::lemma_filter_contains;

    new.lemma_inserted_elements(old, p, v);
    old.lemma_insert_keeps_placed(new, p, v);
    law_query_is_exact(new, area);
    let x = (p, v);
    assert(new.elements().to_multiset().count(x) > 0);
    assert(new.query_order().to_multiset().count(x) > 0);
    assert(new.query_order().contains(x));
    let j = choose|j: int| 0 <= j < new.query_order().len() && new.query_order()[j] == x;
    assert(keep::<C, Item>(area, false)(new.query_order()[j]));
}

/// Inserting with `insert_at` never stores a point outside the tree's area:
/// if every item lay inside the area before, every item does after.
pub proof fn law_items_stay_in_area<C: PositionUnit, Item, Cap: Capacity>(
    old: QuadTree<C, Item, Cap>,
    new: QuadTree<C, Item, Cap>,
    p: Point<C>,
    v: Item,
    r: Result<(), QuadTreeError<C>>,
)
    requires
        insert_at_outcome(old, new, p, v, r),
        forall|i: int|
            0 <= i < old.elements().len() ==> in_area(old.area(), (#[trigger] old.elements()[i]).0),
    ensures
        new.area() == old.area(),
        forall|i: int|
            0 <= i < new.elements().len() ==> in_area(new.area(), (#[trigger] new.elements()[i]).0),
{
    if r is Ok {
        new.lemma_inserted_elements(old, p, v);
        lemma_all_in_area_grows(old.elements(), new.elements(), (p, v), old.area());
    }
}

} // verus!
