use vstd::prelude::*;

use super::QuadTree;
use crate::capacity::Capacity;
use crate::coordinate::PositionUnit;
use crate::point::Point;

verus! {

/// One level of the tree that an iteration is walking through: the next
/// item of the level to hand out and the next quadrant to enter.
#[derive(Clone)]
struct IterStackItem<'a, C, Item, Cap> {
    node: &'a QuadTree<C, Item, Cap>,
    item_idx: usize,
    quad_idx: usize,
}

/// The state shared by `Iter` and `IterPoints`: the levels being walked,
/// the innermost last.
#[derive(Clone)]
struct IterSharedData<'a, C, Item, Cap> {
    stack: Vec<IterStackItem<'a, C, Item, Cap>>,
}

/// Iterator over all items and their points.
#[derive(Clone)]
pub struct IterPoints<'a, C, Item, Cap>(IterSharedData<'a, C, Item, Cap>);

/// Iterator over all items.
#[derive(Clone)]
pub struct Iter<'a, C, Item, Cap>(IterSharedData<'a, C, Item, Cap>);

impl<C: PositionUnit, Item, Cap: Capacity> QuadTree<C, Item, Cap> {
    /// Get an iterator over all items.
    pub fn iter(&self) -> (it: Iter<'_, C, Item, Cap>)
        ensures
            it.valid(),
            it.remaining() == self.elements(),
    {
        Iter::new(self)
    }

    /// Get an iterator over all items and their points.
    pub fn iter_points(&self) -> (it: IterPoints<'_, C, Item, Cap>)
        ensures
            it.valid(),
            it.remaining() == self.elements(),
    {
        IterPoints::new(self)
    }
}

impl<'a, C: PositionUnit, Item, Cap: Capacity> IterStackItem<'a, C, Item, Cap> {
    spec fn valid(self) -> bool {
        &&& self.item_idx <= self.node.level_items().len()
        &&& self.quad_idx <= 4
    }

    /// What is left to hand out from this level and its quadrants.
    spec fn rest(self) -> Seq<(Point<C>, Item)> {
        self.node.level_items().skip(self.item_idx as int) + self.node.elements_from_quadrant(
            self.quad_idx as int,
        )
    }

    spec fn work(self) -> nat {
        1 + (self.node.level_items().len() - self.item_idx) as nat
            + self.node.weight_from_quadrant(self.quad_idx as int)
    }
}

/// What is left to hand out from a stack of levels, innermost first.
spec fn stack_rest<'a, C: PositionUnit, Item, Cap: Capacity>(
    s: Seq<IterStackItem<'a, C, Item, Cap>>,
) -> Seq<(Point<C>, Item)>
    decreases s.len(),
{
    if s.len() == 0 {
        Seq::empty()
    } else {
        s.last().rest() + stack_rest(s.drop_last())
    }
}

spec fn stack_work<'a, C: PositionUnit, Item, Cap: Capacity>(
    s: Seq<IterStackItem<'a, C, Item, Cap>>,
) -> nat
    decreases s.len(),
{
    if s.len() == 0 {
        0
    } else {
        s.last().work() + stack_work(s.drop_last())
    }
}

impl<'a, C: PositionUnit, Item, Cap: Capacity> IterSharedData<'a, C, Item, Cap> {
    spec fn valid(self) -> bool {
        forall|i: int| 0 <= i < self.stack@.len() ==> (#[trigger] self.stack@[i]).valid()
    }

    spec fn remaining(self) -> Seq<(Point<C>, Item)> {
        stack_rest(self.stack@)
    }

    fn new(tree: &'a QuadTree<C, Item, Cap>) -> (r: Self)
        ensures
            r.valid(),
            r.remaining() == tree.elements(),
    {
        let mut stack = Vec::new();
        stack.push(IterStackItem { node: tree, item_idx: 0, quad_idx: 0 });
        proof {
            tree.lemma_elements_split();
            assert(tree.level_items().skip(0) =~= tree.level_items());
            assert(stack@.drop_last() =~= Seq::<IterStackItem<'a, C, Item, Cap>>::empty());
            assert(stack_rest(stack@.drop_last()) == Seq::<(Point<C>, Item)>::empty());
            assert(stack_rest(stack@) =~= tree.elements());
        }
        IterSharedData { stack }
    }

}

impl<'a, C: PositionUnit, Item, Cap: Capacity> IterPoints<'a, C, Item, Cap> {
    /// The items, with their points, that the iterator has still to hand out.
    pub closed spec fn remaining(self) -> Seq<(Point<C>, Item)> {
        self.0.remaining()
    }

    /// The iterator's own well-formedness.
    pub closed spec fn valid(self) -> bool {
        self.0.valid()
    }

    /// Create an iterator over all items of `tree` and their points.
    pub fn new(tree: &'a QuadTree<C, Item, Cap>) -> (it: Self)
        ensures
            it.valid(),
            it.remaining() == tree.elements(),
    {
        IterPoints(IterSharedData::new(tree))
    }

    /// The next item and its point, `None` once all were handed out.
    pub fn next(&mut self) -> (r: Option<&'a (Point<C>, Item)>)
        requires
            old(self).valid(),
        ensures
            final(self).valid(),
            match r {
                None => old(self).remaining().len() == 0 && final(self).remaining().len() == 0,
                Some(e) => {
                    &&& old(self).remaining().len() > 0
                    &&& *e == old(self).remaining()[0]
                    &&& final(self).remaining() == old(self).remaining().drop_first()
                },
            },
    {
        iter_next(&mut self.0)
    }
}

/// Hand out the next item and its point: the items of a level come
/// before those of its quadrants.
fn iter_next<'a, C: PositionUnit, Item, Cap: Capacity>(
    data: &mut IterSharedData<'a, C, Item, Cap>,
) -> (r: Option<&'a (Point<C>, Item)>)
    requires
        old(data).valid(),
    ensures
        final(data).valid(),
        match r {
            None => old(data).remaining().len() == 0 && final(data).remaining().len() == 0,
            Some(e) => {
                &&& old(data).remaining().len() > 0
                &&& *e == old(data).remaining()[0]
                &&& final(data).remaining() == old(data).remaining().drop_first()
            },
        },
{
    loop
        invariant
            data.valid(),
            data.remaining() == old(data).remaining(),
        decreases stack_work(data.stack@),
    {
        let ghost s0 = data.stack@;
        let f = match data.stack.pop() {
            Some(f) => f,
            None => {
                assert(s0 =~= Seq::<IterStackItem<'a, C, Item, Cap>>::empty());
                return None;
            },
        };
        assert(s0.last() == f);
        assert(s0.drop_last() == data.stack@);
        assert(s0[s0.len() - 1].valid());
        assert(data.valid());
        let node: &'a QuadTree<C, Item, Cap> = f.node;
        let len = node.level_len();
        if f.item_idx < len {
            let e = node.level_item(f.item_idx);
            let ghost items = node.level_items();
            data.stack.push(IterStackItem { node, item_idx: f.item_idx + 1, quad_idx: f.quad_idx });
            proof {
                let s1 = data.stack@;
                assert(s1.drop_last() =~= s0.drop_last());
                assert(items.skip(f.item_idx as int) =~= seq![items[f.item_idx as int]]
                    + items.skip(f.item_idx + 1));
                assert(f.rest() == seq![*e] + s1.last().rest());
                assert(stack_rest(s0) =~= seq![*e] + stack_rest(s1));
                assert(stack_rest(s1) =~= stack_rest(s0).drop_first());
            }
            return Some(e);
        }
        if node.is_split_exec() && f.quad_idx < 4 {
            let child = node.quadrant_ref(f.quad_idx);
            data.stack.push(IterStackItem { node, item_idx: f.item_idx, quad_idx: f.quad_idx + 1 });
            data.stack.push(IterStackItem { node: child, item_idx: 0, quad_idx: 0 });
            proof {
                let s1 = data.stack@;
                node.lemma_from_quadrant_step(f.quad_idx as int);
                child.lemma_elements_split();
                assert(s1.drop_last().drop_last() =~= s0.drop_last());
                assert(s1.drop_last().last().rest() =~= node.elements_from_quadrant(
                    f.quad_idx + 1,
                ));
                assert(f.rest() =~= child.elements() + node.elements_from_quadrant(
                    f.quad_idx + 1,
                ));
                assert(child.level_items().skip(0) =~= child.level_items());
                assert(s1.last().rest() == child.elements());
                assert(stack_rest(s1.drop_last()) == s1.drop_last().last().rest() + stack_rest(
                    s0.drop_last(),
                ));
                assert(stack_rest(s0) == f.rest() + stack_rest(s0.drop_last()));
                assert(stack_rest(s1) =~= stack_rest(s0));
                assert(stack_work(s1.drop_last()) == s1.drop_last().last().work() + stack_work(
                    s0.drop_last(),
                ));
                assert(stack_work(s1) < stack_work(s0));
                assert forall|i: int| 0 <= i < s1.len() implies (#[trigger] s1[i]).valid() by {
                    if i < s0.len() - 1 {
                        assert(s1[i] == s0[i]);
                    }
                }
            }
        } else {
            proof {
                assert(f.rest() =~= Seq::<(Point<C>, Item)>::empty());
                assert(stack_rest(s0) =~= stack_rest(data.stack@));
            }
        }
    }
}

impl<'a, C: PositionUnit, Item, Cap: Capacity> Iter<'a, C, Item, Cap> {
    /// The items, with their points, that the iterator has still to hand out.
    pub closed spec fn remaining(self) -> Seq<(Point<C>, Item)> {
        self.0.remaining()
    }

    /// The iterator's own well-formedness.
    pub closed spec fn valid(self) -> bool {
        self.0.valid()
    }

    /// Create an iterator over all items of `tree`.
    pub fn new(tree: &'a QuadTree<C, Item, Cap>) -> (it: Self)
        ensures
            it.valid(),
            it.remaining() == tree.elements(),
    {
        Iter(IterSharedData::new(tree))
    }

    /// The next item, `None` once all were handed out.
    pub fn next(&mut self) -> (r: Option<&'a Item>)
        requires
            old(self).valid(),
        ensures
            final(self).valid(),
            match r {
                None => old(self).remaining().len() == 0 && final(self).remaining().len() == 0,
                Some(e) => {
                    &&& old(self).remaining().len() > 0
                    &&& *e == old(self).remaining()[0].1
                    &&& final(self).remaining() == old(self).remaining().drop_first()
                },
            },
    {
        match iter_next(&mut self.0) {
            Some(e) => Some(&e.1),
            None => None,
        }
    }
}

} // verus!
