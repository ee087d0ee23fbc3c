use qutee::{AsPoint, Boundary, ConstCap, DynCap, Point, QuadTree, QuadTreeError};

fn contains_case(x: usize, y: usize) -> bool {
    let b = Boundary::new(Point::new(2usize, 2), 2, 2);
    let p = Point { x, y };
    b.contains(&p)
}

#[test]
fn boundary_contains_point() {
    assert!(contains_case(3, 3));
    assert!(contains_case(2, 2));
    assert!(!contains_case(1, 3));
    assert!(!contains_case(5, 3));
    assert!(!contains_case(3, 1));
    assert!(!contains_case(3, 5));
}

fn overlaps_case(x: isize, y: isize, width: isize, height: isize) -> bool {
    let a = Boundary::new(Point::new(1, 1), 4, 4);
    let b = Boundary::new(Point::new(x, y), width, height);
    a.overlaps(&b)
}

#[test]
fn boundary_overlaps() {
    assert!(overlaps_case(2, 2, 1, 1));
    assert!(overlaps_case(0, 0, 6, 6));
    assert!(overlaps_case(0, 2, 3, 1));
    assert!(overlaps_case(4, 2, 3, 1));
    assert!(overlaps_case(2, 0, 1, 3));
    assert!(overlaps_case(2, 4, 1, 3));
    assert!(!overlaps_case(-1, 2, 1, 1));
    assert!(!overlaps_case(6, 2, 1, 1));
    assert!(!overlaps_case(2, -1, 1, 1));
    assert!(!overlaps_case(2, 6, 1, 1));
    assert!(overlaps_case(0, 2, 1, 1));
    assert!(overlaps_case(5, 2, 1, 1));
    assert!(overlaps_case(2, 0, 1, 1));
    assert!(overlaps_case(2, 5, 1, 1));
}

#[test]
fn boundary_encloses() {
    let a = Boundary::new(Point::new(1, 1), 4, 4);
    assert!(a.encloses(&Boundary::new(Point::new(1, 1), 4, 4)));
    assert!(a.encloses(&Boundary::new(Point::new(2, 2), 1, 1)));
    assert!(!a.encloses(&Boundary::new(Point::new(0, 2), 1, 1)));
    assert!(!a.encloses(&Boundary::new(Point::new(2, 2), 4, 1)));
}

#[test]
fn tuple_to_point() {
    let p: Point<i32> = (10, 10).into();
    assert_eq!(p, Point { x: 10, y: 10 });
    let q = Point::new(3u8, 4);
    assert_eq!(q.x, 3);
    assert_eq!(q.y, 4);
}

#[test]
fn between_points_keeps_corners() {
    let b = Boundary::between_points(Point::new(2, 1), Point::new(8, 9));
    assert_eq!(b.p1, Point::new(2, 1));
    assert_eq!(b.p2, Point::new(8, 9));
    assert_eq!(b, Boundary::new(Point::new(2, 1), 6, 8));
}

#[test]
fn split_odd_width_covers_the_area() {
    let split = Boundary::new(Point::new(0u32, 0), 5, 7).split();
    assert_eq!(split[0], Boundary::between_points(Point::new(0, 0), Point::new(2, 3)));
    assert_eq!(split[1], Boundary::between_points(Point::new(2, 0), Point::new(5, 3)));
    assert_eq!(split[2], Boundary::between_points(Point::new(0, 3), Point::new(2, 7)));
    assert_eq!(split[3], Boundary::between_points(Point::new(2, 3), Point::new(5, 7)));
}

#[test]
fn split_negative_coordinates() {
    let split = Boundary::new(Point::new(-10i8, -10), 20, 20).split();
    assert_eq!(split[0], Boundary::between_points(Point::new(-10, -10), Point::new(0, 0)));
    assert_eq!(split[3], Boundary::between_points(Point::new(0, 0), Point::new(10, 10)));
}

#[test]
fn split_extreme_span_without_overflow() {
    let split = Boundary::between_points(Point::new(i8::MIN, 0), Point::new(i8::MAX, 0)).split();
    assert_eq!(split[0].p2.x, -1);
    assert_eq!(split[1].p1.x, -1);
    assert_eq!(split[1].p2.x, 127);
}

#[test]
fn text_of_points_and_boundaries() {
    assert_eq!(Point::new(-5, 12).to_string(), "(-5,12)");
    assert_eq!(Point::new(0u8, 255).to_string(), "(0,255)");
    assert_eq!(Point::new(i64::MIN, i64::MAX).to_string(), "(-9223372036854775808,9223372036854775807)");
    assert_eq!(Point::new(u64::MAX, 10).to_string(), "(18446744073709551615,10)");
    assert_eq!(
        Boundary::between_points(Point::new(1, 2), Point::new(2, 3)).to_string(),
        "(1,2),(2,3)"
    );
}

#[test]
fn error_text_with_negative_numbers() {
    let mut tree = QuadTree::new_with_dyn_cap(Boundary::new(Point::new(0, 0), 10, 10), 4);
    let e = tree.insert_at(Point::new(-1, -2), "x").unwrap_err();
    assert_eq!(e.to_string(), "point (-1,-2) is outside of area (0,0),(10,10)");
    assert_eq!(
        e,
        QuadTreeError::OutOfBounds(Boundary::new(Point::new(0, 0), 10, 10), Point::new(-1, -2))
    );
}

#[test]
fn refused_insert_leaves_tree_unchanged() {
    let mut tree = QuadTree::new_with_dyn_cap(Boundary::new(Point::new(0, 0), 10, 10), 1);
    assert!(tree.insert_at(Point::new(1, 1), 1).is_ok());
    assert!(tree.insert_at(Point::new(11, 1), 2).is_err());
    assert!(tree.insert_at(Point::new(1, -1), 3).is_err());
    assert!(tree.quadrant(0).is_none());
    let mut all = Vec::new();
    let mut it = tree.iter();
    while let Some(i) = it.next() {
        all.push(*i);
    }
    assert_eq!(all, vec![1]);
}

#[test]
fn unchecked_insert_stores_outside_points() {
    let mut tree = QuadTree::<i32, i32, ConstCap<2>>::new_with_const_cap(Boundary::between_points(
        Point::new(0, 0),
        Point::new(10, 10),
    ));
    tree.insert_at_unchecked(Point::new(5, 5), 1);
    tree.insert_at_unchecked(Point::new(50, 50), 2);
    let mut n = 0;
    let mut it = tree.iter();
    while it.next().is_some() {
        n += 1;
    }
    assert_eq!(n, 2);
}

#[test]
fn iteration_order_level_before_quadrants() {
    let mut tree = QuadTree::new_with_dyn_cap(Boundary::new(Point::new(0, 0), 10, 10), 1);
    assert!(tree.insert_at(Point::new(1, 1), 'a').is_ok());
    assert!(tree.insert_at(Point::new(2, 2), 'b').is_ok());
    assert!(tree.insert_at(Point::new(7, 7), 'c').is_ok());
    let mut it = tree.iter();
    assert_eq!(it.next(), Some(&'a'));
    assert_eq!(it.next(), Some(&'b'));
    assert_eq!(it.next(), Some(&'c'));
    assert_eq!(it.next(), None);
    assert_eq!(it.next(), None);
    let mut pts = tree.iter_points();
    assert_eq!(pts.next(), Some(&(Point::new(1, 1), 'a')));
    assert_eq!(pts.next(), Some(&(Point::new(2, 2), 'b')));
    assert_eq!(pts.next(), Some(&(Point::new(7, 7), 'c')));
    assert_eq!(pts.next(), None);
}

#[test]
fn query_order_quadrants_before_level() {
    let mut tree = QuadTree::new_with_dyn_cap(Boundary::new(Point::new(0, 0), 10, 10), 1);
    assert!(tree.insert_at(Point::new(1, 1), 'a').is_ok());
    assert!(tree.insert_at(Point::new(2, 2), 'b').is_ok());
    assert!(tree.insert_at(Point::new(7, 7), 'c').is_ok());
    let mut q = tree.query(Boundary::new(Point::new(0, 0), 10, 10));
    assert_eq!(q.next(), Some(&'b'));
    assert_eq!(q.next(), Some(&'c'));
    assert_eq!(q.next(), Some(&'a'));
    assert_eq!(q.next(), None);
    let mut q = tree.query_points(Boundary::new(Point::new(1, 1), 2, 2));
    assert_eq!(q.next(), Some(&(Point::new(2, 2), 'b')));
    assert_eq!(q.next(), Some(&(Point::new(1, 1), 'a')));
    assert_eq!(q.next(), None);
}

#[test]
fn query_matches_filter_on_even_spans() {
    let mut tree = QuadTree::new_with_dyn_cap(Boundary::new(Point::new(0u16, 0), 64, 64), 3);
    let mut all = Vec::new();
    let mut k: u32 = 0;
    for x in 0..=64u16 {
        for y in (0..=64u16).step_by(7) {
            k += 1;
            assert!(tree.insert_at(Point::new(x, (y + x) % 65), k).is_ok());
            all.push((Point::new(x, (y + x) % 65), k));
        }
    }
    let areas = [
        Boundary::new(Point::new(3, 5), 20, 11),
        Boundary::new(Point::new(0, 0), 64, 64),
        Boundary::new(Point::new(32, 32), 0, 0),
        Boundary::new(Point::new(60, 0), 10, 64),
    ];
    for area in areas.iter() {
        let mut found = Vec::new();
        let mut q = tree.query_points(*area);
        while let Some(e) = q.next() {
            found.push(e.1);
        }
        found.sort();
        let mut expected: Vec<u32> = all
            .iter()
            .filter(|e| area.contains(&e.0))
            .map(|e| e.1)
            .collect();
        expected.sort();
        assert_eq!(found, expected);
    }
}

#[test]
fn odd_span_edge_point_is_found_by_query() {
    // A level of width 5 splits at 2: the right quadrants reach to 5.
    let mut tree = QuadTree::new_with_dyn_cap(Boundary::new(Point::new(0, 0), 5, 5), 1);
    assert!(tree.insert_at(Point::new(0, 0), 1).is_ok());
    assert!(tree.insert_at(Point::new(5, 5), 2).is_ok());
    assert_eq!(
        tree.quadrant(3).unwrap().boundary(),
        &Boundary::between_points(Point::new(2, 2), Point::new(5, 5))
    );
    let mut q = tree.query(Boundary::new(Point::new(5, 5), 0, 0));
    assert_eq!(q.next(), Some(&2));
    assert_eq!(q.next(), None);
    let mut q = tree.query(Boundary::between_points(Point::new(2, 2), Point::new(4, 4)));
    assert_eq!(q.next(), None);
}

#[test]
fn query_matches_filter_on_odd_spans() {
    let mut tree = QuadTree::new_with_dyn_cap(Boundary::new(Point::new(-7i32, -3), 37, 23), 2);
    let mut all = Vec::new();
    let mut k = 0;
    for x in -7..=30 {
        for y in -3..=20 {
            if (x * 7 + y * 3) % 5 == 0 {
                k += 1;
                assert!(tree.insert_at(Point::new(x, y), k).is_ok());
                all.push((Point::new(x, y), k));
            }
        }
    }
    for x0 in [-7, -1, 4, 13, 29, 30] {
        for y0 in [-3, 0, 7, 19, 20] {
            for (w, h) in [(0, 0), (1, 2), (5, 3), (40, 40)] {
                let area = Boundary::new(Point::new(x0, y0), w, h);
                let mut found = Vec::new();
                let mut q = tree.query(area);
                while let Some(v) = q.next() {
                    found.push(*v);
                }
                found.sort();
                let mut expected: Vec<i32> =
                    all.iter().filter(|e| area.contains(&e.0)).map(|e| e.1).collect();
                expected.sort();
                assert_eq!(found, expected);
            }
        }
    }
}

#[test]
fn capacities() {
    let t = QuadTree::<u8, (), DynCap>::new_with_capacity(
        Boundary::new(Point::new(0, 0), 10, 10),
        DynCap::new(7),
    );
    assert_eq!(t.capacity(), 7);
    let t = QuadTree::<u8, (), ConstCap<16>>::new_with_const_cap(Boundary::new(Point::new(0, 0), 10, 10));
    assert_eq!(t.capacity(), 16);
}

#[test]
fn level_never_exceeds_capacity() {
    let mut tree = QuadTree::new_with_dyn_cap(Boundary::new(Point::new(0i64, 0), 1024, 1024), 2);
    for i in 0..200i64 {
        assert!(tree.insert_at(Point::new((i * 37) % 1025, (i * 91) % 1025), i).is_ok());
    }
    fn check(t: &QuadTree<i64, i64>) -> usize {
        let here = t.items().map(|v| v.len()).unwrap_or(0);
        assert!(here <= 2);
        let mut n = here;
        if t.quadrant(0).is_some() {
            assert_eq!(here, 2);
            for i in 0..4 {
                let q = t.quadrant(i).unwrap();
                assert_eq!(q.boundary(), &t.boundary().split()[i]);
                n += check(q);
            }
            assert!(t.quadrant(4).is_none());
        }
        n
    }
    assert_eq!(check(&tree), 200);
}

struct Marker {
    at: (i32, i32),
    name: &'static str,
}

impl AsPoint<i32> for Marker {
    fn as_point(&self) -> Point<i32> {
        self.at.into()
    }
}

#[test]
fn insert_uses_the_items_point() {
    let mut tree = QuadTree::new_with_dyn_cap(Boundary::new(Point::new(0, 0), 10, 10), 1);
    assert!(tree.insert(Marker { at: (1, 1), name: "one" }).is_ok());
    assert!(tree.insert(Marker { at: (20, 1), name: "far" }).is_err());
    tree.insert_unchecked(Marker { at: (9, 9), name: "nine" });
    let mut q = tree.query_points(Boundary::new(Point::new(8, 8), 2, 2));
    let e = q.next().unwrap();
    assert_eq!(e.0, Point::new(9, 9));
    assert_eq!(e.1.name, "nine");
    assert!(q.next().is_none());
}

#[test]
fn inserted_item_is_found_by_query() {
    let mut tree = QuadTree::new_with_dyn_cap(Boundary::new(Point::new(-16, -16), 32, 32), 1);
    for i in -16..=16 {
        assert!(tree.insert_at(Point::new(i, -i), i).is_ok());
        let mut q = tree.query(Boundary::new(Point::new(i, -i), 0, 0));
        assert_eq!(q.next(), Some(&i));
        assert_eq!(q.next(), None);
    }
}

#[test]
fn clone_keeps_the_tree() {
    let mut tree = QuadTree::new_with_dyn_cap(Boundary::new(Point::new(0, 0), 8, 8), 1);
    for i in 0..=8 {
        assert!(tree.insert_at(Point::new(i, 8 - i), format!("item {i}")).is_ok());
    }
    let copy = tree.clone();
    assert!(copy == tree);
    let mut a = tree.iter_points();
    let mut b = copy.iter_points();
    loop {
        match (a.next(), b.next()) {
            (Some(x), Some(y)) => assert_eq!(x, y),
            (None, None) => break,
            _ => panic!("the clone holds a different number of items"),
        }
    }
}

#[test]
fn cloned_iterators_resume_where_they_were() {
    let mut tree = QuadTree::new_with_dyn_cap(Boundary::new(Point::new(0, 0), 10, 10), 1);
    assert!(tree.insert_at(Point::new(1, 1), 'a').is_ok());
    assert!(tree.insert_at(Point::new(2, 2), 'b').is_ok());
    assert!(tree.insert_at(Point::new(7, 7), 'c').is_ok());
    let mut it = tree.iter();
    assert_eq!(it.next(), Some(&'a'));
    let mut again = it.clone();
    assert_eq!(it.next(), Some(&'b'));
    assert_eq!(again.next(), Some(&'b'));
    let mut q = tree.query_points(Boundary::new(Point::new(0, 0), 10, 10));
    assert_eq!(q.next(), Some(&(Point::new(2, 2), 'b')));
    let mut q2 = q.clone();
    assert_eq!(q.next(), q2.next());
    assert_eq!(q.next(), q2.next());
    assert_eq!(q.next(), None);
    assert_eq!(q2.next(), None);
}
