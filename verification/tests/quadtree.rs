use qutee::{AsPoint, Boundary, ConstCap, Point, QuadTree, QuadTreeError};

#[test]
fn split_boundary_equal() {
    let b = Boundary::new(Point::new(0usize, 0), 10, 10);
    let split = b.split();
    assert_eq!(split[0], Boundary::new(Point::new(0, 0), 5, 5));
    assert_eq!(split[1], Boundary::new(Point::new(5, 0), 5, 5));
    assert_eq!(split[2], Boundary::new(Point::new(0, 5), 5, 5));
    assert_eq!(split[3], Boundary::new(Point::new(5, 5), 5, 5));
}

#[test]
fn create_quad_tree() {
    let boundary = Boundary::new(Point::new(0usize, 0), 10, 10);
    let tree = QuadTree::<usize, u8, ConstCap<20>>::new_with_const_cap(boundary.clone());
    assert_eq!(tree.boundary(), &boundary);
    assert_eq!(tree.capacity(), 20);
    assert!(tree.quadrant(0).is_none());
    assert_eq!(None, tree.items())
}

#[test]
fn insert_single() {
    let mut tree = QuadTree::new_with_dyn_cap(Boundary::new(Point::new(0, 0), 10, 10), 10);
    assert!(tree.insert_at((10, 10).into(), 1u8).is_ok());
    assert_eq!(tree.items().unwrap()[0], ((10, 10).into(), 1));
}

#[test]
fn insert_out_of_bounds() {
    let mut tree = QuadTree::new_with_dyn_cap(Boundary::new(Point::new(0, 0), 10, 10), 10);
    assert_eq!(
        tree.insert_at((20, 20).into(), 1u8),
        Err(QuadTreeError::OutOfBounds(
            Boundary::new(Point::new(0, 0), 10, 10),
            (20, 20).into()
        ))
    );
}

#[test]
fn insert_more_than_capacity() {
    let mut tree = QuadTree::new_with_dyn_cap(Boundary::new(Point::new(0, 0), 10, 10), 1);
    assert!(tree.quadrant(0).is_none());

    assert!(tree.insert_at((1, 1).into(), 1).is_ok());
    assert!(tree.quadrant(0).is_none());
    assert_eq!(tree.items().unwrap().len(), 1);

    assert!(tree.insert_at((2, 2).into(), 1).is_ok());
    assert_eq!(tree.items().unwrap().len(), 1);
    assert!(tree.quadrant(0).is_some());
    assert_eq!(tree.quadrant(0).unwrap().items().unwrap().len(), 1);
    assert_eq!(tree.quadrant(1).unwrap().items(), None);
    assert_eq!(tree.quadrant(2).unwrap().items(), None);
    assert_eq!(tree.quadrant(3).unwrap().items(), None);

    assert!(tree.insert_at((7, 7).into(), 1).is_ok());
    assert!(tree.quadrant(0).is_some());
    assert_eq!(tree.quadrant(0).unwrap().items().unwrap().len(), 1);
    assert_eq!(tree.quadrant(1).unwrap().items(), None);
    assert_eq!(tree.quadrant(2).unwrap().items(), None);
    assert_eq!(tree.quadrant(3).unwrap().items().unwrap().len(), 1);
}

#[test]
fn query() {
    let mut tree = QuadTree::new_with_dyn_cap(Boundary::new(Point::new(-10, -10), 20, 20), 2);
    let mut expected = Vec::new();
    for i in 1..10 {
        assert!(tree.insert_at((i, i).into(), i).is_ok());
        assert!(tree.insert_at((-i, i).into(), 0b1000_0000 | i).is_ok());
        assert!(tree.insert_at((i, -i).into(), 0b0100_0000 | i).is_ok());
        assert!(tree.insert_at((-i, -i).into(), 0b1100_0000 | i).is_ok());
        if i <= 2 {
            expected.push(i);
            expected.push(0b1000_0000 | i);
            expected.push(0b0100_0000 | i);
            expected.push(0b1100_0000 | i);
        }
    }
    let mut iter = tree.query(Boundary::new(Point::new(-2, -2), 4, 4));
    while let Some(i) = iter.next() {
        expected.retain(|e| e != i)
    }
    assert!(expected.is_empty(), "items not found: {expected:?}")
}

#[test]
fn iter() {
    let mut tree = QuadTree::new_with_dyn_cap(Boundary::new(Point::new(-10, -10), 20, 20), 2);
    let mut expected = Vec::new();
    for i in 1..10 {
        assert!(tree.insert_at((i, i).into(), i).is_ok());
        assert!(tree.insert_at((-i, i).into(), 0b1000_0000 | i).is_ok());
        assert!(tree.insert_at((i, -i).into(), 0b0100_0000 | i).is_ok());
        assert!(tree.insert_at((-i, -i).into(), 0b1100_0000 | i).is_ok());
        expected.push(i);
        expected.push(0b1000_0000 | i);
        expected.push(0b0100_0000 | i);
        expected.push(0b1100_0000 | i);
    }
    let mut iter = tree.iter();
    while let Some(i) = iter.next() {
        expected.retain(|e| e != i)
    }
    assert!(expected.is_empty(), "items not found: {expected:?}")
}

#[test]
fn format_debug_error() {
    let e = QuadTreeError::OutOfBounds(
        Boundary::between_points((1, 2).into(), (2, 3).into()),
        (10, 20).into(),
    );
    assert_eq!("point (10,20) is outside of area (1,2),(2,3)", e.to_string());
}

#[test]
fn format_display_error() {
    let e = QuadTreeError::OutOfBounds(
        Boundary::between_points((1, 2).into(), (2, 3).into()),
        (10, 20).into(),
    );
    assert_eq!("point (10,20) is outside of area (1,2),(2,3)", e.to_string());
}

#[test]
fn insert_item() {
    struct TmpItem {
        x: usize,
        y: usize,
        content: &'static str,
    }
    impl AsPoint<usize> for TmpItem {
        fn as_point(&self) -> Point<usize> {
            (self.x, self.y).into()
        }
    }
    let mut qt = QuadTree::new_with_dyn_cap(
        Boundary::between_points((0, 0).into(), (10, 10).into()),
        5,
    );
    assert!(qt
        .insert(TmpItem {
            x: 5,
            y: 5,
            content: "test"
        })
        .is_ok());
    let mut query = qt.query(Boundary::new(Point::new(4, 4), 2, 2));
    assert_eq!(query.next().unwrap().content, "test");
}
