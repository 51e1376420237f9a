use dungeon::Point;
use dungeon::Rect;

#[test]
fn rect_new_derives_all_fields() {
    let r = Rect::new(2, 3, 10, 8);
    assert_eq!(r.x, 2);
    assert_eq!(r.y, 3);
    assert_eq!(r.x2, 12);
    assert_eq!(r.y2, 11);
    assert_eq!(r.width, 10);
    assert_eq!(r.height, 8);
    assert_eq!(r.centre, Point { x: 7, y: 7 });
    assert!(!r.merged);
}

#[test]
fn intersects_is_symmetric() {
    let cases = [
        (Rect::new(0, 0, 5, 5), Rect::new(3, 3, 5, 5)),
        (Rect::new(0, 0, 5, 5), Rect::new(5, 0, 5, 5)),
        (Rect::new(0, 0, 5, 5), Rect::new(6, 6, 2, 2)),
        (Rect::new(-4, -4, 3, 3), Rect::new(-1, -4, 3, 3)),
    ];
    for (a, b) in cases.iter() {
        assert_eq!(a.intersects(b), b.intersects(a));
    }
}

#[test]
fn intersects_includes_touching_edges() {
    let a = Rect::new(0, 0, 5, 5);
    let touching = Rect::new(5, 0, 5, 5);
    let apart = Rect::new(6, 0, 5, 5);
    assert!(a.intersects(&touching));
    assert!(!a.intersects(&apart));
}

#[test]
fn can_merge_is_symmetric() {
    let cases = [
        (Rect::new(0, 0, 3, 1), Rect::new(0, 1, 3, 1)),
        (Rect::new(0, 0, 3, 1), Rect::new(3, 0, 1, 1)),
        (Rect::new(0, 0, 3, 1), Rect::new(0, 2, 3, 1)),
        (Rect::new(0, 0, 3, 2), Rect::new(0, 2, 2, 2)),
    ];
    for (a, b) in cases.iter() {
        assert_eq!(a.can_merge(b), b.can_merge(a));
    }
}

#[test]
fn merge_is_commutative_in_effect() {
    let a = Rect::new(0, 0, 3, 2);
    let b = Rect::new(0, 2, 3, 4);
    assert!(a.can_merge(&b));
    let mut ab = a.clone();
    ab.merge(&b);
    let mut ba = b.clone();
    ba.merge(&a);
    assert_eq!(ab.x, ba.x);
    assert_eq!(ab.y, ba.y);
    assert_eq!(ab.x2, ba.x2);
    assert_eq!(ab.y2, ba.y2);
    assert_eq!(ab.width, ba.width);
    assert_eq!(ab.height, ba.height);
    assert_eq!(ab.centre, ba.centre);
    // the union spans both heights
    assert_eq!(ab, Rect::new(0, 0, 3, 6));
}

#[test]
fn merge_never_shrinks_area() {
    let a = Rect::new(0, 0, 3, 2);
    let b = Rect::new(3, 0, 5, 2);
    assert!(a.can_merge(&b));
    let mut m = a.clone();
    m.merge(&b);
    assert!(m.area() >= a.area());
    assert!(m.area() >= b.area());
    assert_eq!(m.area(), 16);
}

#[test]
fn contains_tile_is_half_open() {
    let r = Rect::new(2, 2, 3, 3);
    assert!(r.contains_tile(2, 2));
    assert!(r.contains_tile(4, 4));
    assert!(!r.contains_tile(5, 4));
    assert!(!r.contains_tile(1, 2));
}

#[test]
fn point_distance_is_manhattan() {
    let a = Point { x: 0, y: 0 };
    let b = Point { x: 3, y: 4 };
    assert_eq!(a.distance(&b), 7);
    assert_eq!(b.distance(&a), 7);
    assert_eq!(a.distance(&a), 0);
    let c = Point { x: -2, y: 5 };
    assert_eq!(a.distance(&c), 7);
}
