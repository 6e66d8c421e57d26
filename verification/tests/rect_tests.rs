use roguelike::rect::{make_range, Corridor, Rect};

#[test]
fn rect_new_adds_extent_to_corner() {
    let r = Rect::new(3, 4, 5, 6);
    assert_eq!((r.x1, r.y1, r.x2, r.y2), (3, 4, 8, 10));
}

#[test]
fn rect_new_keeps_negative_and_empty_extents() {
    let r = Rect::new(-2, 7, 0, -3);
    assert_eq!((r.x1, r.y1, r.x2, r.y2), (-2, 7, -2, 4));
}

#[test]
fn center_is_the_mean_of_the_corners() {
    assert_eq!(Rect::new(3, 4, 5, 6).center(), (5, 7));
    assert_eq!(Rect::new(0, 0, 4, 4).center(), (2, 2));
    assert_eq!(Rect::new(10, 20, 6, 10).center(), (13, 25));
}

#[test]
fn center_rounds_toward_zero() {
    // 3 + 8 = 11, halved and rounded down
    assert_eq!(Rect::new(3, 0, 5, 1).center(), (5, 0));
    // -3 + -2 = -5, halved and rounded up toward zero
    assert_eq!(Rect::new(-3, -7, 1, 2).center(), (-2, -6));
}

#[test]
fn center_does_not_overflow_on_large_corners() {
    let r = Rect { x1: i32::MAX - 1, y1: i32::MIN, x2: i32::MAX, y2: i32::MIN + 2 };
    assert_eq!(r.center(), (i32::MAX - 1, i32::MIN + 1));
}

#[test]
fn overlapping_rectangles_intersect() {
    let a = Rect::new(0, 0, 5, 5);
    let b = Rect::new(3, 3, 5, 5);
    assert!(a.intersects_with(&b));
    assert!(b.intersects_with(&a));
}

#[test]
fn rectangles_that_touch_on_an_edge_intersect() {
    let a = Rect::new(0, 0, 5, 5);
    let right = Rect::new(5, 0, 5, 5);
    let below = Rect::new(0, 5, 5, 5);
    let corner = Rect::new(5, 5, 2, 2);
    assert!(a.intersects_with(&right));
    assert!(a.intersects_with(&below));
    assert!(a.intersects_with(&corner));
}

#[test]
fn rectangles_one_cell_apart_do_not_intersect() {
    let a = Rect::new(0, 0, 5, 5);
    assert!(!a.intersects_with(&Rect::new(6, 0, 5, 5)));
    assert!(!a.intersects_with(&Rect::new(0, 6, 5, 5)));
    assert!(!Rect::new(6, 0, 5, 5).intersects_with(&a));
}

#[test]
fn a_rectangle_intersects_itself_and_what_it_contains() {
    let a = Rect::new(2, 2, 8, 8);
    assert!(a.intersects_with(&a));
    assert!(a.intersects_with(&Rect::new(4, 4, 2, 2)));
    assert!(Rect::new(4, 4, 2, 2).intersects_with(&a));
}

#[test]
fn make_range_runs_from_the_smaller_to_the_larger_value() {
    assert_eq!(make_range(2, 5), 2..6);
    assert_eq!(make_range(5, 2), 2..6);
    assert_eq!(make_range(4, 4), 4..5);
    assert_eq!(make_range(-3, 1).collect::<Vec<i32>>(), vec![-3, -2, -1, 0, 1]);
}

#[test]
fn corridor_is_a_plain_record() {
    let c = Corridor { from_x: 1, from_y: 2, to_x: 3, to_y: 4, horizontal_first: true };
    assert_eq!(c, c.clone());
    assert_ne!(c, Corridor { horizontal_first: false, ..c });
}
