use roguelike::rect::Rect;

#[test]
fn new_spans_width_and_height() {
    let r = Rect::new(3, 4, 5, 6);
    assert_eq!(r, Rect { x1: 3, y1: 4, x2: 8, y2: 10 });
}

#[test]
fn intersect_is_symmetric_and_counts_touching() {
    let a = Rect::new(0, 0, 4, 4);
    let b = Rect::new(4, 4, 2, 2);
    let c = Rect::new(5, 0, 2, 2);
    assert!(a.intersect(&b) && b.intersect(&a));
    assert!(!a.intersect(&c) && !c.intersect(&a));
    assert!(a.intersect(&a));
}

#[test]
fn center_halves_toward_zero() {
    assert_eq!(Rect::new(2, 2, 4, 4).center(), (4, 4));
    assert_eq!(Rect::new(2, 3, 5, 4).center(), (4, 5));
    assert_eq!(Rect { x1: -3, x2: -2, y1: -1, y2: 0 }.center(), (-2, 0));
}

#[test]
fn center_lies_inside() {
    for r in [Rect::new(0, 0, 0, 0), Rect::new(-7, 3, 4, 9), Rect::new(10, -20, 1, 3)] {
        let (cx, cy) = r.center();
        assert!(r.x1 <= cx && cx <= r.x2 && r.y1 <= cy && cy <= r.y2);
    }
}
