use pngme::rect::Rect;
use pngme::INT_MAX;

#[test]
fn rect() {
    let bounded = Rect::new((0, 0), (100, 100));
    assert_eq!(bounded.width(), 100);
    assert_eq!(bounded.height(), 100);
    assert_eq!(bounded.area().unwrap(), 10000);

    let inverted = Rect::new((100, 100), (50, 50));
    assert_eq!(inverted.width(), 0);
    assert_eq!(inverted.height(), 0);
}

#[test]
fn from_dimensions() {
    let rect = Rect::from_dimensions((100, 100), 200, 200);
    assert_eq!(rect.width(), 200);
    assert_eq!(rect.height(), 200);
    assert_eq!(rect.x(), 100);
    assert_eq!(rect.y(), 100);
    assert_eq!(rect.x2(), 300);
    assert_eq!(rect.y2(), 300);
}

#[test]
fn from_range() {
    let excluded = Rect::from_range(0..100, 0..100);
    assert_eq!(excluded.width(), 99);
    assert_eq!(excluded.height(), 99);

    let included = Rect::from_range(10..=110, 10..=110);
    assert_eq!(included.width(), 100);
    assert_eq!(included.height(), 100);

    let left_ub = Rect::from_range(..100, ..100);
    assert_eq!(left_ub.width(), 99);
    assert_eq!(left_ub.height(), 99);

    let right_ub = Rect::from_range(10.., 10..);
    assert_eq!(right_ub.width(), INT_MAX - 10);
    assert_eq!(right_ub.height(), INT_MAX - 10);

    let reversed = Rect::from_range(100..=0, 100..=0);
    assert_eq!(reversed.width(), 100);
    assert_eq!(reversed.height(), 100);
    assert_eq!(reversed.x(), 0);
    assert_eq!(reversed.y(), 0);
}

#[test]
fn from_range_outer_limit() {
    let origin = Rect::from_range(0.., 0..).constrain(500, 500);
    assert_eq!(origin.width(), 500);
    assert_eq!(origin.height(), 500);

    let offset = Rect::from_range(100.., 100..).constrain(500, 500);
    assert_eq!(offset.width(), 400);
    assert_eq!(offset.height(), 400);

    let uneven = Rect::new((100, 400), (200, 600)).constrain(500, 500);
    assert_eq!(uneven.width(), 100);
    assert_eq!(uneven.height(), 100);

    let unbounded = Rect::new((100, 600), (700, 800)).constrain(500, 500);
    assert_eq!(unbounded.width(), 400);
    assert_eq!(unbounded.height(), 0);
}
