use tiny_skia::geom::IntRect;
use tiny_skia::geom::IntSize;
use tiny_skia::geom::ScreenIntRect;

fn rect(x: i32, y: i32, width: u32, height: u32) -> IntRect {
    IntRect::from_xywh(x, y, width, height).unwrap()
}

#[test]
fn size_has_no_zero_side() {
    assert!(IntSize::from_wh(0, 1).is_none());
    assert!(IntSize::from_wh(1, 0).is_none());
    let size = IntSize::from_wh(u32::MAX, 2).unwrap();
    assert_eq!((size.width(), size.height()), (u32::MAX, 2));
}

#[test]
fn size_becomes_a_rect() {
    let r = IntSize::from_wh(7, 9).unwrap().to_int_rect(-3, 4);
    assert_eq!(r, rect(-3, 4, 7, 9));
    assert_eq!((r.left(), r.top(), r.width(), r.height()), (-3, 4, 7, 9));
    assert_eq!(r.size(), IntSize::from_wh(7, 9).unwrap());
}

#[test]
fn rect_limits() {
    let max = i32::MAX as u32;
    assert!(IntRect::from_xywh(0, 0, 0, 1).is_none());
    assert!(IntRect::from_xywh(0, 0, 1, 0).is_none());
    assert!(IntRect::from_xywh(0, 0, max, max).is_some());
    assert!(IntRect::from_xywh(1, 0, max, 1).is_none());
    assert!(IntRect::from_xywh(0, 1, 1, max).is_none());
    assert!(IntRect::from_xywh(-5, 0, max + 1, 1).is_none());
    assert!(IntRect::from_xywh(i32::MIN, i32::MIN, max, max).is_some());
}

#[test]
fn intersection_is_what_both_cover() {
    let a = rect(0, 0, 200, 200);
    assert_eq!(a.intersect(&rect(130, 120, 80, 90)), Some(rect(130, 120, 70, 80)));
    assert_eq!(a.intersect(&rect(-10, -20, 30, 40)), Some(rect(0, 0, 20, 20)));
    assert_eq!(a.intersect(&a), Some(a));
    assert_eq!(a.intersect(&rect(200, 0, 1, 1)), None);
    assert_eq!(a.intersect(&rect(250, 15, 80, 90)), None);
    assert_eq!(a.intersect(&rect(10, -250, 80, 90)), None);
    let b = rect(50, 60, 300, 10);
    for y in -5..80 {
        for x in -5..220 {
            let p = rect(x, y, 1, 1);
            let both = a.intersect(&p).is_some() && b.intersect(&p).is_some();
            assert_eq!(a.intersect(&b).unwrap().intersect(&p).is_some(), both);
        }
    }
}

#[test]
fn screen_rect_limits() {
    let max = i32::MAX as u32;
    assert!(ScreenIntRect::from_xywh(max, max, max, max).is_some());
    assert!(ScreenIntRect::from_xywh(max + 1, 0, 1, 1).is_none());
    assert!(ScreenIntRect::from_xywh(0, max + 1, 1, 1).is_none());
    assert!(ScreenIntRect::from_xywh(0, 0, 0, 1).is_none());
    assert!(ScreenIntRect::from_xywh(0, 0, 1, 0).is_none());
    let r = ScreenIntRect::from_xywh_safe(1, 2, 3, 4);
    assert_eq!((r.x, r.y, r.width, r.height), (1, 2, 3, 4));
}
