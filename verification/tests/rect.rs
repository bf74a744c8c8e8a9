use ratatui_layout::Margin;
use ratatui_layout::Rect;

#[test]
fn test_rect_size_truncation() {
    for width in 256u16..300u16 {
        for height in 256u16..300u16 {
            let rect = Rect::new(0, 0, width, height);
            rect.area(); // Should not panic.
            assert!(rect.width < width || rect.height < height);
            // The target dimensions are rounded down so the math will not be too precise
            // but let's make sure the ratios don't diverge crazily.
            assert!(
                (f64::from(rect.width) / f64::from(rect.height)
                    - f64::from(width) / f64::from(height))
                .abs()
                    < 1.0
            );
        }
    }

    // One dimension below 255, one above. Area above max u16.
    let width = 900;
    let height = 100;
    let rect = Rect::new(0, 0, width, height);
    assert_ne!(rect.width, 900);
    assert_ne!(rect.height, 100);
    assert!(rect.width < width || rect.height < height);
}

#[test]
fn test_rect_size_preservation() {
    for width in 0..256u16 {
        for height in 0..256u16 {
            let rect = Rect::new(0, 0, width, height);
            rect.area(); // Should not panic.
            assert_eq!(rect.width, width);
            assert_eq!(rect.height, height);
        }
    }

    // One dimension below 255, one above. Area below max u16.
    let rect = Rect::new(0, 0, 300, 100);
    assert_eq!(rect.width, 300);
    assert_eq!(rect.height, 100);
}

#[test]
fn rect_can_be_const() {
    let rect: Rect = Rect { x: 0, y: 0, width: 10, height: 10 };
    let _area: u16 = rect.area();
    let _left: u16 = rect.left();
    let _right: u16 = rect.right();
    let _top: u16 = rect.top();
    let _bottom: u16 = rect.bottom();
    assert!(rect.intersects(rect));
}

#[test]
fn rect_new_clips_to_the_integer_square_roots() {
    // 65535 * 900 / 100 = 589815 and 767^2 <= 589815 < 768^2;
    // 65535 * 100 / 900 = 7281.67 and 85^2 <= 7281 < 86^2.
    let rect = Rect::new(3, 4, 900, 100);
    assert_eq!(rect, Rect { x: 3, y: 4, width: 767, height: 85 });
    assert_eq!(rect.area(), 767 * 85);

    let square = Rect::new(0, 0, 65535, 65535);
    assert_eq!(square.width, 255);
    assert_eq!(square.height, 255);

    let line = Rect::new(0, 0, 65535, 2);
    assert_eq!(line.width, 46340);
    assert_eq!(line.height, 1);
    assert!(u32::from(line.width) * u32::from(line.height) <= 65535);
}

#[test]
fn rect_new_keeps_areas_that_fit() {
    assert_eq!(Rect::new(1, 2, 65535, 1), Rect { x: 1, y: 2, width: 65535, height: 1 });
    assert_eq!(Rect::new(1, 2, 0, 65535), Rect { x: 1, y: 2, width: 0, height: 65535 });
    assert_eq!(Rect::new(1, 2, 255, 257), Rect { x: 1, y: 2, width: 255, height: 257 });
}

#[test]
fn rect_edges() {
    let rect = Rect { x: 65530, y: 10, width: 10, height: 5 };
    assert_eq!(rect.left(), 65530);
    assert_eq!(rect.right(), 65535);
    assert_eq!(rect.top(), 10);
    assert_eq!(rect.bottom(), 15);
    assert_eq!(rect.area(), 50);
}

#[test]
fn rect_default_is_empty_at_origin() {
    assert_eq!(Rect::default(), Rect { x: 0, y: 0, width: 0, height: 0 });
    assert_eq!(Margin::default(), Margin { vertical: 0, horizontal: 0 });
}

#[test]
fn rect_inner() {
    let rect = Rect { x: 1, y: 2, width: 10, height: 6 };
    let inner = rect.inner(&Margin { vertical: 1, horizontal: 2 });
    assert_eq!(inner, Rect { x: 3, y: 3, width: 6, height: 4 });

    let exact = rect.inner(&Margin { vertical: 3, horizontal: 5 });
    assert_eq!(exact, Rect { x: 6, y: 5, width: 0, height: 0 });

    let too_wide = rect.inner(&Margin { vertical: 0, horizontal: 6 });
    assert_eq!(too_wide, Rect::default());
    let too_tall = rect.inner(&Margin { vertical: 4, horizontal: 0 });
    assert_eq!(too_tall, Rect::default());
}

#[test]
fn rect_union_covers_both() {
    let a = Rect { x: 1, y: 2, width: 3, height: 4 };
    let b = Rect { x: 5, y: 0, width: 2, height: 2 };
    let u = a.union(b);
    assert_eq!(u, Rect { x: 1, y: 0, width: 6, height: 6 });
    assert_eq!(b.union(a), u);
}

#[test]
fn rect_intersection_within_both() {
    let a = Rect { x: 1, y: 2, width: 6, height: 4 };
    let b = Rect { x: 3, y: 0, width: 10, height: 3 };
    let i = a.intersection(b);
    assert_eq!(i, Rect { x: 3, y: 2, width: 4, height: 1 });
    assert_eq!(b.intersection(a), i);

    let touching = Rect { x: 7, y: 2, width: 2, height: 2 };
    assert_eq!(a.intersection(touching), Rect { x: 7, y: 2, width: 0, height: 2 });
}

#[test]
fn rect_intersects() {
    let a = Rect { x: 1, y: 2, width: 6, height: 4 };
    let b = Rect { x: 3, y: 0, width: 10, height: 3 };
    let touching = Rect { x: 7, y: 2, width: 2, height: 2 };
    let far = Rect { x: 100, y: 100, width: 1, height: 1 };
    assert!(a.intersects(b));
    assert!(b.intersects(a));
    assert!(!a.intersects(touching));
    assert!(!touching.intersects(a));
    assert!(!a.intersects(far));
    let empty = Rect { x: 2, y: 2, width: 0, height: 0 };
    assert!(!empty.intersects(empty));
}

#[test]
fn rect_new_is_stable_on_its_own_output() {
    for (width, height) in [(900u16, 100u16), (65535, 65535), (300, 300), (10, 10), (65535, 2)] {
        let once = Rect::new(7, 8, width, height);
        let twice = Rect::new(once.x, once.y, once.width, once.height);
        assert_eq!(once, twice);
    }
}

#[test]
fn rect_intersects_without_computing_every_edge() {
    let a = Rect { x: 10, y: 0, width: 5, height: 5 };
    let b = Rect::new(0, 65535, 5, 5);
    assert!(!a.intersects(b));
}

#[test]
fn rect_new_whole_square_roots() {
    assert_eq!(Rect::new(0, 0, 169, 65535), Rect { x: 0, y: 0, width: 13, height: 5041 });
    assert_eq!(Rect::new(0, 0, 676, 65535).width, 26);
}
