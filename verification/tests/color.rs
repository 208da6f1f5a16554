use tiny_skia::color::demultiply_u8;
use tiny_skia::color::premultiply_u8;
use tiny_skia::color::ColorU8;
use tiny_skia::color::PremultipliedColorU8;

#[test]
fn premultiply_rounds() {
    assert_eq!(premultiply_u8(255, 255), 255);
    assert_eq!(premultiply_u8(255, 0), 0);
    assert_eq!(premultiply_u8(100, 128), 50);
    assert_eq!(premultiply_u8(150, 200), 118);
    assert_eq!(premultiply_u8(1, 127), 0);
    assert_eq!(premultiply_u8(1, 128), 1);
}

#[test]
fn premultiply_is_the_rounded_quotient_everywhere() {
    for c in 0..=255u32 {
        for a in 0..=255u32 {
            let want = (2 * c * a + 255) / 510;
            assert_eq!(premultiply_u8(c as u8, a as u8) as u32, want);
        }
    }
}

#[test]
fn demultiply_rounds() {
    assert_eq!(demultiply_u8(39, 200), 50);
    assert_eq!(demultiply_u8(0, 0), 0);
    assert_eq!(demultiply_u8(1, 0), 255);
    assert_eq!(demultiply_u8(200, 100), 255);
    assert_eq!(demultiply_u8(100, 100), 255);
    assert_eq!(demultiply_u8(50, 100), 128);
}

#[test]
fn premultiplying_undoes_demultiplying() {
    for a in 0..=255u8 {
        for c in 0..=a {
            let color = PremultipliedColorU8::from_rgba(c, a, 0, a).unwrap();
            assert_eq!(color.demultiply().premultiply(), color);
        }
    }
}

#[test]
fn premultiplied_channels_stay_within_alpha() {
    for a in 0..=255u8 {
        let c = ColorU8::from_rgba(255, 254, 1, a).premultiply();
        assert!(c.red() <= a && c.green() <= a && c.blue() <= a);
        assert_eq!(c.alpha(), a);
    }
}

#[test]
fn opaque_colors_stay_as_they_are() {
    let c = ColorU8::from_rgba(1, 2, 3, 255);
    assert_eq!(c.premultiply().to_bytes(), [1, 2, 3, 255]);
    assert_eq!(c.premultiply().demultiply(), c);
    assert_eq!((c.red(), c.green(), c.blue(), c.alpha()), (1, 2, 3, 255));
}

#[test]
fn channels_over_alpha_are_refused() {
    assert!(PremultipliedColorU8::from_rgba(10, 10, 10, 10).is_some());
    assert!(PremultipliedColorU8::from_rgba(11, 10, 10, 10).is_none());
    assert!(PremultipliedColorU8::from_rgba(10, 11, 10, 10).is_none());
    assert!(PremultipliedColorU8::from_rgba(10, 10, 11, 10).is_none());
    let c = PremultipliedColorU8::from_bytes([4, 3, 2, 1]);
    assert_eq!(c, PremultipliedColorU8::from_rgba_unchecked(4, 3, 2, 1));
    assert_eq!((c.red(), c.green(), c.blue(), c.alpha()), (4, 3, 2, 1));
}
