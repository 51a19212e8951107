use sprite_painter::{compare_images, CompareError, Pixmap, Rgba8};

fn px(r: u8, g: u8, b: u8, a: u8) -> Rgba8 {
    Rgba8 { r, g, b, a }
}

#[test]
fn one_pixel_score_and_debug_colour() {
    let a = Pixmap::from_pixels(1, 1, vec![px(10, 20, 30, 255)]).unwrap();
    let b = Pixmap::from_pixels(1, 1, vec![px(0, 25, 30, 7)]).unwrap();
    let c = compare_images(&a, &b).ok().unwrap();
    assert_eq!(c.score, 750);
    assert_eq!(c.debug.pixel(0, 0), px(15, 250, 0, 255));
}

#[test]
fn identical_images_score_765_per_pixel_and_paint_green() {
    let pixels = vec![px(1, 2, 3, 4), px(200, 100, 50, 0), px(0, 0, 0, 0), px(255, 255, 255, 255), px(7, 7, 7, 7), px(9, 8, 7, 6)];
    let a = Pixmap::from_pixels(3, 2, pixels.clone()).unwrap();
    let b = Pixmap::from_pixels(3, 2, pixels).unwrap();
    let c = compare_images(&a, &b).ok().unwrap();
    assert_eq!(c.score, 765 * 6);
    for p in c.debug.pixels() {
        assert_eq!(*p, px(0, 255, 0, 255));
    }
}

#[test]
fn alpha_is_not_compared() {
    let a = Pixmap::from_pixels(1, 1, vec![px(4, 5, 6, 0)]).unwrap();
    let b = Pixmap::from_pixels(1, 1, vec![px(4, 5, 6, 255)]).unwrap();
    assert_eq!(compare_images(&a, &b).ok().unwrap().score, 765);
}

#[test]
fn opposite_colours_score_zero_and_paint_red() {
    let a = Pixmap::from_pixels(2, 1, vec![px(0, 255, 0, 1), px(255, 255, 255, 255)]).unwrap();
    let b = Pixmap::from_pixels(2, 1, vec![px(255, 0, 255, 9), px(0, 0, 0, 0)]).unwrap();
    let c = compare_images(&a, &b).ok().unwrap();
    assert_eq!(c.score, 0);
    assert_eq!(c.debug.pixel(0, 0), px(253, 0, 0, 255));
    assert_eq!(c.debug.pixel(1, 0), px(253, 0, 0, 255));
}

#[test]
fn debug_red_wraps_past_255() {
    // distance 300 paints red 300 % 256 = 44 and green (765 - 300) / 3 = 155
    let a = Pixmap::from_pixels(1, 1, vec![px(0, 0, 0, 0)]).unwrap();
    let b = Pixmap::from_pixels(1, 1, vec![px(200, 100, 0, 0)]).unwrap();
    let c = compare_images(&a, &b).ok().unwrap();
    assert_eq!(c.score, 465);
    assert_eq!(c.debug.pixel(0, 0), px(44, 155, 0, 255));
}

#[test]
fn score_is_symmetric() {
    let a = Pixmap::from_pixels(2, 1, vec![px(10, 200, 30, 0), px(1, 2, 3, 4)]).unwrap();
    let b = Pixmap::from_pixels(2, 1, vec![px(90, 20, 31, 0), px(100, 0, 3, 4)]).unwrap();
    let ab = compare_images(&a, &b).ok().unwrap().score;
    let ba = compare_images(&b, &a).ok().unwrap().score;
    assert_eq!(ab, ba);
    assert_eq!(ab, (765 - 80 - 180 - 1) + (765 - 99 - 2));
}

#[test]
fn different_sizes_are_refused() {
    let a = Pixmap::from_pixels(2, 1, vec![px(0, 0, 0, 0); 2]).unwrap();
    let b = Pixmap::from_pixels(1, 2, vec![px(0, 0, 0, 0); 2]).unwrap();
    assert_eq!(compare_images(&a, &b).err(), Some(CompareError::SizeMismatch));
}

#[test]
fn empty_images_score_zero() {
    let a = Pixmap::<Rgba8>::from_pixels(0, 3, vec![]).unwrap();
    let b = Pixmap::<Rgba8>::from_pixels(0, 3, vec![]).unwrap();
    let c = compare_images(&a, &b).ok().unwrap();
    assert_eq!(c.score, 0);
    assert_eq!(c.debug.width(), 0);
    assert_eq!(c.debug.height(), 3);
}

#[test]
fn too_large_a_score_overflows() {
    // 2400 * 2400 identical pixels would score 765 * 5_760_000 > u32::MAX
    let a = Pixmap::filled(2400, 2400, px(1, 2, 3, 4));
    let b = a.duplicate();
    assert_eq!(compare_images(&a, &b).err(), Some(CompareError::ScoreOverflow));
}

#[test]
fn large_but_poor_match_still_scores() {
    // the same size with opposite colours scores 0 and does not overflow
    let a = Pixmap::filled(2400, 2400, px(0, 0, 0, 0));
    let b = Pixmap::filled(2400, 2400, px(255, 255, 255, 0));
    assert_eq!(compare_images(&a, &b).ok().unwrap().score, 0);
}
