use sprite_painter::{narrow, Pixmap, Rgba16, Rgba8};

fn px(r: u8, g: u8, b: u8, a: u8) -> Rgba8 {
    Rgba8 { r, g, b, a }
}

#[test]
fn from_pixels_accepts_matching_count() {
    let img = Pixmap::from_pixels(2, 1, vec![px(1, 2, 3, 4), px(5, 6, 7, 8)]).unwrap();
    assert_eq!(img.width(), 2);
    assert_eq!(img.height(), 1);
    assert_eq!(img.pixel(1, 0), px(5, 6, 7, 8));
}

#[test]
fn from_pixels_rejects_wrong_count() {
    assert!(Pixmap::from_pixels(2, 2, vec![px(0, 0, 0, 0); 3]).is_none());
    assert!(Pixmap::from_pixels(0, 5, vec![px(0, 0, 0, 0)]).is_none());
    assert!(Pixmap::<Rgba8>::from_pixels(0, 5, vec![]).is_some());
    assert!(Pixmap::<Rgba8>::from_pixels(7, 0, vec![]).is_some());
}

#[test]
fn filled_and_set_pixel() {
    let mut img = Pixmap::filled(3, 2, px(9, 9, 9, 9));
    assert_eq!(img.pixels().len(), 6);
    img.set_pixel(2, 1, px(1, 1, 1, 1));
    assert_eq!(img.pixel(2, 1), px(1, 1, 1, 1));
    assert_eq!(img.pixels()[5], px(1, 1, 1, 1));
    assert_eq!(img.pixel(0, 1), px(9, 9, 9, 9));
}

#[test]
fn listing_is_row_major() {
    let img = Pixmap::from_pixels(2, 2, vec![px(1, 0, 0, 0), px(2, 0, 0, 0), px(3, 0, 0, 0), px(4, 0, 0, 0)]).unwrap();
    let entries = img.listing();
    assert_eq!(
        entries,
        vec![(0, 0, px(1, 0, 0, 0)), (1, 0, px(2, 0, 0, 0)), (0, 1, px(3, 0, 0, 0)), (1, 1, px(4, 0, 0, 0))]
    );
}

#[test]
fn duplicate_keeps_everything() {
    let img = Pixmap::from_pixels(1, 2, vec![px(1, 2, 3, 4), px(5, 6, 7, 8)]).unwrap();
    let copy = img.duplicate();
    assert_eq!(copy.width(), 1);
    assert_eq!(copy.height(), 2);
    assert_eq!(copy.pixels(), img.pixels());
}

#[test]
fn narrow_rounds_to_nearest_byte() {
    let img = Pixmap::from_pixels(
        2,
        1,
        vec![Rgba16 { r: 0, g: 65535, b: 128, a: 129 }, Rgba16 { r: 257 * 100, g: 257 * 100 + 128, b: 257 * 100 + 129, a: 300 }],
    )
    .unwrap();
    let out = narrow(&img);
    assert_eq!(out.width(), 2);
    assert_eq!(out.height(), 1);
    assert_eq!(out.pixel(0, 0), px(0, 255, 0, 1));
    assert_eq!(out.pixel(1, 0), px(100, 100, 101, 1));
}
