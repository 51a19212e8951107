use sprite_painter::{compose_at, place_sprite, score_canvas, try_placement, CompareError, Pixmap, Rgba16, Rgba8};

fn p16(r: u16, g: u16, b: u16, a: u16) -> Rgba16 {
    Rgba16 { r, g, b, a }
}

fn px(r: u8, g: u8, b: u8, a: u8) -> Rgba8 {
    Rgba8 { r, g, b, a }
}

#[test]
fn opaque_sprite_covers_its_pixel_only() {
    let canvas = Pixmap::filled(2, 2, p16(0, 0, 0, 0));
    let sprite = Pixmap::from_pixels(1, 1, vec![p16(65535, 0, 0, 65535)]).unwrap();
    let wanted = Pixmap::filled(2, 2, px(255, 0, 0, 255));
    let trial = compose_at(&wanted, &canvas, &sprite, 1, 0);
    assert_eq!(trial.canvas.pixel(1, 0), p16(65535, 0, 0, 65535));
    assert_eq!(trial.canvas.pixel(0, 0), p16(0, 0, 0, 0));
    assert_eq!(trial.canvas.pixel(1, 1), p16(0, 0, 0, 0));
    // the source canvas is left as it was
    assert_eq!(canvas.pixel(1, 0), p16(0, 0, 0, 0));
    // one perfect pixel and three that miss red by 255
    assert_eq!(trial.result.ok().unwrap().score, 765 + 3 * 510);
}

#[test]
fn sprite_outside_the_canvas_changes_nothing() {
    let canvas = Pixmap::filled(2, 1, p16(10, 20, 30, 40));
    let sprite = Pixmap::filled(1, 1, p16(65535, 65535, 65535, 65535));
    let wanted = Pixmap::filled(2, 1, px(0, 0, 0, 0));
    let trial = compose_at(&wanted, &canvas, &sprite, 5, 0);
    assert_eq!(trial.canvas.pixels(), canvas.pixels());
}

#[test]
fn placement_on_one_pixel_canvas_is_at_origin() {
    let canvas = Pixmap::filled(1, 1, p16(0, 0, 0, 65535));
    let sprite = Pixmap::filled(1, 1, p16(0, 65535, 0, 65535));
    let wanted = Pixmap::filled(1, 1, px(0, 255, 0, 255));
    let trial = try_placement(&wanted, &canvas, &sprite);
    assert_eq!((trial.x, trial.y), (0, 0));
    assert_eq!(trial.canvas.pixel(0, 0), p16(0, 65535, 0, 65535));
    assert_eq!(trial.result.ok().unwrap().score, 765);
}

#[test]
fn size_mismatch_is_reported() {
    let canvas = Pixmap::filled(1, 1, p16(0, 0, 0, 0));
    let sprite = Pixmap::filled(1, 1, p16(0, 0, 0, 0));
    let wanted = Pixmap::filled(2, 1, px(0, 0, 0, 0));
    let trial = try_placement(&wanted, &canvas, &sprite);
    assert_eq!(trial.result.err(), Some(CompareError::SizeMismatch));
}

#[test]
fn place_sprite_changes_the_canvas() {
    let mut canvas = Pixmap::filled(1, 1, p16(0, 0, 0, 0));
    let sprite = Pixmap::filled(3, 3, p16(0, 0, 65535, 65535));
    let pos = place_sprite(&mut canvas, &sprite, 1, 1);
    assert_eq!(pos, (0, 0));
    assert_eq!(canvas.pixel(0, 0), p16(0, 0, 65535, 65535));
}

#[test]
fn canvas_is_scored_in_eight_bits() {
    let canvas = Pixmap::from_pixels(1, 1, vec![p16(257 * 10 + 100, 0, 65535, 0)]).unwrap();
    let wanted = Pixmap::from_pixels(1, 1, vec![px(10, 0, 255, 0)]).unwrap();
    assert_eq!(score_canvas(&wanted, &canvas).ok().unwrap().score, 765);
}

#[test]
fn only_pixels_under_the_sprite_change() {
    let canvas = Pixmap::filled(4, 3, p16(100, 200, 300, 400));
    let sprite = Pixmap::filled(2, 2, p16(65535, 65535, 65535, 65535));
    let wanted = Pixmap::filled(4, 3, px(0, 0, 0, 0));
    let trial = compose_at(&wanted, &canvas, &sprite, 3, 2);
    for y in 0..3 {
        for x in 0..4 {
            if x >= 3 && y >= 2 {
                assert_eq!(trial.canvas.pixel(x, y), p16(65535, 65535, 65535, 65535));
            } else {
                assert_eq!(trial.canvas.pixel(x, y), p16(100, 200, 300, 400));
            }
        }
    }
}
