use sprite_painter::{draw_candidate, draw_position};

#[test]
fn single_choice_draws() {
    let c = draw_candidate(1, 1, 1);
    assert_eq!(c.sprite, 0);
    assert_eq!(c.x, 0);
    assert_eq!(c.y, 0);
    assert_eq!(draw_position(1, 1), (0, 0));
}

#[test]
fn draws_stay_in_range() {
    for _ in 0..500 {
        let c = draw_candidate(3, 40, 7);
        assert!(c.sprite < 3);
        assert!(0 <= c.x && c.x < 40);
        assert!(0 <= c.y && c.y < 7);
        assert!(0 <= c.rotation && c.rotation < 360);
        assert!(c.color.r < 255 && c.color.g < 255 && c.color.b < 255);
        assert_eq!(c.color.a, 255);
        let (x, y) = draw_position(5, 2);
        assert!(x < 5 && y < 2);
    }
}

#[test]
fn candidate_from_draws_keeps_the_numbers() {
    let c = sprite_painter::candidate_from_draws(2, 17, 5, 359, 1, 2, 254);
    assert_eq!(c.sprite, 2);
    assert_eq!((c.x, c.y, c.rotation), (17, 5, 359));
    assert_eq!(c.color, sprite_painter::Rgba8 { r: 1, g: 2, b: 254, a: 255 });
}
