//! Placing a sprite on the canvas and scoring the result.

use image::{DynamicImage, ImageBuffer};
use vstd::prelude::*;

use crate::draw::draw_position;
use crate::pixmap::{
    lemma_narrow_widen_pixel, narrow, narrow_pixel, narrow_view, widen_pixel, Pixmap, PixmapView,
    Rgba16, Rgba8,
};
use crate::score::{compare_images, comparison_outcome, CompareError, Comparison};

verus! {

/// The canvas that `image::imageops::overlay` leaves when it lays `top` over
/// `bottom` with its top-left corner at `(x, y)`, both images being 16-bit
/// RGBA images handled through `image::DynamicImage`.
pub uninterp spec fn overlaid(
    bottom: PixmapView<Rgba16>,
    top: PixmapView<Rgba16>,
    x: int,
    y: int,
) -> PixmapView<Rgba16>;

/// Whether the canvas position `(px, py)` lies under a `width` by `height`
/// sprite whose top-left corner is at `(x, y)`.
pub open spec fn under_sprite(px: int, py: int, x: int, y: int, width: nat, height: nat) -> bool {
    x <= px < x + width && y <= py < y + height
}

/// Whether a sprite pixel is invisible once read in 8 bits: its alpha rounds
/// to 0.
pub open spec fn transparent(p: Rgba16) -> bool {
    narrow_pixel(p).a == 0
}

/// Whether a sprite pixel fully covers once read in 8 bits: its alpha rounds
/// to 255.
pub open spec fn opaque(p: Rgba16) -> bool {
    narrow_pixel(p).a == 255
}

/// What laying the sprite pixel `sprite` over the canvas pixel `before`
/// leaves as `after`, as far as it is stated: over a transparent sprite pixel
/// the canvas keeps its colour (rounded to 8 bits and stored back), and an
/// opaque sprite pixel replaces it (rounded to 8 bits and stored back).
pub open spec fn placed_pixel(before: Rgba16, sprite: Rgba16, after: Rgba16) -> bool {
    &&& transparent(sprite) ==> after == widen_pixel(narrow_pixel(before))
    &&& opaque(sprite) ==> after == widen_pixel(narrow_pixel(sprite))
}

/// Whether every pixel of a sprite is transparent.
pub open spec fn all_transparent(sprite: PixmapView<Rgba16>) -> bool {
    forall|sx: int, sy: int| #[trigger] sprite.contains(sx, sy) ==> transparent(sprite.at(sx, sy))
}

/// Calls `image::imageops::overlay` on the two buffers, each turned into an
/// `image::DynamicImage::ImageRgba16`, and turns the bottom one back.
/// Claimed of it: the new canvas is `overlaid(old canvas, top, x, y)`; it
/// keeps the size of the old canvas; and every pixel not under the sprite is
/// unchanged (`overlay` writes, through `put_pixel`, only the pixels of
/// `bottom` from `(max(x, 0), max(y, 0))` up to but excluding
/// `(min(x + top width, width), min(y + top height, height))`). Each pixel
/// under the sprite is read from both images in 8 bits, the sprite pixel
/// `top(px - x, py - y)` is blended over it by `Rgba::blend`, and the result
/// is stored back in 16 bits (`257 * c`). `blend` returns at once for a
/// sprite alpha of 0 and copies the sprite pixel for an alpha of 255; those
/// two cases are claimed (`placed_pixel`). The `f32` blend of the other
/// alphas is not stated.
#[verifier::external_body]
fn overlay_at(bottom: &mut Pixmap<Rgba16>, top: &Pixmap<Rgba16>, x: i64, y: i64)
    requires
        old(bottom)@.valid(),
        top@.valid(),
    ensures
        final(bottom)@ == overlaid(old(bottom)@, top@, x as int, y as int),
        final(bottom)@.valid(),
        final(bottom)@.same_size(old(bottom)@),
        forall|px: int, py: int|
            #![trigger final(bottom)@.at(px, py)]
            old(bottom)@.contains(px, py) && !under_sprite(
                px,
                py,
                x as int,
                y as int,
                top@.width,
                top@.height,
            ) ==> final(bottom)@.at(px, py) == old(bottom)@.at(px, py),
        forall|px: int, py: int|
            #![trigger final(bottom)@.at(px, py)]
            old(bottom)@.contains(px, py) && under_sprite(
                px,
                py,
                x as int,
                y as int,
                top@.width,
                top@.height,
            ) ==> placed_pixel(
                old(bottom)@.at(px, py),
                top@.at(px - x, py - y),
                final(bottom)@.at(px, py),
            ),
{
    let buffer = |img: &Pixmap<Rgba16>| {
        let raw = img.pixels.iter().flat_map(|p| [p.r, p.g, p.b, p.a]).collect();
        DynamicImage::ImageRgba16(ImageBuffer::from_raw(img.width, img.height, raw).unwrap())
    };
    let mut canvas = buffer(bottom);
    image::imageops::overlay(&mut canvas, &buffer(top), x, y);
    let out = canvas.into_rgba16();
    bottom.pixels = out.pixels().map(|p| Rgba16 { r: p[0], g: p[1], b: p[2], a: p[3] }).collect();
}

/// Scores a 16-bit canvas against the wanted image, reading the canvas in
/// 8-bit as the comparison does.
pub fn score_canvas(wanted: &Pixmap<Rgba8>, canvas: &Pixmap<Rgba16>) -> (result: Result<
    Comparison,
    CompareError,
>)
    requires
        wanted@.valid(),
        canvas@.valid(),
    ensures
        comparison_outcome(result, wanted@, narrow_view(canvas@)),
{
    let seen = narrow(canvas);
    compare_images(wanted, &seen)
}

/// One tried placement: where the sprite went, the canvas it gave and how
/// that canvas scored.
pub struct Trial {
    pub x: u32,
    pub y: u32,
    pub canvas: Pixmap<Rgba16>,
    pub result: Result<Comparison, CompareError>,
}

/// Lays `sprite` over a copy of `canvas` at `(x, y)` and scores the copy.
pub fn compose_at(
    wanted: &Pixmap<Rgba8>,
    canvas: &Pixmap<Rgba16>,
    sprite: &Pixmap<Rgba16>,
    x: u32,
    y: u32,
) -> (trial: Trial)
    requires
        wanted@.valid(),
        canvas@.valid(),
        sprite@.valid(),
    ensures
        trial.x == x,
        trial.y == y,
        trial.canvas@ == overlaid(canvas@, sprite@, x as int, y as int),
        trial.canvas@.valid(),
        trial.canvas@.same_size(canvas@),
        forall|px: int, py: int|
            #![trigger trial.canvas@.at(px, py)]
            canvas@.contains(px, py) && !under_sprite(
                px,
                py,
                x as int,
                y as int,
                sprite@.width,
                sprite@.height,
            ) ==> trial.canvas@.at(px, py) == canvas@.at(px, py),
        forall|px: int, py: int|
            #![trigger trial.canvas@.at(px, py)]
            canvas@.contains(px, py) && under_sprite(
                px,
                py,
                x as int,
                y as int,
                sprite@.width,
                sprite@.height,
            ) ==> placed_pixel(canvas@.at(px, py), sprite@.at(px - x, py - y), trial.canvas@.at(px, py)),
        all_transparent(sprite@) ==> narrow_view(trial.canvas@) == narrow_view(canvas@),
        comparison_outcome(trial.result, wanted@, narrow_view(trial.canvas@)),
{
    let mut copy = canvas.duplicate();
    overlay_at(&mut copy, sprite, x as i64, y as i64);
    proof {
        if all_transparent(sprite@) {
            lemma_transparent_sprite_invisible(canvas@, sprite@, x as int, y as int, copy@);
        }
    }
    let result = score_canvas(wanted, &copy);
    Trial { x, y, canvas: copy, result }
}

/// Lays `sprite` over a copy of `canvas` at a random position inside the
/// canvas and scores the copy against `wanted`.
pub fn try_placement(wanted: &Pixmap<Rgba8>, canvas: &Pixmap<Rgba16>, sprite: &Pixmap<Rgba16>) -> (trial: Trial)
    requires
        wanted@.valid(),
        canvas@.valid(),
        sprite@.valid(),
        0 < canvas@.width,
        0 < canvas@.height,
    ensures
        trial.x < canvas@.width,
        trial.y < canvas@.height,
        trial.canvas@ == overlaid(canvas@, sprite@, trial.x as int, trial.y as int),
        trial.canvas@.valid(),
        trial.canvas@.same_size(canvas@),
        forall|px: int, py: int|
            #![trigger trial.canvas@.at(px, py)]
            canvas@.contains(px, py) && !under_sprite(
                px,
                py,
                trial.x as int,
                trial.y as int,
                sprite@.width,
                sprite@.height,
            ) ==> trial.canvas@.at(px, py) == canvas@.at(px, py),
        forall|px: int, py: int|
            #![trigger trial.canvas@.at(px, py)]
            canvas@.contains(px, py) && under_sprite(
                px,
                py,
                trial.x as int,
                trial.y as int,
                sprite@.width,
                sprite@.height,
            ) ==> placed_pixel(
                canvas@.at(px, py),
                sprite@.at(px - trial.x, py - trial.y),
                trial.canvas@.at(px, py),
            ),
        all_transparent(sprite@) ==> narrow_view(trial.canvas@) == narrow_view(canvas@),
        comparison_outcome(trial.result, wanted@, narrow_view(trial.canvas@)),
{
    let (x, y) = draw_position(canvas.width(), canvas.height());
    compose_at(wanted, canvas, sprite, x, y)
}

/// Lays `sprite` over `canvas` itself at a random position with
/// `x < bound_width` and `y < bound_height`, and returns that position.
pub fn place_sprite(
    canvas: &mut Pixmap<Rgba16>,
    sprite: &Pixmap<Rgba16>,
    bound_width: u32,
    bound_height: u32,
) -> (pos: (u32, u32))
    requires
        old(canvas)@.valid(),
        sprite@.valid(),
        0 < bound_width,
        0 < bound_height,
    ensures
        pos.0 < bound_width,
        pos.1 < bound_height,
        final(canvas)@ == overlaid(old(canvas)@, sprite@, pos.0 as int, pos.1 as int),
        final(canvas)@.valid(),
        final(canvas)@.same_size(old(canvas)@),
        forall|px: int, py: int|
            #![trigger final(canvas)@.at(px, py)]
            old(canvas)@.contains(px, py) && !under_sprite(
                px,
                py,
                pos.0 as int,
                pos.1 as int,
                sprite@.width,
                sprite@.height,
            ) ==> final(canvas)@.at(px, py) == old(canvas)@.at(px, py),
        forall|px: int, py: int|
            #![trigger final(canvas)@.at(px, py)]
            old(canvas)@.contains(px, py) && under_sprite(
                px,
                py,
                pos.0 as int,
                pos.1 as int,
                sprite@.width,
                sprite@.height,
            ) ==> placed_pixel(
                old(canvas)@.at(px, py),
                sprite@.at(px - pos.0, py - pos.1),
                final(canvas)@.at(px, py),
            ),
        all_transparent(sprite@) ==> narrow_view(final(canvas)@) == narrow_view(old(canvas)@),
{
    let (x, y) = draw_position(bound_width, bound_height);
    let ghost before = canvas@;
    overlay_at(canvas, sprite, x as i64, y as i64);
    proof {
        if all_transparent(sprite@) {
            lemma_transparent_sprite_invisible(before, sprite@, x as int, y as int, canvas@);
        }
    }
    (x, y)
}

/// Laying a sprite whose pixels are all transparent changes nothing that
/// the comparison reads: the canvas, read in 8 bits, is the same before and
/// after, wherever the sprite is laid.
pub proof fn lemma_transparent_sprite_invisible(
    before: PixmapView<Rgba16>,
    sprite: PixmapView<Rgba16>,
    x: int,
    y: int,
    after: PixmapView<Rgba16>,
)
    requires
        before.valid(),
        after.valid(),
        after.same_size(before),
        all_transparent(sprite),
        forall|px: int, py: int|
            #![trigger after.at(px, py)]
            before.contains(px, py) && !under_sprite(px, py, x, y, sprite.width, sprite.height)
                ==> after.at(px, py) == before.at(px, py),
        forall|px: int, py: int|
            #![trigger after.at(px, py)]
            before.contains(px, py) && under_sprite(px, py, x, y, sprite.width, sprite.height)
                ==> placed_pixel(before.at(px, py), sprite.at(px - x, py - y), after.at(px, py)),
    ensures
        narrow_view(after) == narrow_view(before),
{
    let w = before.width as int;
    let n = before.pixels.len();
    assert forall|i: int| 0 <= i < n implies narrow_pixel(#[trigger] after.pixels[i]) == narrow_pixel(
        before.pixels[i],
    ) by {
        let px = i % w;
        let py = i / w;
        assert(w > 0) by (nonlinear_arith)
            requires
                0 <= i < n,
                n == before.width * before.height,
                w == before.width,
        ;
        assert(py * w + px == i) by (nonlinear_arith)
            requires
                w > 0,
                px == i % w,
                py == i / w,
        ;
        assert(0 <= px < w) by (nonlinear_arith)
            requires
                w > 0,
                px == i % w,
        ;
        assert(0 <= py < before.height) by (nonlinear_arith)
            requires
                w > 0,
                py == i / w,
                0 <= i < n,
                n == before.width * before.height,
                w == before.width,
        ;
        assert(before.contains(px, py));
        if under_sprite(px, py, x, y, sprite.width, sprite.height) {
            assert(sprite.contains(px - x, py - y));
            assert(transparent(sprite.at(px - x, py - y)));
            assert(placed_pixel(before.at(px, py), sprite.at(px - x, py - y), after.at(px, py)));
            lemma_narrow_widen_pixel(narrow_pixel(before.at(px, py)));
        } else {
            assert(after.at(px, py) == before.at(px, py));
        }
    }
    assert(narrow_view(after).pixels =~= narrow_view(before).pixels);
}

/// Where an opaque sprite pixel lies, the canvas reads, in 8 bits, exactly
/// as that sprite pixel does.
pub proof fn lemma_opaque_sprite_shows(
    before: PixmapView<Rgba16>,
    sprite: PixmapView<Rgba16>,
    x: int,
    y: int,
    after: PixmapView<Rgba16>,
    px: int,
    py: int,
)
    requires
        before.contains(px, py),
        under_sprite(px, py, x, y, sprite.width, sprite.height),
        opaque(sprite.at(px - x, py - y)),
        placed_pixel(before.at(px, py), sprite.at(px - x, py - y), after.at(px, py)),
    ensures
        narrow_pixel(after.at(px, py)) == narrow_pixel(sprite.at(px - x, py - y)),
{
    lemma_narrow_widen_pixel(narrow_pixel(sprite.at(px - x, py - y)));
}

} // verus!
