//! How closely an attempt matches the wanted image, pixel by pixel.
//!
//! Each pixel scores `765 - (|dr| + |dg| + |db|)`: an exact colour scores
//! 765 and the exact opposite colour scores 0. Alpha is not compared. The
//! comparison also paints a debug picture whose red channel grows with the
//! difference and whose green channel grows with the match.

use vstd::prelude::*;

use crate::pixmap::{Pixmap, PixmapView, Rgba8};

verus! {

/// The distance between two 8-bit channel values.
pub open spec fn channel_gap(a: u8, b: u8) -> int {
    if a >= b {
        a - b
    } else {
        b - a
    }
}

/// The summed channel distance of the red, green and blue channels.
pub open spec fn color_distance(wanted: Rgba8, attempt: Rgba8) -> int {
    channel_gap(wanted.r, attempt.r) + channel_gap(wanted.g, attempt.g) + channel_gap(
        wanted.b,
        attempt.b,
    )
}

/// The score of one pixel: 765 for the same colour, less the farther apart.
pub open spec fn pixel_score(wanted: Rgba8, attempt: Rgba8) -> int {
    765 - color_distance(wanted, attempt)
}

/// The summed score of the first `n` pixel pairs.
pub open spec fn score_prefix(wanted: Seq<Rgba8>, attempt: Seq<Rgba8>, n: nat) -> int
    decreases n,
{
    if n == 0 {
        0
    } else {
        score_prefix(wanted, attempt, (n - 1) as nat) + pixel_score(
            wanted[n - 1],
            attempt[n - 1],
        )
    }
}

/// The score of a whole attempt: the sum of its pixel scores.
pub open spec fn image_score(wanted: PixmapView<Rgba8>, attempt: PixmapView<Rgba8>) -> int {
    score_prefix(wanted.pixels, attempt.pixels, wanted.pixels.len())
}

/// The debug colour of one pixel pair: red is the channel distance wrapped
/// to a byte, green is a third of the pixel score, blue is 0, alpha opaque.
pub open spec fn debug_pixel(wanted: Rgba8, attempt: Rgba8) -> Rgba8 {
    Rgba8 {
        r: (color_distance(wanted, attempt) % 256) as u8,
        g: (pixel_score(wanted, attempt) / 3) as u8,
        b: 0,
        a: 255,
    }
}

/// The debug picture of an attempt: the size of the wanted image, one debug
/// colour per pixel pair.
pub open spec fn debug_view(wanted: PixmapView<Rgba8>, attempt: PixmapView<Rgba8>) -> PixmapView<
    Rgba8,
> {
    PixmapView {
        width: wanted.width,
        height: wanted.height,
        pixels: Seq::new(
            wanted.pixels.len(),
            |i: int| debug_pixel(wanted.pixels[i], attempt.pixels[i]),
        ),
    }
}

/// Why two images could not be compared.
#[derive(Clone, Copy, Debug, PartialEq, Eq, Structural)]
pub enum CompareError {
    /// The two images differ in width or height.
    SizeMismatch,
    /// The total score does not fit in a `u32`.
    ScoreOverflow,
}

/// The outcome of a successful comparison.
pub struct Comparison {
    /// The summed pixel score.
    pub score: u32,
    /// The debug picture (see [`debug_view`]).
    pub debug: Pixmap<Rgba8>,
}

/// A pixel scores between 0 and 765.
pub proof fn lemma_pixel_score_range(wanted: Rgba8, attempt: Rgba8)
    ensures
        0 <= pixel_score(wanted, attempt) <= 765,
{
}

/// Partial scores grow with the number of pixels taken and stay below 765
/// per pixel.
pub proof fn lemma_score_prefix_bounds(wanted: Seq<Rgba8>, attempt: Seq<Rgba8>, m: nat, n: nat)
    requires
        m <= n,
    ensures
        0 <= score_prefix(wanted, attempt, m) <= score_prefix(wanted, attempt, n),
        score_prefix(wanted, attempt, n) <= 765 * n,
    decreases n,
{
    if n > 0 {
        lemma_pixel_score_range(wanted[n - 1], attempt[n - 1]);
        if m < n {
            lemma_score_prefix_bounds(wanted, attempt, m, (n - 1) as nat);
        } else {
            lemma_score_prefix_bounds(wanted, attempt, (n - 1) as nat, (n - 1) as nat);
        }
    }
}

/// Whether two pixels agree in red, green and blue.
pub open spec fn same_color(wanted: Rgba8, attempt: Rgba8) -> bool {
    wanted.r == attempt.r && wanted.g == attempt.g && wanted.b == attempt.b
}

/// Whether every channel of one pixel is the exact opposite of the other's:
/// one is 0 where the other is 255.
pub open spec fn opposite_color(wanted: Rgba8, attempt: Rgba8) -> bool {
    &&& channel_gap(wanted.r, attempt.r) == 255
    &&& channel_gap(wanted.g, attempt.g) == 255
    &&& channel_gap(wanted.b, attempt.b) == 255
}

/// The exact colour scores 765 and paints pure green; the exact opposite
/// colour scores 0 and paints red (765 wrapped to a byte is 253); nothing
/// else scores 765 or 0.
pub proof fn lemma_pixel_score_extremes(wanted: Rgba8, attempt: Rgba8)
    ensures
        pixel_score(wanted, attempt) == 765 <==> same_color(wanted, attempt),
        pixel_score(wanted, attempt) == 0 <==> opposite_color(wanted, attempt),
        same_color(wanted, attempt) ==> debug_pixel(wanted, attempt) == (Rgba8 {
            r: 0,
            g: 255,
            b: 0,
            a: 255,
        }),
        opposite_color(wanted, attempt) ==> debug_pixel(wanted, attempt) == (Rgba8 {
            r: 253,
            g: 0,
            b: 0,
            a: 255,
        }),
{
}

/// Swapping the two images leaves the score unchanged, pixel by pixel.
proof fn lemma_score_prefix_symmetric(wanted: Seq<Rgba8>, attempt: Seq<Rgba8>, n: nat)
    ensures
        score_prefix(wanted, attempt, n) == score_prefix(attempt, wanted, n),
    decreases n,
{
    if n > 0 {
        lemma_score_prefix_symmetric(wanted, attempt, (n - 1) as nat);
    }
}

/// The score of `n` pixel pairs is `765 * n` exactly when all of them agree
/// in colour.
proof fn lemma_score_prefix_perfect(wanted: Seq<Rgba8>, attempt: Seq<Rgba8>, n: nat)
    ensures
        score_prefix(wanted, attempt, n) == 765 * n <==> (forall|i: int|
            0 <= i < n ==> #[trigger] same_color(wanted[i], attempt[i])),
    decreases n,
{
    if n > 0 {
        lemma_score_prefix_perfect(wanted, attempt, (n - 1) as nat);
        lemma_score_prefix_bounds(wanted, attempt, (n - 1) as nat, (n - 1) as nat);
        lemma_pixel_score_extremes(wanted[n - 1], attempt[n - 1]);
        if forall|i: int| 0 <= i < n ==> #[trigger] same_color(wanted[i], attempt[i]) {
            assert(same_color(wanted[n - 1], attempt[n - 1]));
        }
        if score_prefix(wanted, attempt, n) == 765 * n {
            assert forall|i: int| 0 <= i < n implies #[trigger] same_color(
                wanted[i],
                attempt[i],
            ) by {}
        }
    }
}

/// Comparing A with B scores the same as comparing B with A.
pub proof fn lemma_score_symmetric(a: PixmapView<Rgba8>, b: PixmapView<Rgba8>)
    requires
        a.valid(),
        b.valid(),
        a.same_size(b),
    ensures
        image_score(a, b) == image_score(b, a),
{
    lemma_score_prefix_symmetric(a.pixels, b.pixels, a.pixels.len());
}

/// A score lies between 0 and 765 per pixel.
pub proof fn lemma_score_bounds(a: PixmapView<Rgba8>, b: PixmapView<Rgba8>)
    requires
        a.valid(),
        b.valid(),
        a.same_size(b),
    ensures
        0 <= image_score(a, b) <= 765 * a.width * a.height,
{
    lemma_score_prefix_bounds(a.pixels, b.pixels, a.pixels.len(), a.pixels.len());
    assert(765 * a.pixels.len() == 765 * a.width * a.height) by (nonlinear_arith)
        requires
            a.pixels.len() == a.width * a.height,
    ;
}

/// An attempt reaches the top score, 765 per pixel, exactly when every pixel
/// has the wanted colour; in particular an image compared with itself does.
pub proof fn lemma_perfect_score(a: PixmapView<Rgba8>, b: PixmapView<Rgba8>)
    requires
        a.valid(),
        b.valid(),
        a.same_size(b),
    ensures
        image_score(a, b) == 765 * a.width * a.height <==> (forall|x: int, y: int|
            a.contains(x, y) ==> #[trigger] same_color(a.at(x, y), b.at(x, y))),
        image_score(a, a) == 765 * a.width * a.height,
{
    let n = a.pixels.len();
    lemma_score_prefix_perfect(a.pixels, b.pixels, n);
    lemma_score_prefix_perfect(a.pixels, a.pixels, n);
    assert(765 * n == 765 * a.width * a.height) by (nonlinear_arith)
        requires
            n == a.width * a.height,
    ;
    if forall|x: int, y: int| a.contains(x, y) ==> #[trigger] same_color(a.at(x, y), b.at(x, y)) {
        assert forall|i: int| 0 <= i < n implies #[trigger] same_color(a.pixels[i], b.pixels[i]) by {
            let x = i % (a.width as int);
            let y = i / (a.width as int);
            assert(a.width > 0) by (nonlinear_arith)
                requires
                    0 <= i < n,
                    n == a.width * a.height,
            ;
            assert(y * a.width + x == i) by (nonlinear_arith)
                requires
                    a.width > 0,
                    x == i % (a.width as int),
                    y == i / (a.width as int),
            ;
            assert(0 <= x < a.width) by (nonlinear_arith)
                requires
                    a.width > 0,
                    x == i % (a.width as int),
            ;
            assert(0 <= y < a.height) by (nonlinear_arith)
                requires
                    a.width > 0,
                    y == i / (a.width as int),
                    0 <= i < n,
                    n == a.width * a.height,
            ;
            assert(same_color(a.at(x, y), b.at(x, y)));
        }
    }
    if forall|i: int| 0 <= i < n ==> #[trigger] same_color(a.pixels[i], b.pixels[i]) {
        assert forall|x: int, y: int| a.contains(x, y) implies #[trigger] same_color(
            a.at(x, y),
            b.at(x, y),
        ) by {
            crate::pixmap::lemma_index_in_bounds(a.width, a.height, x as nat, y as nat);
            assert(same_color(a.pixels[y * a.width + x], b.pixels[y * a.width + x]));
        }
    }
    assert forall|i: int| 0 <= i < n implies #[trigger] same_color(a.pixels[i], a.pixels[i]) by {
    }
}

fn channel_gap_exec(a: u8, b: u8) -> (gap: u32)
    ensures
        gap == channel_gap(a, b),
{
    if a >= b {
        (a - b) as u32
    } else {
        (b - a) as u32
    }
}

fn pixel_distance(wanted: Rgba8, attempt: Rgba8) -> (d: u32)
    ensures
        d == color_distance(wanted, attempt),
        d <= 765,
{
    channel_gap_exec(wanted.r, attempt.r) + channel_gap_exec(wanted.g, attempt.g)
        + channel_gap_exec(wanted.b, attempt.b)
}

/// What comparing `attempt` with `wanted` gives: `SizeMismatch` exactly when
/// the sizes differ, `ScoreOverflow` exactly when the sizes agree and the
/// score exceeds `u32::MAX`, and otherwise the score with the debug picture.
pub open spec fn comparison_outcome(
    result: Result<Comparison, CompareError>,
    wanted: PixmapView<Rgba8>,
    attempt: PixmapView<Rgba8>,
) -> bool {
    match result {
        Ok(c) => {
            &&& wanted.same_size(attempt)
            &&& image_score(wanted, attempt) <= u32::MAX
            &&& c.score == image_score(wanted, attempt)
            &&& c.debug@ == debug_view(wanted, attempt)
            &&& c.debug@.valid()
        },
        Err(CompareError::SizeMismatch) => !wanted.same_size(attempt),
        Err(CompareError::ScoreOverflow) => {
            &&& wanted.same_size(attempt)
            &&& image_score(wanted, attempt) > u32::MAX
        },
    }
}

/// Compares an attempt with the wanted image.
///
/// Images of different sizes give `SizeMismatch`; a total score beyond
/// `u32::MAX` gives `ScoreOverflow`; otherwise the result holds the score and
/// the debug picture.
pub fn compare_images(wanted: &Pixmap<Rgba8>, attempt: &Pixmap<Rgba8>) -> (result: Result<
    Comparison,
    CompareError,
>)
    requires
        wanted@.valid(),
        attempt@.valid(),
    ensures
        comparison_outcome(result, wanted@, attempt@),
{
    if wanted.width() != attempt.width() || wanted.height() != attempt.height() {
        return Err(CompareError::SizeMismatch);
    }
    let ws = wanted.pixels();
    let es = attempt.pixels();
    let n = ws.len();
    let ghost target = debug_view(wanted@, attempt@);
    let mut debug: Vec<Rgba8> = Vec::new();
    let mut score: u32 = 0;
    let mut i: usize = 0;
    while i < n
        invariant
            n == ws@.len(),
            ws@ == wanted@.pixels,
            es@ == attempt@.pixels,
            ws@.len() == es@.len(),
            i <= n,
            score == score_prefix(ws@, es@, i as nat),
            debug@ == target.pixels.subrange(0, i as int),
            target == debug_view(wanted@, attempt@),
            wanted@.valid(),
            wanted@.same_size(attempt@),
        decreases n - i,
    {
        let w = ws[i];
        let e = es[i];
        let d = pixel_distance(w, e);
        let added: u32 = 765 - d;
        match score.checked_add(added) {
            Some(s) => {
                score = s;
            },
            None => {
                proof {
                    lemma_score_prefix_bounds(ws@, es@, (i + 1) as nat, n as nat);
                }
                return Err(CompareError::ScoreOverflow);
            },
        }
        let mark = Rgba8 { r: (d % 256) as u8, g: (added / 3) as u8, b: 0, a: 255 };
        debug.push(mark);
        proof {
            assert(target.pixels.subrange(0, i + 1) == target.pixels.subrange(0, i as int).push(
                mark,
            ));
        }
        i = i + 1;
    }
    proof {
        assert(target.pixels.subrange(0, n as int) == target.pixels);
    }
    match Pixmap::from_pixels(wanted.width(), wanted.height(), debug) {
        Some(img) => Ok(Comparison { score, debug: img }),
        None => {
            proof {
                assert(false);
            }
            Err(CompareError::SizeMismatch)
        },
    }
}

} // verus!
