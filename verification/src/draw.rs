//! Random choices of a run: which sprite, where, how turned, in what colour.

use rand::Rng;
use vstd::prelude::*;

use crate::pixmap::Rgba8;

verus! {

/// Calls `rand::Rng::gen_range(0..bound)` on the generator that
/// `rand::thread_rng` hands out. Claimed of it: the result lies in
/// `0..bound`, as `gen_range` documents for a non-empty range (it panics on
/// an empty one, which `requires` rules out). Which number comes out is
/// chance and is not stated.
#[verifier::external_body]
fn random_below(bound: u64) -> (r: u64)
    requires
        0 < bound,
    ensures
        r < bound,
{
    rand::thread_rng().gen_range(0..bound)
}

/// The drawn parameters of a candidate placement, all but its scale.
#[derive(Clone, Copy, Debug, PartialEq, Eq, Structural)]
pub struct Candidate {
    /// Index of the sprite in the sprite list.
    pub sprite: usize,
    /// Column within the wanted image.
    pub x: i32,
    /// Row within the wanted image.
    pub y: i32,
    /// Rotation in whole degrees.
    pub rotation: i32,
    /// The tint; its alpha is always opaque.
    pub color: Rgba8,
}

/// Whether a candidate is one that [`draw_candidate`] can produce for these
/// bounds.
pub open spec fn candidate_in_bounds(c: Candidate, sprite_count: nat, width: nat, height: nat) -> bool {
    &&& c.sprite < sprite_count
    &&& 0 <= c.x < width
    &&& 0 <= c.y < height
    &&& 0 <= c.rotation < 360
    &&& c.color.r < 255
    &&& c.color.g < 255
    &&& c.color.b < 255
    &&& c.color.a == 255
}

fn random_u8_below_255() -> (v: u8)
    ensures
        v < 255,
{
    random_below(255) as u8
}

/// The candidate made of seven drawn numbers, in the order in which they are
/// drawn: sprite index, column, row, rotation, red, green, blue.
pub open spec fn candidate_of(sprite: int, x: int, y: int, rotation: int, r: u8, g: u8, b: u8) -> Candidate {
    Candidate {
        sprite: sprite as usize,
        x: x as i32,
        y: y as i32,
        rotation: rotation as i32,
        color: Rgba8 { r, g, b, a: 255 },
    }
}

/// Whether seven drawn numbers lie in the ranges they are drawn from.
pub open spec fn draws_in_range(
    sprite_count: nat,
    width: nat,
    height: nat,
    sprite: int,
    x: int,
    y: int,
    rotation: int,
    r: u8,
    g: u8,
    b: u8,
) -> bool {
    &&& 0 <= sprite < sprite_count
    &&& 0 <= x < width
    &&& 0 <= y < height
    &&& 0 <= rotation < 360
    &&& r < 255
    &&& g < 255
    &&& b < 255
}

/// The candidates that in-range draws make are exactly the candidates in
/// bounds, and different draws make different candidates: every sprite,
/// position, rotation and tint in bounds is made by one draw and only one.
pub proof fn lemma_draws_cover_candidates(sprite_count: nat, width: nat, height: nat)
    requires
        sprite_count <= usize::MAX,
        width <= i32::MAX,
        height <= i32::MAX,
    ensures
        forall|sprite: int, x: int, y: int, rotation: int, r: u8, g: u8, b: u8|
            draws_in_range(sprite_count, width, height, sprite, x, y, rotation, r, g, b)
                ==> candidate_in_bounds(
                #[trigger] candidate_of(sprite, x, y, rotation, r, g, b),
                sprite_count,
                width,
                height,
            ),
        forall|c: Candidate|
            #[trigger] candidate_in_bounds(c, sprite_count, width, height) ==> draws_in_range(
                sprite_count,
                width,
                height,
                c.sprite as int,
                c.x as int,
                c.y as int,
                c.rotation as int,
                c.color.r,
                c.color.g,
                c.color.b,
            ) && candidate_of(
                c.sprite as int,
                c.x as int,
                c.y as int,
                c.rotation as int,
                c.color.r,
                c.color.g,
                c.color.b,
            ) == c,
        forall|s1: int, x1: int, y1: int, t1: int, r1: u8, g1: u8, b1: u8, s2: int, x2: int, y2: int, t2: int, r2: u8, g2: u8, b2: u8|
            draws_in_range(sprite_count, width, height, s1, x1, y1, t1, r1, g1, b1)
                && draws_in_range(sprite_count, width, height, s2, x2, y2, t2, r2, g2, b2)
                && #[trigger] candidate_of(s1, x1, y1, t1, r1, g1, b1) == #[trigger] candidate_of(
                s2,
                x2,
                y2,
                t2,
                r2,
                g2,
                b2,
            ) ==> s1 == s2 && x1 == x2 && y1 == y2 && t1 == t2 && r1 == r2 && g1 == g2 && b1 == b2,
{
}

/// The candidate made of drawn numbers: the sprite index, the column, the
/// row, the rotation, and an opaque tint of the drawn red, green and blue.
pub fn candidate_from_draws(
    sprite: u64,
    x: u64,
    y: u64,
    rotation: u64,
    r: u8,
    g: u8,
    b: u8,
) -> (c: Candidate)
    requires
        sprite <= usize::MAX,
        x <= i32::MAX,
        y <= i32::MAX,
        rotation <= i32::MAX,
    ensures
        c == candidate_of(sprite as int, x as int, y as int, rotation as int, r, g, b),
        c == (Candidate {
            sprite: sprite as usize,
            x: x as i32,
            y: y as i32,
            rotation: rotation as i32,
            color: Rgba8 { r, g, b, a: 255 },
        }),
{
    Candidate {
        sprite: sprite as usize,
        x: x as i32,
        y: y as i32,
        rotation: rotation as i32,
        color: Rgba8 { r, g, b, a: 255 },
    }
}

/// Draws a candidate: a sprite among `sprite_count`, a position inside a
/// `width` by `height` image, a rotation below 360 degrees and an opaque tint
/// whose channels are each below 255.
pub fn draw_candidate(sprite_count: usize, width: u32, height: u32) -> (c: Candidate)
    requires
        0 < sprite_count,
        0 < width <= i32::MAX,
        0 < height <= i32::MAX,
    ensures
        candidate_in_bounds(c, sprite_count as nat, width as nat, height as nat),
{
    let sprite = random_below(sprite_count as u64);
    let x = random_below(width as u64);
    let y = random_below(height as u64);
    let rotation = random_below(360);
    let r = random_u8_below_255();
    let g = random_u8_below_255();
    let b = random_u8_below_255();
    candidate_from_draws(sprite, x, y, rotation, r, g, b)
}

/// Draws a position `(x, y)` with `x < width` and `y < height`.
pub fn draw_position(width: u32, height: u32) -> (pos: (u32, u32))
    requires
        0 < width,
        0 < height,
    ensures
        pos.0 < width,
        pos.1 < height,
{
    let x = random_below(width as u64) as u32;
    let y = random_below(height as u64) as u32;
    (x, y)
}

} // verus!
