//! Row-major pixel buffers with 8-bit and 16-bit RGBA pixels.

use vstd::prelude::*;

verus! {

/// An RGBA pixel with 8-bit channels.
#[derive(Clone, Copy, Debug, PartialEq, Eq, Structural)]
pub struct Rgba8 {
    pub r: u8,
    pub g: u8,
    pub b: u8,
    pub a: u8,
}

/// An RGBA pixel with 16-bit channels.
#[derive(Clone, Copy, Debug, PartialEq, Eq, Structural)]
pub struct Rgba16 {
    pub r: u16,
    pub g: u16,
    pub b: u16,
    pub a: u16,
}

/// The mathematical picture of a pixel buffer: its dimensions and its pixels
/// in row-major order.
pub struct PixmapView<P> {
    pub width: nat,
    pub height: nat,
    pub pixels: Seq<P>,
}

impl<P> PixmapView<P> {
    /// There is exactly one pixel per position and the dimensions fit in `u32`.
    pub open spec fn valid(self) -> bool {
        &&& self.width <= u32::MAX
        &&& self.height <= u32::MAX
        &&& self.pixels.len() == self.width * self.height
    }

    /// Whether `(x, y)` lies inside the picture.
    pub open spec fn contains(self, x: int, y: int) -> bool {
        0 <= x < self.width && 0 <= y < self.height
    }

    /// The pixel at column `x` of row `y`.
    pub open spec fn at(self, x: int, y: int) -> P {
        self.pixels[y * self.width + x]
    }

    /// Whether both pictures have the same width and the same height.
    pub open spec fn same_size<Q>(self, other: PixmapView<Q>) -> bool {
        self.width == other.width && self.height == other.height
    }
}

/// Pixels `(x, y)` of a `width`-wide picture with `x < width` and `y < height`
/// sit at distinct indices below `width * height`.
pub proof fn lemma_index_in_bounds(width: nat, height: nat, x: nat, y: nat)
    requires
        x < width,
        y < height,
    ensures
        y * width + x < width * height,
{
    assert(y * width + x < width * height) by (nonlinear_arith)
        requires
            x < width,
            y < height,
    ;
}

/// A pixel buffer of `width * height` pixels stored row by row.
pub struct Pixmap<P> {
    pub(crate) width: u32,
    pub(crate) height: u32,
    pub(crate) pixels: Vec<P>,
}

impl<P> View for Pixmap<P> {
    type V = PixmapView<P>;

    closed spec fn view(&self) -> PixmapView<P> {
        PixmapView { width: self.width as nat, height: self.height as nat, pixels: self.pixels@ }
    }
}

impl<P: Copy> Pixmap<P> {
    /// Builds a buffer from its pixels in row-major order; `None` when their
    /// number is not `width * height`.
    pub fn from_pixels(width: u32, height: u32, pixels: Vec<P>) -> (result: Option<Self>)
        ensures
            match result {
                Some(img) => {
                    &&& pixels@.len() == width * height
                    &&& img@ == PixmapView { width: width as nat, height: height as nat, pixels: pixels@ }
                    &&& img@.valid()
                },
                None => pixels@.len() != width * height,
            },
    {
        let len = pixels.len();
        if height == 0 {
            if len == 0 {
                return Some(Pixmap { width, height, pixels });
            }
            return None;
        }
        let h = height as usize;
        let w = width as usize;
        if w > len / h {
            assert(w * h > len) by (nonlinear_arith)
                requires
                    w > len / h,
                    h > 0,
            ;
            return None;
        }
        assert(w * h <= len) by (nonlinear_arith)
            requires
                w <= len / h,
                h > 0,
        ;
        let area: usize = w * h;
        if area == len {
            Some(Pixmap { width, height, pixels })
        } else {
            None
        }
    }
}

impl<P: Copy> Pixmap<P> {
    /// A `width` by `height` buffer whose pixels are all `fill`.
    pub fn filled(width: u32, height: u32, fill: P) -> (img: Self)
        requires
            width * height <= usize::MAX,
        ensures
            img@.valid(),
            img@.width == width,
            img@.height == height,
            forall|i: int| 0 <= i < img@.pixels.len() ==> img@.pixels[i] == fill,
    {
        let area: usize = width as usize * height as usize;
        let mut pixels: Vec<P> = Vec::new();
        let mut i: usize = 0;
        while i < area
            invariant
                i <= area,
                pixels@.len() == i,
                forall|j: int| 0 <= j < i ==> pixels@[j] == fill,
            decreases area - i,
        {
            pixels.push(fill);
            i = i + 1;
        }
        Pixmap { width, height, pixels }
    }

    /// The number of columns.
    pub fn width(&self) -> (w: u32)
        ensures
            w == self@.width,
    {
        self.width
    }

    /// The number of rows.
    pub fn height(&self) -> (h: u32)
        ensures
            h == self@.height,
    {
        self.height
    }

    /// All pixels, row by row.
    pub fn pixels(&self) -> (pixels: &Vec<P>)
        ensures
            pixels@ == self@.pixels,
    {
        &self.pixels
    }

    /// The pixel at column `x` of row `y`.
    pub fn pixel(&self, x: u32, y: u32) -> (p: P)
        requires
            self@.valid(),
            self@.contains(x as int, y as int),
        ensures
            p == self@.at(x as int, y as int),
    {
        proof {
            lemma_index_in_bounds(self@.width, self@.height, x as nat, y as nat);
            assert(self.pixels@.len() == self.pixels.len());
        }
        let i: usize = y as usize * self.width as usize + x as usize;
        self.pixels[i]
    }

    /// Replaces the pixel at column `x` of row `y`.
    pub fn set_pixel(&mut self, x: u32, y: u32, p: P)
        requires
            old(self)@.valid(),
            old(self)@.contains(x as int, y as int),
        ensures
            final(self)@.valid(),
            final(self)@.same_size(old(self)@),
            final(self)@.pixels == old(self)@.pixels.update(
                y * old(self)@.width + x,
                p,
            ),
    {
        proof {
            lemma_index_in_bounds(self@.width, self@.height, x as nat, y as nat);
            assert(self.pixels@.len() == self.pixels.len());
        }
        let i: usize = y as usize * self.width as usize + x as usize;
        self.pixels.set(i, p);
    }

    /// Every pixel with its column and row, row by row from the top and left
    /// to right within a row.
    pub fn listing(&self) -> (entries: Vec<(u32, u32, P)>)
        requires
            self@.valid(),
        ensures
            entries@.len() == self@.pixels.len(),
            forall|x: int, y: int|
                #![trigger self@.at(x, y)]
                self@.contains(x, y) ==> entries@[y * self@.width + x] == (
                    x as u32,
                    y as u32,
                    self@.at(x, y),
                ),
    {
        let ghost w = self@.width;
        let mut entries: Vec<(u32, u32, P)> = Vec::new();
        let mut y: u32 = 0;
        while y < self.height
            invariant
                self@.valid(),
                w == self.width,
                y <= self.height,
                entries@.len() == y * w,
                forall|xx: int, yy: int|
                    #![trigger self@.at(xx, yy)]
                    0 <= xx < w && 0 <= yy < y ==> entries@[yy * w + xx] == (
                        xx as u32,
                        yy as u32,
                        self@.at(xx, yy),
                    ),
            decreases self.height - y,
        {
            let mut x: u32 = 0;
            while x < self.width
                invariant
                    self@.valid(),
                    w == self.width,
                    y < self.height,
                    x <= self.width,
                    entries@.len() == y * w + x,
                    forall|xx: int, yy: int|
                        #![trigger self@.at(xx, yy)]
                        (0 <= xx < w && 0 <= yy < y) || (0 <= xx < x && yy == y) ==> entries@[yy
                            * w + xx] == (xx as u32, yy as u32, self@.at(xx, yy)),
                decreases self.width - x,
            {
                let p = self.pixel(x, y);
                entries.push((x, y, p));
                proof {
                    assert forall|xx: int, yy: int|
                        #![trigger self@.at(xx, yy)]
                        (0 <= xx < w && 0 <= yy < y) || (0 <= xx < x + 1 && yy == y) implies entries@[yy
                            * w + xx] == (xx as u32, yy as u32, self@.at(xx, yy)) by {
                        if yy < y {
                            assert(yy * w + xx < y * w) by (nonlinear_arith)
                                requires
                                    0 <= xx < w,
                                    0 <= yy < y,
                            ;
                        }
                    }
                }
                x = x + 1;
            }
            assert((y + 1) * w == y * w + w) by (nonlinear_arith);
            y = y + 1;
        }
        assert(self.height * w == w * self.height) by (nonlinear_arith);
        entries
    }

    /// A copy of this buffer.
    pub fn duplicate(&self) -> (copy: Self)
        ensures
            copy@ == self@,
    {
        let n = self.pixels.len();
        let mut pixels: Vec<P> = Vec::new();
        let mut i: usize = 0;
        while i < n
            invariant
                n == self.pixels@.len(),
                i <= n,
                pixels@ == self.pixels@.subrange(0, i as int),
            decreases n - i,
        {
            pixels.push(self.pixels[i]);
            i = i + 1;
        }
        assert(pixels@ == self.pixels@);
        Pixmap { width: self.width, height: self.height, pixels }
    }
}

/// The 8-bit value nearest to the 16-bit channel `c`, as `image` converts
/// one to the other: `(c + 128) / 257`.
pub open spec fn narrow_channel(c: u16) -> u8 {
    ((c + 128) / 257) as u8
}

/// The 8-bit pixel nearest to a 16-bit one, channel by channel.
pub open spec fn narrow_pixel(p: Rgba16) -> Rgba8 {
    Rgba8 {
        r: narrow_channel(p.r),
        g: narrow_channel(p.g),
        b: narrow_channel(p.b),
        a: narrow_channel(p.a),
    }
}

/// The 16-bit value that `image` stores for the 8-bit channel `c`:
/// `(c << 8) | c`, that is `257 * c`.
pub open spec fn widen_channel(c: u8) -> u16 {
    (c * 257) as u16
}

/// The 16-bit pixel stored for an 8-bit one, channel by channel.
pub open spec fn widen_pixel(p: Rgba8) -> Rgba16 {
    Rgba16 {
        r: widen_channel(p.r),
        g: widen_channel(p.g),
        b: widen_channel(p.b),
        a: widen_channel(p.a),
    }
}

/// Reading back in 8 bits a channel stored from 8 bits gives it back.
pub proof fn lemma_narrow_widen_channel(c: u8)
    ensures
        narrow_channel(widen_channel(c)) == c,
{
    assert(c * 257 <= u16::MAX);
    assert((c * 257 + 128) / 257 == c) by (nonlinear_arith)
        requires
            0 <= c <= 255,
    ;
}

/// Reading back in 8 bits a pixel stored from 8 bits gives it back.
pub proof fn lemma_narrow_widen_pixel(p: Rgba8)
    ensures
        narrow_pixel(widen_pixel(p)) == p,
{
    lemma_narrow_widen_channel(p.r);
    lemma_narrow_widen_channel(p.g);
    lemma_narrow_widen_channel(p.b);
    lemma_narrow_widen_channel(p.a);
}

fn narrow_channel_exec(c: u16) -> (n: u8)
    ensures
        n == narrow_channel(c),
{
    let v: u32 = (c as u32 + 128) / 257;
    assert(v <= 255);
    v as u8
}

/// The 8-bit picture of a 16-bit one: same size, each pixel narrowed.
pub open spec fn narrow_view(img: PixmapView<Rgba16>) -> PixmapView<Rgba8> {
    PixmapView {
        width: img.width,
        height: img.height,
        pixels: img.pixels.map_values(|p: Rgba16| narrow_pixel(p)),
    }
}

/// The 8-bit rendering of a 16-bit buffer, as `image` reads a 16-bit RGBA
/// image pixel by pixel in 8-bit RGBA.
pub fn narrow(img: &Pixmap<Rgba16>) -> (out: Pixmap<Rgba8>)
    ensures
        out@ == narrow_view(img@),
        img@.valid() ==> out@.valid(),
{
    let n = img.pixels.len();
    let mut pixels: Vec<Rgba8> = Vec::new();
    let mut i: usize = 0;
    while i < n
        invariant
            n == img.pixels@.len(),
            i <= n,
            pixels@ == img.pixels@.subrange(0, i as int).map_values(|p: Rgba16| narrow_pixel(p)),
        decreases n - i,
    {
        let p = img.pixels[i];
        let q = Rgba8 {
            r: narrow_channel_exec(p.r),
            g: narrow_channel_exec(p.g),
            b: narrow_channel_exec(p.b),
            a: narrow_channel_exec(p.a),
        };
        pixels.push(q);
        proof {
            assert(img.pixels@.subrange(0, i + 1) == img.pixels@.subrange(0, i as int).push(p));
        }
        i = i + 1;
    }
    assert(img.pixels@.subrange(0, n as int) == img.pixels@);
    Pixmap { width: img.width, height: img.height, pixels }
}

} // verus!
