use vstd::prelude::*;

use crate::blending::{BlendingMethod, PixelBlend};
use crate::pixel::{AlphaPixel, PixelChannel, encodes_channels};

verus! {

/// Why a pixel buffer and a width do not make an image.
#[derive(Debug, Clone, Copy, PartialEq, Eq, Structural)]
pub enum NewImageError {
    /// The number of pixels is not a multiple of the width.
    IncorrectWidth,
    /// The width is zero but the buffer is not empty.
    ZeroWidth,
}

/// A row-major grid of `AlphaPixel`s.
#[derive(Debug)]
pub struct Image<T: PixelChannel> {
    pixels: Vec<AlphaPixel<T>>,
    width: usize,
    height: usize,
}

/// `py * w + px < w * h` for a cell inside a `w × h` grid.
pub proof fn lemma_index_in_grid(w: int, h: int, px: int, py: int)
    requires
        0 <= px < w,
        0 <= py < h,
    ensures
        0 <= py * w + px < w * h,
{
    assert(py * w + px < w * h) by (nonlinear_arith)
        requires
            0 <= px < w,
            0 <= py < h,
    ;
    assert(0 <= py * w) by (nonlinear_arith)
        requires
            0 <= py,
            0 <= w,
    ;
}

/// The width and height actually drawn when a `sw × sh` image is placed at
/// `(x, y)` on a `dw × dh` one: the overlap, clipped at the far edges.
pub open spec fn clipped_extent(dw: nat, dh: nat, x: nat, y: nat, sw: nat, sh: nat) -> (nat, nat) {
    (
        if sw <= dw - x { sw } else { (dw - x) as nat },
        if sh <= dh - y { sh } else { (dh - y) as nat },
    )
}

/// The channel values of `pixels`: red, green, blue and alpha of each pixel
/// in turn.
pub open spec fn channel_values<T: PixelChannel>(pixels: Seq<AlphaPixel<T>>) -> Seq<nat> {
    Seq::new(
        4 * pixels.len(),
        |i: int|
            {
                let p = pixels[i / 4]@;
                if i % 4 == 0 {
                    p.0
                } else if i % 4 == 1 {
                    p.1
                } else if i % 4 == 2 {
                    p.2
                } else {
                    p.3
                }
            },
    )
}

impl<T: PixelChannel> Image<T> {
    #[verifier::type_invariant]
    spec fn well_formed(self) -> bool {
        &&& self.width * self.height <= usize::MAX
        &&& self.pixels@.len() == self.width * self.height
        &&& self.width == 0 ==> self.height == 0
    }

    /// The image's width in pixels.
    pub closed spec fn spec_width(&self) -> nat {
        self.width as nat
    }

    /// The image's height in pixels.
    pub closed spec fn spec_height(&self) -> nat {
        self.height as nat
    }

    /// The pixels, row after row.
    pub closed spec fn spec_pixels(&self) -> Seq<AlphaPixel<T>> {
        self.pixels@
    }

    /// Whether `(x, y)` lies inside the image.
    pub open spec fn spec_contains(&self, x: int, y: int) -> bool {
        0 <= x < self.spec_width() && 0 <= y < self.spec_height()
    }

    /// The pixel at `(x, y)`, meaningful when the image contains it.
    pub open spec fn spec_pixel_at(&self, x: int, y: int) -> AlphaPixel<T> {
        self.spec_pixels()[y * self.spec_width() + x]
    }

    /// `self` is `old` with `src` drawn on it at `(x, y)` with `blend`: every
    /// pixel of the clipped overlap is `blend` of the old pixel and the source
    /// pixel under it; every other pixel is unchanged.
    pub open spec fn is_blit_of<B: PixelBlend<T>>(
        &self,
        old: Image<T>,
        src: Image<T>,
        x: nat,
        y: nat,
        blend: B,
    ) -> bool {
        let (ew, eh) = clipped_extent(
            old.spec_width(),
            old.spec_height(),
            x,
            y,
            src.spec_width(),
            src.spec_height(),
        );
        &&& self.spec_width() == old.spec_width()
        &&& self.spec_height() == old.spec_height()
        &&& forall|px: int, py: int|
            #![trigger self.spec_pixel_at(px, py)]
            old.spec_contains(px, py) ==> if x <= px < x + ew && y <= py < y + eh {
                blend.blends_to(
                    old.spec_pixel_at(px, py),
                    src.spec_pixel_at(px - x, py - y),
                    self.spec_pixel_at(px, py),
                )
            } else {
                self.spec_pixel_at(px, py) == old.spec_pixel_at(px, py)
            }
    }

    pub fn get_pixels(&self) -> (r: &[AlphaPixel<T>])
        ensures
            r@ == self.spec_pixels(),
    {
        self.pixels.as_slice()
    }

    pub fn get_width(&self) -> (r: usize)
        ensures
            r == self.spec_width(),
    {
        self.width
    }

    pub fn get_height(&self) -> (r: usize)
        ensures
            r == self.spec_height(),
    {
        self.height
    }

    /// Create a new empty image, with zero width and height.
    pub fn new() -> (im: Self)
        ensures
            im.spec_width() == 0,
            im.spec_height() == 0,
            im.spec_pixels().len() == 0,
    {
        Image { pixels: Vec::new(), width: 0, height: 0 }
    }

    /// Create a new image, filled with `fill`. An image zero pixels wide has
    /// no rows.
    pub fn new_with_fill(fill: AlphaPixel<T>, width: usize, height: usize) -> (im: Self)
        requires
            width * height <= usize::MAX,
        ensures
            im.spec_width() == width,
            im.spec_height() == if width == 0 {
                0
            } else {
                height
            },
            im.spec_pixels() == Seq::new((width * height) as nat, |i: int| fill),
    {
        let n = width * height;
        let mut pixels: Vec<AlphaPixel<T>> = Vec::with_capacity(n);
        let mut i: usize = 0;
        while i < n
            invariant
                i <= n,
                pixels@ == Seq::new(i as nat, |j: int| fill),
            decreases n - i,
        {
            pixels.push(fill);
            i += 1;
            assert(pixels@ =~= Seq::new(i as nat, |j: int| fill));
        }
        let height = if width == 0 {
            0
        } else {
            height
        };
        Image { pixels, width, height }
    }

    /// Create a new image, from a [`Vec`] of `AlphaPixel<T>`, `width` pixels
    /// per row.
    pub fn from_pixels(pixels: Vec<AlphaPixel<T>>, width: usize) -> (r: Result<
        Self,
        NewImageError,
    >)
        ensures
            r is Ok <==> (width == 0 ==> pixels@.len() == 0) && (width != 0 ==> pixels@.len()
                % (width as nat) == 0),
            r == Err::<Self, _>(NewImageError::ZeroWidth) <==> width == 0 && pixels@.len() != 0,
            r == Err::<Self, _>(NewImageError::IncorrectWidth) <==> width != 0 && pixels@.len()
                % (width as nat) != 0,
            r matches Ok(im) ==> {
                &&& im.spec_pixels() == pixels@
                &&& width == 0 ==> im.spec_width() == 0 && im.spec_height() == 0
                &&& width != 0 ==> im.spec_width() == width && im.spec_height() == pixels@.len()
                    / (width as nat)
            },
    {
        if width == 0 {
            if pixels.len() == 0 {
                let im = Self::new();
                assert(im.spec_pixels() =~= pixels@);
                return Ok(im);
            } else {
                return Err(NewImageError::ZeroWidth);
            }
        }
        let height = pixels.len() / width;
        let rem = pixels.len() % width;
        if rem != 0 {
            Err(NewImageError::IncorrectWidth)
        } else {
            assert(width * height == pixels.len()) by (nonlinear_arith)
                requires
                    height == pixels.len() / width,
                    pixels.len() % width == 0,
                    width > 0,
            ;
            Ok(Image { pixels, width, height })
        }
    }

    /// Create an image from a function that maps coordinates `(x, y)` to
    /// pixels, sampled in row-major order. An image zero pixels wide has no
    /// rows.
    pub fn from_function<F: Fn(usize, usize) -> AlphaPixel<T>>(
        width: usize,
        height: usize,
        function: F,
    ) -> (im: Self)
        requires
            width * height <= usize::MAX,
            forall|x: usize, y: usize| x < width && y < height ==> call_requires(function, (x, y)),
        ensures
            im.spec_width() == width,
            im.spec_height() == if width == 0 {
                0
            } else {
                height
            },
            forall|x: usize, y: usize|
                x < width && y < height ==> call_ensures(
                    function,
                    (x, y),
                    #[trigger] im.spec_pixel_at(x as int, y as int),
                ),
    {
        let mut pixels: Vec<AlphaPixel<T>> = Vec::with_capacity(width * height);
        let mut row: usize = 0;
        while row < height
            invariant
                width * height <= usize::MAX,
                row <= height,
                pixels@.len() == row * width,
                forall|x: usize, y: usize|
                    x < width && y < height ==> call_requires(function, (x, y)),
                forall|x: usize, y: usize|
                    x < width && y < row ==> call_ensures(
                        function,
                        (x, y),
                        #[trigger] pixels@[y * width + x],
                    ),
            decreases height - row,
        {
            let mut col: usize = 0;
            while col < width
                invariant
                    width * height <= usize::MAX,
                    row < height,
                    col <= width,
                    pixels@.len() == row * width + col,
                    forall|x: usize, y: usize|
                        x < width && y < height ==> call_requires(function, (x, y)),
                    forall|x: usize, y: usize|
                        (x < width && y < row) || (x < col && y == row) ==> call_ensures(
                            function,
                            (x, y),
                            #[trigger] pixels@[y * width + x],
                        ),
                decreases width - col,
            {
                proof {
                    lemma_index_in_grid(width as int, height as int, col as int, row as int);
                }
                let p = function(col, row);
                let ghost before = pixels@;
                pixels.push(p);
                proof {
                    assert forall|x: usize, y: usize|
                        (x < width && y < row) || (x < col + 1 && y == row) implies call_ensures(
                        function,
                        (x, y),
                        #[trigger] pixels@[y * width + x],
                    ) by {
                        if x == col && y == row {
                        } else {
                            lemma_index_in_grid(width as int, (row + 1) as int, x as int, y as int);
                            if y == row {
                                assert(y * width + x < row * width + col);
                            } else {
                                assert(y * width + x < row * width) by (nonlinear_arith)
                                    requires
                                        y < row,
                                        x < width,
                                ;
                            }
                            assert(pixels@[y * width + x] == before[y * width + x]);
                        }
                    }
                }
                col += 1;
            }
            assert((row + 1) * width == row * width + width) by (nonlinear_arith);
            row += 1;
        }
        assert(row * width == width * height) by (nonlinear_arith)
            requires
                row == height,
        ;
        let height = if width == 0 {
            0
        } else {
            height
        };
        Image { pixels, width, height }
    }

    /// The index of `(x, y)` in the pixel buffer, without checking that the
    /// image contains it.
    pub fn index_of_unchecked(&self, x: usize, y: usize) -> (r: usize)
        requires
            self.spec_width() * y + x <= usize::MAX,
        ensures
            r == self.spec_width() * y + x,
    {
        self.width * y + x
    }

    /// The index of `(x, y)` in the pixel buffer; `None` outside the image.
    pub fn index_of(&self, x: usize, y: usize) -> (r: Option<usize>)
        ensures
            r is Some <==> self.spec_contains(x as int, y as int),
            r is Some ==> r->0 == y * self.spec_width() + x && r->0 < self.spec_pixels().len(),
    {
        proof {
            use_type_invariant(self);
        }
        if self.contains(x, y) {
            proof {
                lemma_index_in_grid(self.width as int, self.height as int, x as int, y as int);
                assert(self.width * y == y * self.width) by (nonlinear_arith);
            }
            Some(self.index_of_unchecked(x, y))
        } else {
            None
        }
    }

    /// Row `y`, left to right; `None` if the image has no such row or is
    /// zero pixels wide.
    pub fn row(&self, y: usize) -> (r: Option<&[AlphaPixel<T>]>)
        ensures
            r is Some <==> self.spec_width() > 0 && y < self.spec_height(),
            r is Some ==> r->0@ == self.spec_pixels().subrange(
                y * self.spec_width(),
                (y + 1) * self.spec_width(),
            ),
    {
        proof {
            use_type_invariant(self);
        }
        if self.width == 0 || y >= self.height {
            return None;
        }
        proof {
            assert((y + 1) * self.width <= self.width * self.height) by (nonlinear_arith)
                requires
                    y < self.height,
            ;
            assert(y * self.width + self.width == (y + 1) * self.width) by (nonlinear_arith);
        }
        let start = y * self.width;
        let end = start + self.width;
        assert(end == (y + 1) * self.width) by (nonlinear_arith)
            requires
                start == y * self.width,
                end == start + self.width,
        ;
        Some(slice_range(self.pixels.as_slice(), start, end))
    }

    /// The pixel at `(x, y)`; `None` outside the image.
    pub fn pixel_at(&self, x: usize, y: usize) -> (r: Option<AlphaPixel<T>>)
        ensures
            r == (if self.spec_contains(x as int, y as int) {
                Some(self.spec_pixel_at(x as int, y as int))
            } else {
                None
            }),
    {
        match self.index_of(x, y) {
            Some(i) => Some(self.pixels[i]),
            None => None,
        }
    }

    /// The pixel buffer as bytes, for an image codec: every channel of every
    /// pixel in turn, each in the machine's byte order.
    pub fn as_bytes(&self) -> (r: Vec<u8>)
        ensures
            encodes_channels(channel_values(self.spec_pixels()), T::spec_byte_size(), r@),
    {
        let mut channels: Vec<T> = Vec::new();
        let mut i: usize = 0;
        while i < self.pixels.len()
            invariant
                i <= self.pixels@.len(),
                channels@.map_values(|c: T| c.spec_value()) =~= channel_values(
                    self.pixels@.subrange(0, i as int),
                ),
            decreases self.pixels@.len() - i,
        {
            let p = self.pixels[i];
            let ghost before = channels@;
            channels.push(p.r);
            channels.push(p.g);
            channels.push(p.b);
            channels.push(p.a);
            proof {
                let next = channel_values(self.pixels@.subrange(0, i + 1));
                let prev = channel_values(self.pixels@.subrange(0, i as int));
                assert forall|k: int| 0 <= k < 4 * i implies #[trigger] next[k] == prev[k] by {
                    assert(k / 4 < i) by (nonlinear_arith)
                        requires
                            0 <= k < 4 * i,
                    ;
                }
                assert(next[4 * i] == p@.0);
                assert(next[4 * i + 1] == p@.1);
                assert(next[4 * i + 2] == p@.2);
                assert(next[4 * i + 3] == p@.3);
                let mapped = channels@.map_values(|c: T| c.spec_value());
                assert(before.map_values(|c: T| c.spec_value()).len() == before.len());
                assert(prev.len() == 4 * i);
                assert(next.len() == 4 * i + 4);
                assert(mapped.len() == next.len());
                assert forall|k: int| 0 <= k < mapped.len() implies mapped[k] == next[k] by {
                    if k < 4 * i {
                        assert(channels@[k] == before[k]);
                        assert(before.map_values(|c: T| c.spec_value())[k] == prev[k]);
                    }
                }
                assert(mapped =~= next);
            }
            i += 1;
        }
        assert(self.pixels@.subrange(0, i as int) =~= self.pixels@);
        T::channel_bytes(channels.as_slice())
    }

    /// Whether `(x, y)` lies inside the image.
    pub fn contains(&self, x: usize, y: usize) -> (r: bool)
        ensures
            r == self.spec_contains(x as int, y as int),
    {
        x < self.width && y < self.height
    }

    /// Draw `image` on top of this image with its top left corner at `(x, y)`,
    /// combining each covered pixel (background) with the source pixel
    /// (foreground) by `blend`. The source is cut off at this image's far
    /// edges.
    ///
    /// Returns `None`, drawing nothing, if `(x, y)` is not in this image.
    pub fn draw_subimage<B: PixelBlend<T>>(
        &mut self,
        image: &Image<T>,
        x: usize,
        y: usize,
        blend: B,
    ) -> (r: Option<()>)
        requires
            forall|bg: AlphaPixel<T>, fg: AlphaPixel<T>| #[trigger] blend.can_blend(bg, fg),
        ensures
            r is Some <==> old(self).spec_contains(x as int, y as int),
            r is Some ==> final(self).is_blit_of(*old(self), *image, x as nat, y as nat, blend),
            r is None ==> *final(self) == *old(self),
    {
        if !self.contains(x, y) {
            return None;
        }
        proof {
            use_type_invariant(&*self);
            use_type_invariant(image);
        }
        let ew = if image.width <= self.width - x {
            image.width
        } else {
            self.width - x
        };
        let eh = if image.height <= self.height - y {
            image.height
        } else {
            self.height - y
        };
        let w = self.width;
        let h = self.height;
        let ghost old_self = *self;
        let mut out: Vec<AlphaPixel<T>> = Vec::with_capacity(w * h);
        let mut row: usize = 0;
        while row < h
            invariant
                x < w,
                y < h,
                ew <= w - x,
                eh <= h - y,
                ew <= image.spec_width(),
                eh <= image.spec_height(),
                w * h <= usize::MAX,
                row <= h,
                w == self.spec_width(),
                h == self.spec_height(),
                self.spec_pixels().len() == w * h,
                image.spec_pixels().len() == image.spec_width() * image.spec_height(),
                image.spec_width() * image.spec_height() <= usize::MAX,
                out@.len() == row * w,
                forall|bg: AlphaPixel<T>, fg: AlphaPixel<T>| #[trigger] blend.can_blend(bg, fg),
                forall|px: int, py: int|
                    0 <= px < w && 0 <= py < row ==> blit_cell(
                        *self,
                        *image,
                        x as int,
                        y as int,
                        ew as int,
                        eh as int,
                        blend,
                        px,
                        py,
                        #[trigger] out@[py * w + px],
                    ),
            decreases h - row,
        {
            let mut col: usize = 0;
            while col < w
                invariant
                    x < w,
                    y < h,
                    ew <= w - x,
                    eh <= h - y,
                    ew <= image.spec_width(),
                    eh <= image.spec_height(),
                    w * h <= usize::MAX,
                    row < h,
                    col <= w,
                    w == self.spec_width(),
                    h == self.spec_height(),
                    self.spec_pixels().len() == w * h,
                    image.spec_pixels().len() == image.spec_width() * image.spec_height(),
                    image.spec_width() * image.spec_height() <= usize::MAX,
                    out@.len() == row * w + col,
                    forall|bg: AlphaPixel<T>, fg: AlphaPixel<T>| #[trigger]
                        blend.can_blend(bg, fg),
                    forall|px: int, py: int|
                        (0 <= px < w && 0 <= py < row) || (0 <= px < col && py == row)
                            ==> blit_cell(
                            *self,
                            *image,
                            x as int,
                            y as int,
                            ew as int,
                            eh as int,
                            blend,
                            px,
                            py,
                            #[trigger] out@[py * w + px],
                        ),
                decreases w - col,
            {
                proof {
                    lemma_index_in_grid(w as int, h as int, col as int, row as int);
                }
                let bg = self.pixels[row * w + col];
                let p = if x <= col && col - x < ew && y <= row && row - y < eh {
                    proof {
                        lemma_index_in_grid(
                            image.spec_width() as int,
                            image.spec_height() as int,
                            (col - x) as int,
                            (row - y) as int,
                        );
                    }
                    let fg = image.pixels[(row - y) * image.width + (col - x)];
                    blend.blend(bg, fg)
                } else {
                    bg
                };
                let ghost before = out@;
                out.push(p);
                proof {
                    assert forall|px: int, py: int|
                        (0 <= px < w && 0 <= py < row) || (0 <= px < col + 1 && py == row)
                            implies blit_cell(
                            *self,
                            *image,
                            x as int,
                            y as int,
                            ew as int,
                            eh as int,
                            blend,
                            px,
                            py,
                            #[trigger] out@[py * w + px],
                        ) by {
                        if px == col && py == row {
                        } else {
                            if py == row {
                                assert(py * w + px < row * w + col);
                            } else {
                                assert(py * w + px < row * w) by (nonlinear_arith)
                                    requires
                                        py < row,
                                        px < w,
                                ;
                            }
                            assert(out@[py * w + px] == before[py * w + px]);
                        }
                    }
                }
                col += 1;
            }
            assert((row + 1) * w == row * w + w) by (nonlinear_arith);
            row += 1;
        }
        assert(row * w == w * h) by (nonlinear_arith)
            requires
                row == h,
        ;
        self.pixels = out;
        proof {
            assert forall|px: int, py: int|
                #![trigger self.spec_pixel_at(px, py)]
                old_self.spec_contains(px, py) implies if x <= px < x + ew && y <= py < y + eh {
                blend.blends_to(
                    old_self.spec_pixel_at(px, py),
                    image.spec_pixel_at(px - x, py - y),
                    self.spec_pixel_at(px, py),
                )
            } else {
                self.spec_pixel_at(px, py) == old_self.spec_pixel_at(px, py)
            } by {
                assert(blit_cell(
                    old_self,
                    *image,
                    x as int,
                    y as int,
                    ew as int,
                    eh as int,
                    blend,
                    px,
                    py,
                    out@[py * w + px],
                ));
            }
        }
        Some(())
    }
}

/// The pixel at `(px, py)` of `dst` after drawing `src` at `(x, y)`, clipped
/// to `ew × eh`, is `v`.
pub open spec fn blit_cell<T: PixelChannel, B: PixelBlend<T>>(
    dst: Image<T>,
    src: Image<T>,
    x: int,
    y: int,
    ew: int,
    eh: int,
    blend: B,
    px: int,
    py: int,
    v: AlphaPixel<T>,
) -> bool {
    if x <= px < x + ew && y <= py < y + eh {
        blend.blends_to(dst.spec_pixel_at(px, py), src.spec_pixel_at(px - x, py - y), v)
    } else {
        v == dst.spec_pixel_at(px, py)
    }
}

impl<T: PixelChannel> Clone for Image<T> {
    fn clone(&self) -> (im: Self)
        ensures
            im.spec_width() == self.spec_width(),
            im.spec_height() == self.spec_height(),
            im.spec_pixels() == self.spec_pixels(),
    {
        proof {
            use_type_invariant(self);
        }
        let mut pixels: Vec<AlphaPixel<T>> = Vec::with_capacity(self.pixels.len());
        let mut i: usize = 0;
        while i < self.pixels.len()
            invariant
                i <= self.pixels@.len(),
                pixels@ =~= self.pixels@.subrange(0, i as int),
            decreases self.pixels@.len() - i,
        {
            pixels.push(self.pixels[i]);
            i += 1;
        }
        Image { pixels, width: self.width, height: self.height }
    }
}

impl<T: PixelChannel> Default for Image<T> {
    /// The empty image.
    fn default() -> (im: Self)
        ensures
            im.spec_width() == 0,
            im.spec_height() == 0,
            im.spec_pixels().len() == 0,
    {
        Self::new()
    }
}

fn slice_range<A: Copy>(s: &[A], start: usize, end: usize) -> (r: &[A])
    requires
        start <= end <= s@.len(),
    ensures
        r@ == s@.subrange(start as int, end as int),
{
    &s[start..end]
}

/// Drawing an image with `Replace` is idempotent: drawing `src` at `(x, y)` a
/// second time leaves the first result unchanged.
pub proof fn lemma_replace_blit_idempotent<T: PixelChannel>(
    first: Image<T>,
    once: Image<T>,
    twice: Image<T>,
    src: Image<T>,
    x: nat,
    y: nat,
)
    requires
        once.is_blit_of(first, src, x, y, BlendingMethod::Replace),
        twice.is_blit_of(once, src, x, y, BlendingMethod::Replace),
    ensures
        twice.spec_width() == once.spec_width(),
        twice.spec_height() == once.spec_height(),
        forall|px: int, py: int|
            once.spec_contains(px, py) ==> #[trigger] twice.spec_pixel_at(px, py)
                == once.spec_pixel_at(px, py),
{
    assert forall|px: int, py: int| once.spec_contains(px, py) implies #[trigger] twice.spec_pixel_at(
        px,
        py,
    ) == once.spec_pixel_at(px, py) by {
        assert(first.spec_contains(px, py));
    }
}

} // verus!
