use vstd::prelude::*;

use crate::pixel::{AlphaPixel, PixelChannel, channel_with_value, lemma_channel_with_value};

verus! {

/// This trait is used for types that can be added to layers to filter them.
///
/// A filter may change the colour of a sampled pixel, and the coordinate a
/// pixel is sampled from. Because the coordinate transform maps an output
/// location back to the location in the unfiltered layer, a geometric filter
/// holds the inverse of the movement it applies to the layer.
pub trait Filter<T: PixelChannel> {
    /// The filtered colour of `pixel`.
    spec fn spec_filter_pixel(&self, pixel: AlphaPixel<T>) -> AlphaPixel<T>;

    /// The location `(x, y)` is sampled from.
    spec fn spec_filter_transform(&self, x: usize, y: usize) -> (usize, usize);

    fn filter_pixel(&self, pixel: AlphaPixel<T>) -> (r: AlphaPixel<T>)
        ensures
            r == self.spec_filter_pixel(pixel),
    ;

    fn filter_transform(&self, x: usize, y: usize) -> (r: (usize, usize))
        ensures
            r == self.spec_filter_transform(x, y),
    ;
}

/// `c - d`, wrapped into the range of `usize`.
pub open spec fn shift_coord(c: usize, d: isize) -> usize {
    let v = c - d;
    if v < 0 {
        (v + usize::MAX + 1) as usize
    } else if v > usize::MAX {
        (v - usize::MAX - 1) as usize
    } else {
        v as usize
    }
}

/// A filter to translate (move) the layer in 2D space.
#[derive(Debug, Clone, Copy, Default, PartialEq, Eq, Structural)]
pub struct TranslateFilter {
    pub x: isize,
    pub y: isize,
}

fn shift(c: usize, d: isize) -> (r: usize)
    ensures
        r == shift_coord(c, d),
{
    if d >= 0 {
        c.wrapping_sub(d as usize)
    } else {
        let magnitude = (-(d + 1)) as usize + 1;
        c.wrapping_add(magnitude)
    }
}

impl<T: PixelChannel> Filter<T> for TranslateFilter {
    open spec fn spec_filter_pixel(&self, pixel: AlphaPixel<T>) -> AlphaPixel<T> {
        pixel
    }

    open spec fn spec_filter_transform(&self, x: usize, y: usize) -> (usize, usize) {
        (shift_coord(x, self.x), shift_coord(y, self.y))
    }

    fn filter_pixel(&self, pixel: AlphaPixel<T>) -> (r: AlphaPixel<T>) {
        pixel
    }

    fn filter_transform(&self, x: usize, y: usize) -> (r: (usize, usize)) {
        (shift(x, self.x), shift(y, self.y))
    }
}

/// Multiplies each colour channel by `numerator / denominator`, rounding down
/// and clamping to the channel's maximum; alpha is untouched. A zero
/// denominator stands for an unbounded multiplier: every colour channel
/// becomes the maximum.
#[derive(Debug, Clone, Copy, PartialEq, Eq, Structural)]
pub struct BrightnessFilter {
    pub numerator: u32,
    pub denominator: u32,
}

/// One colour channel `c` scaled by `num / den` and clamped to `0..=max`.
pub open spec fn brightened(c: nat, num: nat, den: nat, max: nat) -> nat {
    if den == 0 || c * num / den > max {
        max
    } else {
        c * num / den
    }
}

impl BrightnessFilter {
    fn brighten<T: PixelChannel>(&self, c: T) -> (r: T)
        ensures
            r == channel_with_value::<T>(
                brightened(
                    c.spec_value(),
                    self.numerator as nat,
                    self.denominator as nat,
                    T::spec_max(),
                ),
            ),
            r.spec_value() == brightened(
                c.spec_value(),
                self.numerator as nat,
                self.denominator as nat,
                T::spec_max(),
            ),
    {
        proof {
            T::lemma_channel_range();
        }
        let max = T::max_pixel_value().to_u64();
        if self.denominator == 0 {
            let r = T::max_pixel_value();
            proof {
                lemma_channel_with_value(r);
            }
            return r;
        }
        let v = c.to_u64();
        assert(v * (self.numerator as u64) <= 0xffff * 0xffff_ffff) by (nonlinear_arith)
            requires
                v <= 0xffff,
                self.numerator <= 0xffff_ffff,
        ;
        let scaled = v * (self.numerator as u64) / (self.denominator as u64);
        let r = if scaled > max {
            T::max_pixel_value()
        } else {
            T::from_u64(scaled)
        };
        proof {
            lemma_channel_with_value(r);
        }
        r
    }
}

impl<T: PixelChannel> Filter<T> for BrightnessFilter {
    open spec fn spec_filter_pixel(&self, pixel: AlphaPixel<T>) -> AlphaPixel<T> {
        let m = T::spec_max();
        let n = self.numerator as nat;
        let d = self.denominator as nat;
        AlphaPixel {
            r: channel_with_value::<T>(brightened(pixel.r.spec_value(), n, d, m)),
            g: channel_with_value::<T>(brightened(pixel.g.spec_value(), n, d, m)),
            b: channel_with_value::<T>(brightened(pixel.b.spec_value(), n, d, m)),
            a: pixel.a,
        }
    }

    open spec fn spec_filter_transform(&self, x: usize, y: usize) -> (usize, usize) {
        (x, y)
    }

    fn filter_pixel(&self, pixel: AlphaPixel<T>) -> (r: AlphaPixel<T>) {
        proof {
            T::lemma_channel_range();
        }
        AlphaPixel {
            r: self.brighten(pixel.r),
            g: self.brighten(pixel.g),
            b: self.brighten(pixel.b),
            a: pixel.a,
        }
    }

    fn filter_transform(&self, x: usize, y: usize) -> (r: (usize, usize)) {
        (x, y)
    }
}

/// One of the filters this library provides.
#[derive(Debug, Clone, Copy, PartialEq, Eq, Structural)]
pub enum AnyFilter {
    Translate(TranslateFilter),
    Brightness(BrightnessFilter),
}

impl<T: PixelChannel> Filter<T> for AnyFilter {
    open spec fn spec_filter_pixel(&self, pixel: AlphaPixel<T>) -> AlphaPixel<T> {
        match self {
            AnyFilter::Translate(f) => Filter::<T>::spec_filter_pixel(f, pixel),
            AnyFilter::Brightness(f) => Filter::<T>::spec_filter_pixel(f, pixel),
        }
    }

    open spec fn spec_filter_transform(&self, x: usize, y: usize) -> (usize, usize) {
        match self {
            AnyFilter::Translate(f) => Filter::<T>::spec_filter_transform(f, x, y),
            AnyFilter::Brightness(f) => Filter::<T>::spec_filter_transform(f, x, y),
        }
    }

    fn filter_pixel(&self, pixel: AlphaPixel<T>) -> (r: AlphaPixel<T>) {
        match self {
            AnyFilter::Translate(f) => f.filter_pixel(pixel),
            AnyFilter::Brightness(f) => f.filter_pixel(pixel),
        }
    }

    fn filter_transform(&self, x: usize, y: usize) -> (r: (usize, usize)) {
        match self {
            AnyFilter::Translate(f) => Filter::<T>::filter_transform(f, x, y),
            AnyFilter::Brightness(f) => Filter::<T>::filter_transform(f, x, y),
        }
    }
}

/// The sampling location of `(x, y)` after every filter's coordinate
/// transform, in chain order.
pub open spec fn chain_transform<T: PixelChannel>(filters: Seq<AnyFilter>, x: usize, y: usize) -> (
    usize,
    usize,
)
    decreases filters.len(),
{
    if filters.len() == 0 {
        (x, y)
    } else {
        let (px, py) = chain_transform::<T>(filters.drop_last(), x, y);
        Filter::<T>::spec_filter_transform(&filters.last(), px, py)
    }
}

/// `pixel` after every filter's colour transform, in chain order.
pub open spec fn chain_pixel<T: PixelChannel>(filters: Seq<AnyFilter>, pixel: AlphaPixel<T>) -> AlphaPixel<T>
    decreases filters.len(),
{
    if filters.len() == 0 {
        pixel
    } else {
        Filter::<T>::spec_filter_pixel(&filters.last(), chain_pixel(filters.drop_last(), pixel))
    }
}

/// Apply every filter's coordinate transform to `(x, y)`, in chain order.
pub fn transform_through<T: PixelChannel>(filters: &[AnyFilter], x: usize, y: usize) -> (r: (
    usize,
    usize,
))
    ensures
        r == chain_transform::<T>(filters@, x, y),
{
    let mut coord = (x, y);
    let mut i: usize = 0;
    while i < filters.len()
        invariant
            i <= filters@.len(),
            coord == chain_transform::<T>(filters@.subrange(0, i as int), x, y),
        decreases filters@.len() - i,
    {
        coord = Filter::<T>::filter_transform(&filters[i], coord.0, coord.1);
        proof {
            let s = filters@.subrange(0, i + 1);
            assert(s.drop_last() =~= filters@.subrange(0, i as int));
            assert(s.last() == filters@[i as int]);
        }
        i += 1;
    }
    assert(filters@.subrange(0, i as int) =~= filters@);
    coord
}

/// Apply every filter's colour transform to `pixel`, in chain order.
pub fn filter_through<T: PixelChannel>(filters: &[AnyFilter], pixel: AlphaPixel<T>) -> (r:
    AlphaPixel<T>)
    ensures
        r == chain_pixel::<T>(filters@, pixel),
{
    let mut p = pixel;
    let mut i: usize = 0;
    while i < filters.len()
        invariant
            i <= filters@.len(),
            p == chain_pixel::<T>(filters@.subrange(0, i as int), pixel),
        decreases filters@.len() - i,
    {
        p = filters[i].filter_pixel(p);
        proof {
            let s = filters@.subrange(0, i + 1);
            assert(s.drop_last() =~= filters@.subrange(0, i as int));
            assert(s.last() == filters@[i as int]);
        }
        i += 1;
    }
    assert(filters@.subrange(0, i as int) =~= filters@);
    p
}

} // verus!
