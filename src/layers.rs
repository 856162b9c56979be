use vstd::prelude::*;

use crate::filters::{AnyFilter, chain_pixel, chain_transform, filter_through, transform_through};
use crate::image::Image;
use crate::pixel::{AlphaPixel, PixelChannel};
use crate::rect::Rect;

verus! {

/// A bounded source of pixels on the canvas, with a chain of filters.
pub trait Layer<T: PixelChannel> {
    /// The bounding `Rect`, relative to the top left of the canvas. Only
    /// pixels in it are drawn.
    spec fn spec_rect(&self) -> Rect;

    /// The filters on this layer, in the order they apply.
    spec fn spec_filters(&self) -> Seq<AnyFilter>;

    /// The unfiltered content at a canvas location inside the bounding `Rect`.
    spec fn spec_content(&self, x: usize, y: usize) -> AlphaPixel<T>;

    /// Get a bounding `Rect` relative to top left of the canvas.
    fn get_rect(&self) -> (r: Rect)
        ensures
            r == self.spec_rect(),
    ;

    /// Return a slice of filters on this layer
    fn get_filters(&self) -> (r: &[AnyFilter])
        ensures
            r@ == self.spec_filters(),
    ;

    /// Get the pixel at a canvas location, before it has been filtered, and
    /// assuming it is within the bounding `Rect`.
    fn unfiltered_pixel_at_unchecked(&self, x: usize, y: usize) -> (r: AlphaPixel<T>)
        requires
            self.spec_rect().spec_contains(x as int, y as int),
        ensures
            r == self.spec_content(x, y),
    ;
}

/// The layer's pixel at a canvas location before filtering; `None` outside its
/// bounding `Rect`.
pub open spec fn unfiltered_at<T: PixelChannel, L: Layer<T>>(layer: &L, x: usize, y: usize) -> Option<
    AlphaPixel<T>,
> {
    if layer.spec_rect().spec_contains(x as int, y as int) {
        Some(layer.spec_content(x, y))
    } else {
        None
    }
}

/// The layer's pixel at a canvas location after filtering: the location is
/// mapped through every filter's coordinate transform in chain order, the
/// layer is sampled there, and the sample goes through every filter's colour
/// transform in the same order. `None` if the mapped location is outside the
/// layer.
pub open spec fn filtered_at<T: PixelChannel, L: Layer<T>>(layer: &L, x: usize, y: usize) -> Option<
    AlphaPixel<T>,
> {
    let (tx, ty) = chain_transform::<T>(layer.spec_filters(), x, y);
    match unfiltered_at(layer, tx, ty) {
        Some(p) => Some(chain_pixel::<T>(layer.spec_filters(), p)),
        None => None,
    }
}

/// Get the pixel at a canvas location, before it has been filtered; `None`
/// outside the layer's bounds.
pub fn unfiltered_pixel_at<T: PixelChannel, L: Layer<T>>(layer: &L, x: usize, y: usize) -> (r:
    Option<AlphaPixel<T>>)
    ensures
        r == unfiltered_at(layer, x, y),
{
    if layer.get_rect().contains(x, y) {
        Some(layer.unfiltered_pixel_at_unchecked(x, y))
    } else {
        None
    }
}

/// Get the pixel at a canvas location, after it has been filtered.
pub fn filtered_pixel_at<T: PixelChannel, L: Layer<T>>(layer: &L, x: usize, y: usize) -> (r:
    Option<AlphaPixel<T>>)
    ensures
        r == filtered_at(layer, x, y),
{
    let filters = layer.get_filters();
    let (tx, ty) = transform_through::<T>(filters, x, y);
    match unfiltered_pixel_at(layer, tx, ty) {
        Some(p) => Some(filter_through::<T>(filters, p)),
        None => None,
    }
}

/// A rectangle filled with one colour.
#[derive(Debug, Clone)]
pub struct RectangleLayer<T> {
    pub filters: Vec<AnyFilter>,
    pub fill: AlphaPixel<T>,
    pub rect: Rect,
}

impl<T: PixelChannel> RectangleLayer<T> {
    /// A rectangle layer with no filters.
    pub fn new(fill: AlphaPixel<T>, rect: Rect) -> (l: Self)
        ensures
            l.filters@.len() == 0,
            l.fill == fill,
            l.rect == rect,
    {
        RectangleLayer { filters: Vec::new(), fill, rect }
    }
}

impl<T: PixelChannel> Layer<T> for RectangleLayer<T> {
    open spec fn spec_rect(&self) -> Rect {
        self.rect
    }

    open spec fn spec_filters(&self) -> Seq<AnyFilter> {
        self.filters@
    }

    open spec fn spec_content(&self, x: usize, y: usize) -> AlphaPixel<T> {
        self.fill
    }

    fn get_rect(&self) -> (r: Rect) {
        self.rect
    }

    fn get_filters(&self) -> (r: &[AnyFilter]) {
        self.filters.as_slice()
    }

    fn unfiltered_pixel_at_unchecked(&self, x: usize, y: usize) -> (r: AlphaPixel<T>) {
        self.fill
    }
}

/// A bitmap placed with its top left corner at `(x, y)`.
#[derive(Debug, Clone)]
pub struct ImageLayer<T: PixelChannel> {
    pub filters: Vec<AnyFilter>,
    pub im: Image<T>,
    pub x: usize,
    pub y: usize,
}

impl<T: PixelChannel> ImageLayer<T> {
    /// An image layer with no filters.
    pub fn new(im: Image<T>, x: usize, y: usize) -> (l: Self)
        ensures
            l.filters@.len() == 0,
            l.im == im,
            l.x == x,
            l.y == y,
    {
        ImageLayer { filters: Vec::new(), im, x, y }
    }
}

/// The pixel of `im`, placed at `(ox, oy)`, under canvas location `(x, y)`.
pub open spec fn placed_pixel<T: PixelChannel>(
    im: Image<T>,
    ox: usize,
    oy: usize,
    x: usize,
    y: usize,
) -> AlphaPixel<T> {
    im.spec_pixel_at(x - ox, y - oy)
}

/// The bounding box of `im` placed at `(ox, oy)`.
pub open spec fn placed_rect<T: PixelChannel>(im: Image<T>, ox: usize, oy: usize) -> Rect {
    Rect {
        x: ox,
        y: oy,
        width: im.spec_width() as usize,
        height: im.spec_height() as usize,
    }
}

fn sample_placed<T: PixelChannel>(im: &Image<T>, ox: usize, oy: usize, x: usize, y: usize) -> (r:
    AlphaPixel<T>)
    requires
        placed_rect(*im, ox, oy).spec_contains(x as int, y as int),
    ensures
        r == placed_pixel(*im, ox, oy, x, y),
{
    match im.pixel_at(x - ox, y - oy) {
        Some(p) => p,
        None => AlphaPixel::transparent(),
    }
}

impl<T: PixelChannel> Layer<T> for ImageLayer<T> {
    open spec fn spec_rect(&self) -> Rect {
        placed_rect(self.im, self.x, self.y)
    }

    open spec fn spec_filters(&self) -> Seq<AnyFilter> {
        self.filters@
    }

    open spec fn spec_content(&self, x: usize, y: usize) -> AlphaPixel<T> {
        placed_pixel(self.im, self.x, self.y, x, y)
    }

    fn get_rect(&self) -> (r: Rect) {
        Rect { x: self.x, y: self.y, width: self.im.get_width(), height: self.im.get_height() }
    }

    fn get_filters(&self) -> (r: &[AnyFilter]) {
        self.filters.as_slice()
    }

    fn unfiltered_pixel_at_unchecked(&self, x: usize, y: usize) -> (r: AlphaPixel<T>) {
        sample_placed(&self.im, self.x, self.y, x, y)
    }
}

/// A layer showing rasterized text, placed with its top left corner at
/// `(x, y)`.
#[derive(Debug, Clone)]
pub struct TextLayer<T: PixelChannel> {
    pub rasterized: Image<T>,
    pub x: usize,
    pub y: usize,
    pub filters: Vec<AnyFilter>,
}

impl<T: PixelChannel> TextLayer<T> {
    /// A text layer showing `rasterized`, with no filters.
    pub fn from_raster(rasterized: Image<T>, x: usize, y: usize) -> (l: Self)
        ensures
            l.rasterized == rasterized,
            l.x == x,
            l.y == y,
            l.filters@.len() == 0,
    {
        TextLayer { rasterized, x, y, filters: Vec::new() }
    }
}

impl<T: PixelChannel> Layer<T> for TextLayer<T> {
    open spec fn spec_rect(&self) -> Rect {
        placed_rect(self.rasterized, self.x, self.y)
    }

    open spec fn spec_filters(&self) -> Seq<AnyFilter> {
        self.filters@
    }

    open spec fn spec_content(&self, x: usize, y: usize) -> AlphaPixel<T> {
        placed_pixel(self.rasterized, self.x, self.y, x, y)
    }

    fn get_rect(&self) -> (r: Rect) {
        Rect {
            x: self.x,
            y: self.y,
            width: self.rasterized.get_width(),
            height: self.rasterized.get_height(),
        }
    }

    fn get_filters(&self) -> (r: &[AnyFilter]) {
        self.filters.as_slice()
    }

    fn unfiltered_pixel_at_unchecked(&self, x: usize, y: usize) -> (r: AlphaPixel<T>) {
        sample_placed(&self.rasterized, self.x, self.y, x, y)
    }
}

/// One of the layers this library provides.
#[derive(Debug, Clone)]
pub enum AnyLayer<T: PixelChannel> {
    Rectangle(RectangleLayer<T>),
    Image(ImageLayer<T>),
    Text(TextLayer<T>),
}

impl<T: PixelChannel> Layer<T> for AnyLayer<T> {
    open spec fn spec_rect(&self) -> Rect {
        match self {
            AnyLayer::Rectangle(l) => l.spec_rect(),
            AnyLayer::Image(l) => l.spec_rect(),
            AnyLayer::Text(l) => l.spec_rect(),
        }
    }

    open spec fn spec_filters(&self) -> Seq<AnyFilter> {
        match self {
            AnyLayer::Rectangle(l) => l.spec_filters(),
            AnyLayer::Image(l) => l.spec_filters(),
            AnyLayer::Text(l) => l.spec_filters(),
        }
    }

    open spec fn spec_content(&self, x: usize, y: usize) -> AlphaPixel<T> {
        match self {
            AnyLayer::Rectangle(l) => l.spec_content(x, y),
            AnyLayer::Image(l) => l.spec_content(x, y),
            AnyLayer::Text(l) => l.spec_content(x, y),
        }
    }

    fn get_rect(&self) -> (r: Rect) {
        match self {
            AnyLayer::Rectangle(l) => l.get_rect(),
            AnyLayer::Image(l) => l.get_rect(),
            AnyLayer::Text(l) => l.get_rect(),
        }
    }

    fn get_filters(&self) -> (r: &[AnyFilter]) {
        match self {
            AnyLayer::Rectangle(l) => l.get_filters(),
            AnyLayer::Image(l) => l.get_filters(),
            AnyLayer::Text(l) => l.get_filters(),
        }
    }

    fn unfiltered_pixel_at_unchecked(&self, x: usize, y: usize) -> (r: AlphaPixel<T>) {
        match self {
            AnyLayer::Rectangle(l) => l.unfiltered_pixel_at_unchecked(x, y),
            AnyLayer::Image(l) => l.unfiltered_pixel_at_unchecked(x, y),
            AnyLayer::Text(l) => l.unfiltered_pixel_at_unchecked(x, y),
        }
    }
}

/// A layer that a canvas can hold.
pub trait IntoLayer<T: PixelChannel> {
    /// The layer this value becomes.
    spec fn spec_into_layer(self) -> AnyLayer<T>;

    fn into_layer(self) -> (r: AnyLayer<T>)
        ensures
            r == self.spec_into_layer(),
    ;
}

impl<T: PixelChannel> IntoLayer<T> for AnyLayer<T> {
    open spec fn spec_into_layer(self) -> AnyLayer<T> {
        self
    }

    fn into_layer(self) -> (r: AnyLayer<T>) {
        self
    }
}

impl<T: PixelChannel> IntoLayer<T> for RectangleLayer<T> {
    open spec fn spec_into_layer(self) -> AnyLayer<T> {
        AnyLayer::Rectangle(self)
    }

    fn into_layer(self) -> (r: AnyLayer<T>) {
        AnyLayer::Rectangle(self)
    }
}

impl<T: PixelChannel> IntoLayer<T> for ImageLayer<T> {
    open spec fn spec_into_layer(self) -> AnyLayer<T> {
        AnyLayer::Image(self)
    }

    fn into_layer(self) -> (r: AnyLayer<T>) {
        AnyLayer::Image(self)
    }
}

impl<T: PixelChannel> IntoLayer<T> for TextLayer<T> {
    open spec fn spec_into_layer(self) -> AnyLayer<T> {
        AnyLayer::Text(self)
    }

    fn into_layer(self) -> (r: AnyLayer<T>) {
        AnyLayer::Text(self)
    }
}

} // verus!
