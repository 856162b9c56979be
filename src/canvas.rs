use vstd::prelude::*;

use crate::blending::{BlendingMethod, PixelBlend, over_view};
use crate::image::Image;
use crate::layers::{AnyLayer, IntoLayer, filtered_at, filtered_pixel_at};
use crate::pixel::{AlphaPixel, PixelChannel};

verus! {

/// An ordered stack of layers over a background, `width × height` pixels.
/// Later layers paint over earlier ones.
#[derive(Debug, Clone)]
pub struct Canvas<T: PixelChannel> {
    pub layers: Vec<AnyLayer<T>>,
    pub background: AlphaPixel<T>,
    pub width: usize,
    pub height: usize,
}

/// The channel values at canvas location `(x, y)`: starting from the
/// background, each layer's filtered pixel there, if it has one, is
/// composited over the running result, in list order.
pub open spec fn composite<T: PixelChannel>(
    layers: Seq<AnyLayer<T>>,
    background: (nat, nat, nat, nat),
    x: usize,
    y: usize,
) -> (nat, nat, nat, nat)
    decreases layers.len(),
{
    if layers.len() == 0 {
        background
    } else {
        let below = composite(layers.drop_last(), background, x, y);
        match filtered_at(&layers.last(), x, y) {
            Some(p) => over_view(p@, below, T::spec_max()),
            None => below,
        }
    }
}

impl<T: PixelChannel> Canvas<T> {
    /// An empty canvas of the given size over a transparent black background.
    pub fn from_dimensions(width: usize, height: usize) -> (c: Self)
        ensures
            c.layers@.len() == 0,
            c.background@ == (0nat, 0nat, 0nat, 0nat),
            c.width == width,
            c.height == height,
    {
        Canvas { layers: Vec::new(), background: AlphaPixel::default(), width, height }
    }

    /// Put `layer` on top of the stack.
    pub fn add_layer<L: IntoLayer<T>>(&mut self, layer: L)
        ensures
            final(self).layers@ == old(self).layers@.push(layer.spec_into_layer()),
            final(self).background == old(self).background,
            final(self).width == old(self).width,
            final(self).height == old(self).height,
    {
        self.layers.push(layer.into_layer());
    }

    /// The final pixel at canvas location `(x, y)`.
    pub fn combined_pixel_at(&self, x: usize, y: usize) -> (r: AlphaPixel<T>)
        ensures
            r@ == composite(self.layers@, self.background@, x, y),
    {
        let mut running_pixel = self.background;
        let mut i: usize = 0;
        while i < self.layers.len()
            invariant
                i <= self.layers@.len(),
                running_pixel@ == composite(
                    self.layers@.subrange(0, i as int),
                    self.background@,
                    x,
                    y,
                ),
            decreases self.layers@.len() - i,
        {
            let layer_pixel = filtered_pixel_at(&self.layers[i], x, y);
            if let Some(p) = layer_pixel {
                running_pixel = BlendingMethod::Over.blend(running_pixel, p);
            }
            proof {
                let s = self.layers@.subrange(0, i + 1);
                assert(s.drop_last() =~= self.layers@.subrange(0, i as int));
                assert(s.last() == self.layers@[i as int]);
            }
            i += 1;
        }
        assert(self.layers@.subrange(0, i as int) =~= self.layers@);
        running_pixel
    }

    /// Composite every layer into one image of the canvas's size. A canvas
    /// zero pixels wide gives the empty image.
    pub fn flatten(&self) -> (im: Image<T>)
        requires
            self.width * self.height <= usize::MAX,
        ensures
            im.spec_width() == self.width,
            im.spec_height() == if self.width == 0 {
                0
            } else {
                self.height
            },
            forall|x: usize, y: usize|
                x < self.width && y < self.height ==> (#[trigger] im.spec_pixel_at(
                    x as int,
                    y as int,
                ))@ == composite(self.layers@, self.background@, x, y),
    {
        let sample = |x: usize, y: usize| -> (r: AlphaPixel<T>)
            ensures
                r@ == composite(self.layers@, self.background@, x, y),
            { self.combined_pixel_at(x, y) };
        Image::from_function(self.width, self.height, sample)
    }
}

} // verus!
