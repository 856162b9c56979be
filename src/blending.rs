use vstd::prelude::*;

use crate::pixel::{
    AlphaPixel,
    PixelChannel,
    lemma_round_div_exact,
    lemma_round_div_le,
    lemma_view_injective,
    round_div,
};

verus! {

/// A built-in way of combining a foreground pixel with the background pixel
/// under it.
#[derive(Debug, Clone, Copy, PartialEq, Eq, Structural)]
pub enum BlendingMethod {
    /// The foreground wins unconditionally.
    Replace,
    /// Porter-Duff "over" alpha compositing.
    Over,
}

/// A caller-supplied blending function of background and foreground.
pub struct CustomBlend<F>(pub F);

/// A way of combining a background pixel with a foreground pixel.
pub trait PixelBlend<T: PixelChannel> {
    /// Whether this method can combine `background` with `foreground`.
    spec fn can_blend(&self, background: AlphaPixel<T>, foreground: AlphaPixel<T>) -> bool;

    /// Whether `r` is a result of combining `background` with `foreground`.
    spec fn blends_to(
        &self,
        background: AlphaPixel<T>,
        foreground: AlphaPixel<T>,
        r: AlphaPixel<T>,
    ) -> bool;

    /// `pixel2` is the foreground
    fn blend(&self, pixel1: AlphaPixel<T>, pixel2: AlphaPixel<T>) -> (r: AlphaPixel<T>)
        requires
            self.can_blend(pixel1, pixel2),
        ensures
            self.blends_to(pixel1, pixel2, r),
    ;
}

/// `m * a_top + a_bottom * (m - a_top)`: the composite alpha, scaled by `m²`.
pub open spec fn over_weight(top_a: nat, bottom_a: nat, m: nat) -> nat {
    m * top_a + bottom_a * (m - top_a) as nat
}

/// One colour channel of the composite, scaled to `0..=m` and rounded to
/// nearest.
pub open spec fn over_color(top_c: nat, top_a: nat, bottom_c: nat, bottom_a: nat, m: nat) -> nat {
    round_div(
        top_c * top_a * m + bottom_c * bottom_a * (m - top_a) as nat,
        over_weight(top_a, bottom_a, m),
    )
}

/// Porter-Duff `top` over `bottom`, on channel values in `0..=m`.
///
/// With `αt = top.a / m` and `αb = bottom.a / m`, the composite alpha is
/// `αt + αb (1 - αt)` and each colour the alpha-weighted mean
/// `(top.c αt + bottom.c αb (1 - αt)) / alpha`; both are scaled back to
/// `0..=m` and rounded to nearest. Two fully transparent inputs give transparent
/// black.
pub open spec fn over_view(top: (nat, nat, nat, nat), bottom: (nat, nat, nat, nat), m: nat) -> (
    nat,
    nat,
    nat,
    nat,
) {
    let w = over_weight(top.3, bottom.3, m);
    if w == 0 {
        (0, 0, 0, 0)
    } else {
        (
            over_color(top.0, top.3, bottom.0, bottom.3, m),
            over_color(top.1, top.3, bottom.1, bottom.3, m),
            over_color(top.2, top.3, bottom.2, bottom.3, m),
            round_div(w, m),
        )
    }
}

impl<T: PixelChannel> PixelBlend<T> for BlendingMethod {
    open spec fn can_blend(&self, background: AlphaPixel<T>, foreground: AlphaPixel<T>) -> bool {
        true
    }

    open spec fn blends_to(
        &self,
        background: AlphaPixel<T>,
        foreground: AlphaPixel<T>,
        r: AlphaPixel<T>,
    ) -> bool {
        match self {
            BlendingMethod::Replace => r == foreground,
            BlendingMethod::Over => r@ == over_view(foreground@, background@, T::spec_max()),
        }
    }

    fn blend(&self, pixel1: AlphaPixel<T>, pixel2: AlphaPixel<T>) -> (r: AlphaPixel<T>) {
        match self {
            BlendingMethod::Replace => pixel2,
            BlendingMethod::Over => over_operator(pixel2, pixel1),
        }
    }
}

impl<T: PixelChannel, F: Fn(AlphaPixel<T>, AlphaPixel<T>) -> AlphaPixel<T>> PixelBlend<
    T,
> for CustomBlend<F> {
    open spec fn can_blend(&self, background: AlphaPixel<T>, foreground: AlphaPixel<T>) -> bool {
        call_requires(self.0, (background, foreground))
    }

    open spec fn blends_to(
        &self,
        background: AlphaPixel<T>,
        foreground: AlphaPixel<T>,
        r: AlphaPixel<T>,
    ) -> bool {
        call_ensures(self.0, (background, foreground), r)
    }

    fn blend(&self, pixel1: AlphaPixel<T>, pixel2: AlphaPixel<T>) -> (r: AlphaPixel<T>) {
        (self.0)(pixel1, pixel2)
    }
}

proof fn lemma_over_bounds(tc: nat, ta: nat, bc: nat, ba: nat, m: nat)
    requires
        tc <= m,
        ta <= m,
        bc <= m,
        ba <= m,
        0 < m <= 0xffff,
    ensures
        tc * ta * m <= m * m * m,
        bc * ba * (m - ta) as nat <= m * m * m,
        m * m * m <= 0xffff * 0xffff * 0xffff,
        tc * ta * m + bc * ba * (m - ta) as nat <= m * over_weight(ta, ba, m),
        over_weight(ta, ba, m) <= m * m,
{
    assert(tc * ta * m <= m * ta * m) by (nonlinear_arith)
        requires
            tc <= m,
    ;
    assert(m * ta * m <= m * m * m) by (nonlinear_arith)
        requires
            ta <= m,
    ;
    assert(bc * ba * (m - ta) as nat <= m * ba * (m - ta) as nat) by (nonlinear_arith)
        requires
            bc <= m,
    ;
    assert(m * ba * (m - ta) as nat <= m * m * m) by (nonlinear_arith)
        requires
            ba <= m,
            ta <= m,
    ;
    assert(m * m * m <= 0xffff * 0xffff * 0xffff) by (nonlinear_arith)
        requires
            m <= 0xffff,
    ;
    assert(m * over_weight(ta, ba, m) == m * ta * m + m * ba * (m - ta) as nat) by (
    nonlinear_arith);
    assert(over_weight(ta, ba, m) <= m * m) by (nonlinear_arith)
        requires
            ta <= m,
            ba <= m,
    ;
}

fn over_channel(tc: u64, ta: u64, bc: u64, ba: u64, m: u64, w: u64) -> (r: u64)
    requires
        tc <= m,
        ta <= m,
        bc <= m,
        ba <= m,
        0 < m <= 0xffff,
        w == over_weight(ta as nat, ba as nat, m as nat),
        w > 0,
    ensures
        r == over_color(tc as nat, ta as nat, bc as nat, ba as nat, m as nat),
        r <= m,
{
    proof {
        lemma_over_bounds(tc as nat, ta as nat, bc as nat, ba as nat, m as nat);
        lemma_round_div_le(
            tc as nat * ta as nat * m as nat + bc as nat * ba as nat * (m - ta) as nat,
            w as nat,
            m as nat,
        );
        assert(tc * ta <= m * m) by (nonlinear_arith)
            requires
                tc <= m,
                ta <= m,
        ;
        assert(bc * ba <= m * m) by (nonlinear_arith)
            requires
                bc <= m,
                ba <= m,
        ;
        assert(m * m <= 0xffff * 0xffff) by (nonlinear_arith)
            requires
                m <= 0xffff,
        ;
    }
    let top = tc * ta * m;
    let bottom = bc * ba * (m - ta);
    (2 * (top + bottom) + w) / (2 * w)
}

/// [Alpha Compositing](https://en.wikipedia.org/wiki/Alpha_compositing):
/// `pixel1` over `pixel2`.
pub fn over_operator<T: PixelChannel>(pixel1: AlphaPixel<T>, pixel2: AlphaPixel<T>) -> (r:
    AlphaPixel<T>)
    ensures
        r@ == over_view(pixel1@, pixel2@, T::spec_max()),
{
    proof {
        T::lemma_channel_range();
    }
    let m = T::max_pixel_value().to_u64();
    let ta = pixel1.a.to_u64();
    let ba = pixel2.a.to_u64();
    proof {
        lemma_over_bounds(0, ta as nat, 0, ba as nat, m as nat);
        lemma_round_div_le(over_weight(ta as nat, ba as nat, m as nat), m as nat, m as nat);
        assert(ba * (m - ta) <= m * m) by (nonlinear_arith)
            requires
                ba <= m,
                ta <= m,
        ;
        assert(m * ta <= m * m) by (nonlinear_arith)
            requires
                ta <= m,
        ;
        assert(m * m <= 0xffff * 0xffff) by (nonlinear_arith)
            requires
                m <= 0xffff,
        ;
    }
    let w = m * ta + ba * (m - ta);
    if w == 0 {
        return AlphaPixel::transparent();
    }
    let r = over_channel(pixel1.r.to_u64(), ta, pixel2.r.to_u64(), ba, m, w);
    let g = over_channel(pixel1.g.to_u64(), ta, pixel2.g.to_u64(), ba, m, w);
    let b = over_channel(pixel1.b.to_u64(), ta, pixel2.b.to_u64(), ba, m, w);
    AlphaPixel { r: T::from_u64(r), g: T::from_u64(g), b: T::from_u64(b), a: T::from_u64((2 * w + m) / (2 * m)) }
}

/// Compositing with a fully transparent pixel `t`, as foreground or as
/// background, leaves `p` unchanged, provided `p` is visible or is itself
/// transparent black (two fully transparent inputs give transparent black).
pub proof fn lemma_over_transparent_identity<T: PixelChannel>(
    p: AlphaPixel<T>,
    t: AlphaPixel<T>,
    r1: AlphaPixel<T>,
    r2: AlphaPixel<T>,
)
    requires
        t@.3 == 0,
        p@.3 > 0 || p@ == (0nat, 0nat, 0nat, 0nat),
        <BlendingMethod as PixelBlend<T>>::blends_to(&BlendingMethod::Over, p, t, r1),
        <BlendingMethod as PixelBlend<T>>::blends_to(&BlendingMethod::Over, t, p, r2),
    ensures
        r1 == p,
        r2 == p,
{
    T::lemma_channel_range();
    let m = T::spec_max();
    let a = p@.3;
    if a > 0 {
        assert(over_weight(0, a, m) == a * m) by (nonlinear_arith);
        assert(over_weight(a, 0, m) == a * m) by (nonlinear_arith);
        assert(a * m > 0) by (nonlinear_arith)
            requires
                a > 0,
                m > 0,
        ;
        assert forall|c: nat, tc: nat| #![auto]
            over_color(tc, 0, c, a, m) == c && over_color(c, a, tc, 0, m) == c by {
            assert(tc * 0 * m + c * a * (m - 0) as nat == c * (a * m)) by (nonlinear_arith);
            assert(c * a * m + tc * 0 * (m - a) as nat == c * (a * m)) by (nonlinear_arith);
            lemma_round_div_exact(c, a * m);
        }
        lemma_round_div_exact(a, m);
        assert(over_color(t@.0, 0, p@.0, a, m) == p@.0);
        assert(over_color(t@.1, 0, p@.1, a, m) == p@.1);
        assert(over_color(t@.2, 0, p@.2, a, m) == p@.2);
        assert(over_color(p@.0, a, t@.0, 0, m) == p@.0);
        assert(over_color(p@.1, a, t@.1, 0, m) == p@.1);
        assert(over_color(p@.2, a, t@.2, 0, m) == p@.2);
    } else {
        assert(over_weight(0, 0, m) == 0) by (nonlinear_arith);
    }
    lemma_view_injective(r1, p);
    lemma_view_injective(r2, p);
}

} // verus!
