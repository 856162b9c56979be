use vstd::prelude::*;

verus! {

/// Why a buffer of channels could not be turned into a buffer of pixels.
#[derive(Debug, Clone, Copy, PartialEq, Eq, Structural)]
pub enum VecCastErrorKind {
    IncorrectCapacity,
    IncorrectLength,
    InvalidChannelValue,
}

/// A failed channel-to-pixel cast. The channel buffer is handed back untouched.
#[derive(Debug)]
pub struct VecCastError<T> {
    pub original_vec: Vec<T>,
    pub kind: VecCastErrorKind,
}

/// The range of values that one colour or alpha component may take.
pub trait PixelChannelBounds: Copy + Sized {
    /// The component as a natural number.
    spec fn spec_value(self) -> nat;

    /// The largest valid component value.
    spec fn spec_max() -> nat;

    /// The smallest valid component value.
    spec fn spec_min() -> nat;

    fn max_pixel_value() -> (r: Self)
        ensures
            r.spec_value() == Self::spec_max(),
    ;

    fn min_pixel_value() -> (r: Self)
        ensures
            r.spec_value() == Self::spec_min(),
    ;

    fn is_valid_channel_value(self) -> (r: bool)
        ensures
            r == (Self::spec_min() <= self.spec_value() <= Self::spec_max()),
    ;
}

/// A channel type whose values are the integers `0..=max`, with `max` at
/// least that of a byte and small enough that products of three components
/// fit in a `u64`.
pub trait PixelChannel: PixelChannelBounds {
    proof fn lemma_channel_range()
        ensures
            Self::spec_min() == 0,
            0xff <= Self::spec_max() <= 0xffff,
            forall|c: Self| #[trigger] c.spec_value() <= Self::spec_max(),
            forall|c: Self, d: Self| c.spec_value() == d.spec_value() ==> c == d,
    ;

    fn to_u64(self) -> (r: u64)
        ensures
            r == self.spec_value(),
    ;

    fn from_u64(v: u64) -> (r: Self)
        requires
            v <= Self::spec_max(),
        ensures
            r.spec_value() == v,
    ;

    /// The number of bytes one channel occupies.
    spec fn spec_byte_size() -> nat;

    /// The channels' bytes as they lie in memory, channel after channel.
    fn channel_bytes(channels: &[Self]) -> (r: Vec<u8>)
        ensures
            encodes_channels(
                channels@.map_values(|c: Self| c.spec_value()),
                Self::spec_byte_size(),
                r@,
            ),
    ;
}

/// The value of the channel stored in `size` bytes of `b` from `start`, in
/// little-endian or big-endian order. Channels are one or two bytes wide.
pub open spec fn channel_from_bytes(b: Seq<u8>, start: int, size: nat, little: bool) -> nat {
    if size == 1 {
        b[start] as nat
    } else if little {
        (b[start] + 256 * b[start + 1]) as nat
    } else {
        (256 * b[start] + b[start + 1]) as nat
    }
}

/// `bytes` holds `values`, `size` bytes each, all in one byte order.
pub open spec fn encodes_channels(values: Seq<nat>, size: nat, bytes: Seq<u8>) -> bool {
    &&& bytes.len() == size * values.len()
    &&& {
        ||| forall|i: int|
            0 <= i < values.len() ==> #[trigger] channel_from_bytes(bytes, size * i, size, true)
                == values[i]
        ||| forall|i: int|
            0 <= i < values.len() ==> #[trigger] channel_from_bytes(bytes, size * i, size, false)
                == values[i]
    }
}

/// Relies on `bytemuck::cast_slice`: a `[u16]` viewed as the bytes it
/// occupies, two per value, in the machine's byte order.
#[verifier::external_body]
fn u16_bytes(values: &[u16]) -> (r: Vec<u8>)
    ensures
        r@.len() == 2 * values@.len(),
        (forall|i: int|
            0 <= i < values@.len() ==> r@[2 * i] + 256 * r@[2 * i + 1] == values@[i]) || (forall|
            i: int,
        | 0 <= i < values@.len() ==> 256 * r@[2 * i] + r@[2 * i + 1] == values@[i]),
{
    bytemuck::cast_slice::<u16, u8>(values).to_vec()
}

impl PixelChannelBounds for u8 {
    open spec fn spec_value(self) -> nat {
        self as nat
    }

    open spec fn spec_max() -> nat {
        0xff
    }

    open spec fn spec_min() -> nat {
        0
    }

    fn max_pixel_value() -> (r: u8) {
        u8::MAX
    }

    fn min_pixel_value() -> (r: u8) {
        u8::MIN
    }

    fn is_valid_channel_value(self) -> (r: bool) {
        true
    }
}

impl PixelChannel for u8 {
    proof fn lemma_channel_range() {
    }

    fn to_u64(self) -> (r: u64) {
        self as u64
    }

    fn from_u64(v: u64) -> (r: u8) {
        v as u8
    }

    open spec fn spec_byte_size() -> nat {
        1
    }

    fn channel_bytes(channels: &[u8]) -> (r: Vec<u8>) {
        let mut out: Vec<u8> = Vec::with_capacity(channels.len());
        let mut i: usize = 0;
        while i < channels.len()
            invariant
                i <= channels@.len(),
                out@ == channels@.subrange(0, i as int),
            decreases channels@.len() - i,
        {
            out.push(channels[i]);
            i += 1;
            assert(out@ =~= channels@.subrange(0, i as int));
        }
        assert(out@ =~= channels@);
        assert forall|k: int| 0 <= k < channels@.len() implies #[trigger] channel_from_bytes(
            out@,
            1 * k,
            1,
            true,
        ) == channels@.map_values(|c: u8| c.spec_value())[k] by {
            assert(1 * k == k);
        }
        out
    }
}

impl PixelChannelBounds for u16 {
    open spec fn spec_value(self) -> nat {
        self as nat
    }

    open spec fn spec_max() -> nat {
        0xffff
    }

    open spec fn spec_min() -> nat {
        0
    }

    fn max_pixel_value() -> (r: u16) {
        u16::MAX
    }

    fn min_pixel_value() -> (r: u16) {
        u16::MIN
    }

    fn is_valid_channel_value(self) -> (r: bool) {
        true
    }
}

impl PixelChannel for u16 {
    proof fn lemma_channel_range() {
    }

    fn to_u64(self) -> (r: u64) {
        self as u64
    }

    fn from_u64(v: u64) -> (r: u16) {
        v as u16
    }

    open spec fn spec_byte_size() -> nat {
        2
    }

    fn channel_bytes(channels: &[u16]) -> (r: Vec<u8>) {
        let r = u16_bytes(channels);
        proof {
            let values = channels@.map_values(|c: u16| c.spec_value());
            if forall|i: int|
                0 <= i < channels@.len() ==> r@[2 * i] + 256 * r@[2 * i + 1] == channels@[i] {
                assert forall|i: int| 0 <= i < values.len() implies #[trigger] channel_from_bytes(
                    r@,
                    2 * i,
                    2,
                    true,
                ) == values[i] by {
                    assert(r@[2 * i] + 256 * r@[2 * i + 1] == channels@[i]);
                }
            } else {
                assert forall|i: int| 0 <= i < values.len() implies #[trigger] channel_from_bytes(
                    r@,
                    2 * i,
                    2,
                    false,
                ) == values[i] by {
                    assert(256 * r@[2 * i] + r@[2 * i + 1] == channels@[i]);
                }
            }
        }
        r
    }
}

/// The pixel layout tag handed to image codecs, chosen by the channel's size.
#[derive(Debug, Clone, Copy, PartialEq, Eq, Structural)]
pub enum ColorType {
    Rgba8,
    Rgba16,
    Rgba32F,
}

/// A RGBA pixel, generic over the channel type `T`.
#[derive(Clone, Copy, PartialEq, Eq, Debug)]
pub struct AlphaPixel<T> {
    pub r: T,
    pub g: T,
    pub b: T,
    pub a: T,
}

impl<T: PixelChannel> View for AlphaPixel<T> {
    type V = (nat, nat, nat, nat);

    open spec fn view(&self) -> (nat, nat, nat, nat) {
        (self.r.spec_value(), self.g.spec_value(), self.b.spec_value(), self.a.spec_value())
    }
}

/// The channel value `v`.
pub open spec fn channel_with_value<T: PixelChannel>(v: nat) -> T {
    choose|c: T| #[trigger] c.spec_value() == v
}

/// A channel is the channel with its own value.
pub proof fn lemma_channel_with_value<T: PixelChannel>(c: T)
    ensures
        channel_with_value::<T>(c.spec_value()) == c,
{
    T::lemma_channel_range();
    let d = channel_with_value::<T>(c.spec_value());
    assert(d.spec_value() == c.spec_value());
}

/// `n / d` rounded to the nearest integer, halves upwards.
pub open spec fn round_div(n: nat, d: nat) -> nat {
    (2 * n + d) / (2 * d)
}

/// A quotient at most `m`, rounded, is still at most `m`.
pub proof fn lemma_round_div_le(n: nat, d: nat, m: nat)
    requires
        n <= m * d,
        0 < d,
    ensures
        round_div(n, d) <= m,
{
    let x = (2 * n + d) as int;
    let y = (2 * d) as int;
    vstd::arithmetic::div_mod::lemma_fundamental_div_mod(x, y);
    vstd::arithmetic::div_mod::lemma_mod_pos_bound(x, y);
    if x / y > m {
        assert(y * (x / y) >= y * (m + 1)) by (nonlinear_arith)
            requires
                x / y >= m + 1,
                y > 0,
        ;
        assert(y * (m + 1) == 2 * (m * d) + 2 * d) by (nonlinear_arith)
            requires
                y == 2 * d,
        ;
        assert(x <= 2 * (m * d) + d);
    }
}

/// An exact multiple rounds to its quotient.
pub proof fn lemma_round_div_exact(q: nat, d: nat)
    requires
        0 < d,
    ensures
        round_div(q * d, d) == q,
{
    assert(2 * (q * d) + d == q * (2 * d) + d) by (nonlinear_arith);
    vstd::arithmetic::div_mod::lemma_fundamental_div_mod_converse(
        (2 * (q * d) + d) as int,
        (2 * d) as int,
        q as int,
        d as int,
    );
}

/// `v` rescaled from the range `0..=from_max` to `0..=to_max`, rounded to
/// nearest.
pub open spec fn rescale(v: nat, from_max: nat, to_max: nat) -> nat {
    round_div(v * to_max, from_max)
}

/// Each channel rescaled from one channel range to another.
pub open spec fn rescale_pixel(p: (nat, nat, nat, nat), from_max: nat, to_max: nat) -> (
    nat,
    nat,
    nat,
    nat,
) {
    (
        rescale(p.0, from_max, to_max),
        rescale(p.1, from_max, to_max),
        rescale(p.2, from_max, to_max),
        rescale(p.3, from_max, to_max),
    )
}

/// NTSC luma, `0.299 R + 0.587 G + 0.114 B`, rounded to nearest.
pub open spec fn luma_of(p: (nat, nat, nat, nat)) -> nat {
    round_div(299 * p.0 + 587 * p.1 + 114 * p.2, 1000)
}

/// One lowercase hexadecimal digit.
pub open spec fn hex_digit(d: nat) -> char {
    if d < 10 {
        (('0' as nat) + d) as char
    } else {
        (('a' as nat) + d - 10) as char
    }
}

/// A byte as two lowercase hexadecimal digits.
pub open spec fn hex_byte(v: nat) -> Seq<char> {
    seq![hex_digit(v / 16), hex_digit(v % 16)]
}

/// A number in decimal digits, without leading zeros.
pub open spec fn decimal(v: nat) -> Seq<char>
    decreases v,
{
    if v < 10 {
        seq![hex_digit(v)]
    } else {
        decimal(v / 10) + seq![hex_digit(v % 10)]
    }
}

/// `rgba(r, g, b, a)` with the channel values in decimal.
pub open spec fn debug_text(p: (nat, nat, nat, nat)) -> Seq<char> {
    seq!['r', 'g', 'b', 'a', '('] + decimal(p.0) + seq![',', ' '] + decimal(p.1) + seq![',', ' ']
        + decimal(p.2) + seq![',', ' '] + decimal(p.3) + seq![')']
}

/// The pixels spelled by consecutive groups of four channels; a trailing
/// partial group is ignored.
pub open spec fn pixels_from_channels<T>(s: Seq<T>) -> Seq<AlphaPixel<T>> {
    Seq::new(
        s.len() / 4,
        |i: int| AlphaPixel { r: s[4 * i], g: s[4 * i + 1], b: s[4 * i + 2], a: s[4 * i + 3] },
    )
}

/// Every channel of `s` is a valid channel value.
pub open spec fn all_valid<T: PixelChannelBounds>(s: Seq<T>) -> bool {
    forall|i: int|
        0 <= i < s.len() ==> T::spec_min() <= #[trigger] s[i].spec_value() <= T::spec_max()
}

/// Two pixels with the same channel values are the same pixel.
pub proof fn lemma_view_injective<T: PixelChannel>(p: AlphaPixel<T>, q: AlphaPixel<T>)
    requires
        p@ == q@,
    ensures
        p == q,
{
    T::lemma_channel_range();
    assert(p.r == q.r);
    assert(p.g == q.g);
    assert(p.b == q.b);
    assert(p.a == q.a);
}

proof fn lemma_rescale_bound(v: nat, from_max: nat, to_max: nat)
    requires
        v <= from_max,
        0 < from_max,
    ensures
        rescale(v, from_max, to_max) <= to_max,
{
    assert(v * to_max <= to_max * from_max) by (nonlinear_arith)
        requires
            v <= from_max,
    ;
    lemma_round_div_le(v * to_max, from_max, to_max);
}

proof fn lemma_rescale_same(v: nat, m: nat)
    requires
        0 < m,
    ensures
        rescale(v, m, m) == v,
{
    lemma_round_div_exact(v, m);
}

fn rescale_channel<T: PixelChannel, U: PixelChannel>(c: T) -> (r: U)
    ensures
        r.spec_value() == rescale(c.spec_value(), T::spec_max(), U::spec_max()),
{
    proof {
        T::lemma_channel_range();
        U::lemma_channel_range();
        lemma_rescale_bound(c.spec_value(), T::spec_max(), U::spec_max());
    }
    let v = c.to_u64();
    let from_max = T::max_pixel_value().to_u64();
    let to_max = U::max_pixel_value().to_u64();
    assert(v * to_max <= 0xffff * 0xffff) by (nonlinear_arith)
        requires
            v <= 0xffff,
            to_max <= 0xffff,
    ;
    U::from_u64((2 * (v * to_max) + from_max) / (2 * from_max))
}

fn hex_digit_str(d: u64) -> (r: &'static str)
    requires
        d < 16,
    ensures
        r@ == seq![hex_digit(d as nat)],
{
    let r = match d {
        0 => "0",
        1 => "1",
        2 => "2",
        3 => "3",
        4 => "4",
        5 => "5",
        6 => "6",
        7 => "7",
        8 => "8",
        9 => "9",
        10 => "a",
        11 => "b",
        12 => "c",
        13 => "d",
        14 => "e",
        _ => "f",
    };
    proof {
        reveal_strlit("0");
        reveal_strlit("1");
        reveal_strlit("2");
        reveal_strlit("3");
        reveal_strlit("4");
        reveal_strlit("5");
        reveal_strlit("6");
        reveal_strlit("7");
        reveal_strlit("8");
        reveal_strlit("9");
        reveal_strlit("a");
        reveal_strlit("b");
        reveal_strlit("c");
        reveal_strlit("d");
        reveal_strlit("e");
        reveal_strlit("f");
        assert(r@ =~= seq![hex_digit(d as nat)]);
    }
    r
}

fn push_hex_byte(s: &mut String, v: u8)
    ensures
        final(s)@ == old(s)@ + hex_byte(v as nat),
{
    let hi = hex_digit_str(v as u64 / 16);
    let lo = hex_digit_str(v as u64 % 16);
    s.append(hi);
    s.append(lo);
    assert(final(s)@ =~= old(s)@ + hex_byte(v as nat));
}

fn push_decimal(s: &mut String, v: u64)
    ensures
        final(s)@ == old(s)@ + decimal(v as nat),
    decreases v,
{
    if v >= 10 {
        push_decimal(s, v / 10);
    }
    let d = hex_digit_str(v % 10);
    s.append(d);
    assert(final(s)@ =~= old(s)@ + decimal(v as nat));
}

fn push_separator(s: &mut String)
    ensures
        final(s)@ == old(s)@ + seq![',', ' '],
{
    let sep = ", ";
    proof {
        reveal_strlit(", ");
    }
    s.append(sep);
    assert(final(s)@ =~= old(s)@ + seq![',', ' ']);
}

impl<T: PixelChannel> AlphaPixel<T> {
    /// The pixel `rgba(r, g, b, a)`.
    pub fn rgba(r: T, g: T, b: T, a: T) -> (p: Self)
        ensures
            p == (AlphaPixel { r, g, b, a }),
    {
        AlphaPixel { r, g, b, a }
    }

    /// `T: u8` rgba(255, 255, 255, 255)
    pub fn white() -> (p: Self)
        ensures
            p@ == (T::spec_max(), T::spec_max(), T::spec_max(), T::spec_max()),
    {
        let m = T::max_pixel_value();
        AlphaPixel { r: m, g: m, b: m, a: m }
    }

    /// `T: u8` rgba(0, 0, 0, 255)
    pub fn black() -> (p: Self)
        ensures
            p@ == (0nat, 0nat, 0nat, T::spec_max()),
    {
        let z = T::min_pixel_value();
        let m = T::max_pixel_value();
        proof {
            T::lemma_channel_range();
        }
        AlphaPixel { r: z, g: z, b: z, a: m }
    }

    /// `T: u8` rgba(255, 0, 0, 255)
    pub fn red() -> (p: Self)
        ensures
            p@ == (T::spec_max(), 0nat, 0nat, T::spec_max()),
    {
        let z = T::min_pixel_value();
        let m = T::max_pixel_value();
        proof {
            T::lemma_channel_range();
        }
        AlphaPixel { r: m, g: z, b: z, a: m }
    }

    /// `T: u8` rgba(0, 255, 0, 255)
    pub fn green() -> (p: Self)
        ensures
            p@ == (0nat, T::spec_max(), 0nat, T::spec_max()),
    {
        let z = T::min_pixel_value();
        let m = T::max_pixel_value();
        proof {
            T::lemma_channel_range();
        }
        AlphaPixel { r: z, g: m, b: z, a: m }
    }

    /// `T: u8` rgba(0, 0, 255, 255)
    pub fn blue() -> (p: Self)
        ensures
            p@ == (0nat, 0nat, T::spec_max(), T::spec_max()),
    {
        let z = T::min_pixel_value();
        let m = T::max_pixel_value();
        proof {
            T::lemma_channel_range();
        }
        AlphaPixel { r: z, g: z, b: m, a: m }
    }

    /// Fully transparent black, `rgba(0, 0, 0, 0)`.
    pub fn transparent() -> (p: Self)
        ensures
            p@ == (0nat, 0nat, 0nat, 0nat),
    {
        let z = T::min_pixel_value();
        proof {
            T::lemma_channel_range();
        }
        AlphaPixel { r: z, g: z, b: z, a: z }
    }

    /// The luminosity of this pixel, by the NTSC weighting of its colour channels.
    pub fn luma(self) -> (r: T)
        ensures
            r.spec_value() == luma_of(self@),
    {
        proof {
            T::lemma_channel_range();
        }
        let r = self.r.to_u64();
        let g = self.g.to_u64();
        let b = self.b.to_u64();
        let l = (2 * (299 * r + 587 * g + 114 * b) + 1000) / 2000;
        proof {
            assert(299 * r + 587 * g + 114 * b <= T::spec_max() * 1000) by (nonlinear_arith)
                requires
                    r <= T::spec_max(),
                    g <= T::spec_max(),
                    b <= T::spec_max(),
            ;
            lemma_round_div_le((299 * r + 587 * g + 114 * b) as nat, 1000, T::spec_max());
        }
        T::from_u64(l)
    }

    /// Replace each colour channel `c` by `max - c`; alpha is kept.
    pub fn invert(&mut self)
        ensures
            final(self)@ == (
                (T::spec_max() - old(self)@.0) as nat,
                (T::spec_max() - old(self)@.1) as nat,
                (T::spec_max() - old(self)@.2) as nat,
                old(self)@.3,
            ),
    {
        proof {
            T::lemma_channel_range();
        }
        let m = T::max_pixel_value().to_u64();
        self.r = T::from_u64(m - self.r.to_u64());
        self.g = T::from_u64(m - self.g.to_u64());
        self.b = T::from_u64(m - self.b.to_u64());
    }

    /// Convert from `AlphaPixel<T>` to `AlphaPixel<U>`: each channel is taken
    /// as a fraction of `T`'s maximum and scaled to `U`'s maximum, rounding down.
    pub fn as_different_channel<U: PixelChannel>(&self) -> (p: AlphaPixel<U>)
        ensures
            p@ == rescale_pixel(self@, T::spec_max(), U::spec_max()),
    {
        AlphaPixel {
            r: rescale_channel::<T, U>(self.r),
            g: rescale_channel::<T, U>(self.g),
            b: rescale_channel::<T, U>(self.b),
            a: rescale_channel::<T, U>(self.a),
        }
    }

    /// The pixel as eight lowercase hex digits, `rrggbbaa`, after conversion
    /// to 8-bit channels.
    pub fn as_hex_string(&self) -> (s: String)
        ensures
            ({
                let q = rescale_pixel(self@, T::spec_max(), 0xff);
                s@ == hex_byte(q.0) + hex_byte(q.1) + hex_byte(q.2) + hex_byte(q.3)
            }),
    {
        let p: AlphaPixel<u8> = self.as_different_channel();
        let mut s = String::new();
        push_hex_byte(&mut s, p.r);
        push_hex_byte(&mut s, p.g);
        push_hex_byte(&mut s, p.b);
        push_hex_byte(&mut s, p.a);
        s
    }

    /// The pixel as text, `rgba(r, g, b, a)`, channel values in decimal.
    pub fn debug_string(&self) -> (s: String)
        ensures
            s@ == debug_text(self@),
    {
        let open = "rgba(";
        let close = ")";
        proof {
            reveal_strlit("rgba(");
            reveal_strlit(")");
        }
        let mut s = String::from_str(open);
        push_decimal(&mut s, self.r.to_u64());
        push_separator(&mut s);
        push_decimal(&mut s, self.g.to_u64());
        push_separator(&mut s);
        push_decimal(&mut s, self.b.to_u64());
        push_separator(&mut s);
        push_decimal(&mut s, self.a.to_u64());
        s.append(close);
        assert(s@ =~= debug_text(self@));
        s
    }

    /// The pixel's channels, in the order red, green, blue, alpha.
    pub fn channels(&self) -> (c: [T; 4])
        ensures
            c@ == seq![self.r, self.g, self.b, self.a],
    {
        [self.r, self.g, self.b, self.a]
    }

    /// The pixel made of the first four channels of `slice`.
    ///
    /// Further channels are ignored. `None` if there are fewer than four, or
    /// one of the four is not a valid channel value.
    pub fn try_from_slice(slice: &[T]) -> (r: Option<Self>)
        ensures
            r is Some <==> slice@.len() >= 4 && all_valid(slice@.subrange(0, 4)),
            r is Some ==> r->0 == (AlphaPixel {
                r: slice@[0],
                g: slice@[1],
                b: slice@[2],
                a: slice@[3],
            }),
    {
        if slice.len() < 4 {
            return None;
        }
        let v0 = slice[0].is_valid_channel_value();
        let v1 = slice[1].is_valid_channel_value();
        let v2 = slice[2].is_valid_channel_value();
        let v3 = slice[3].is_valid_channel_value();
        proof {
            let s = slice@.subrange(0, 4);
            assert(s[0] == slice@[0] && s[1] == slice@[1] && s[2] == slice@[2] && s[3]
                == slice@[3]);
        }
        if v0 && v1 && v2 && v3 {
            Some(AlphaPixel { r: slice[0], g: slice[1], b: slice[2], a: slice[3] })
        } else {
            None
        }
    }

    /// The pixels spelled by consecutive groups of four channels of
    /// `channel_slice`; a trailing partial group is ignored.
    ///
    /// `None` if any channel, trailing ones included, is invalid.
    pub fn try_pixel_slice_from_channels(channel_slice: &[T]) -> (r: Option<Vec<Self>>)
        ensures
            r is Some <==> all_valid(channel_slice@),
            r is Some ==> r->0@ == pixels_from_channels(channel_slice@),
    {
        if !all_channels_valid(channel_slice) {
            return None;
        }
        Some(group_channels(channel_slice))
    }

    /// Convert from a `Vec` of components to a `Vec` of `AlphaPixel`s.
    ///
    /// Fails, handing the buffer back unchanged, when a channel is invalid,
    /// else when the length is not a multiple of four, else when the
    /// capacity is not a multiple of four.
    pub fn try_pixel_vec_from_channels(channel_vec: Vec<T>) -> (r: Result<
        Vec<Self>,
        VecCastError<T>,
    >)
        ensures
            !all_valid(channel_vec@) ==> (r matches Err(e) && e.kind
                == VecCastErrorKind::InvalidChannelValue),
            all_valid(channel_vec@) && channel_vec@.len() % 4 != 0 ==> (r matches Err(e)
                && e.kind == VecCastErrorKind::IncorrectLength),
            all_valid(channel_vec@) && channel_vec@.len() % 4 == 0 ==> ((r matches Ok(v)
                && v@ == pixels_from_channels(channel_vec@)) || (r matches Err(e) && e.kind
                == VecCastErrorKind::IncorrectCapacity)),
            r matches Err(e) ==> e.original_vec@ == channel_vec@,
    {
        if !all_channels_valid(channel_vec.as_slice()) {
            return Err(
                VecCastError {
                    original_vec: channel_vec,
                    kind: VecCastErrorKind::InvalidChannelValue,
                },
            );
        }
        if channel_vec.len() % 4 != 0 {
            return Err(
                VecCastError { original_vec: channel_vec, kind: VecCastErrorKind::IncorrectLength },
            );
        }
        let capacity = vec_capacity(&channel_vec);
        Self::pixel_vec_with_capacity(channel_vec, capacity)
    }

    /// The last step of [`Self::try_pixel_vec_from_channels`], for a buffer of
    /// valid channels whose length is a multiple of four and whose reserved
    /// capacity is `capacity`: the pixels if the capacity is a multiple of
    /// four, else the buffer back with `IncorrectCapacity`.
    pub fn pixel_vec_with_capacity(channel_vec: Vec<T>, capacity: usize) -> (r: Result<
        Vec<Self>,
        VecCastError<T>,
    >)
        requires
            all_valid(channel_vec@),
            channel_vec@.len() % 4 == 0,
        ensures
            capacity % 4 == 0 ==> (r matches Ok(v) && v@ == pixels_from_channels(channel_vec@)),
            capacity % 4 != 0 ==> (r matches Err(e) && e.kind == VecCastErrorKind::IncorrectCapacity
                && e.original_vec@ == channel_vec@),
    {
        if capacity % 4 != 0 {
            return Err(
                VecCastError {
                    original_vec: channel_vec,
                    kind: VecCastErrorKind::IncorrectCapacity,
                },
            );
        }
        Ok(group_channels(channel_vec.as_slice()))
    }
}

impl<T: PixelChannel> Default for AlphaPixel<T> {
    /// Fully transparent black.
    fn default() -> (p: Self)
        ensures
            p@ == (0nat, 0nat, 0nat, 0nat),
    {
        Self::transparent()
    }
}

impl<T> AlphaPixel<T> {
    /// The codec layout tag for pixels of this channel type: 8-bit, 16-bit or
    /// 32-bit float RGBA, by the channel's size in bytes.
    pub fn color_type() -> (c: ColorType)
        requires
            vstd::layout::size_of::<T>() == 1 || vstd::layout::size_of::<T>() == 2
                || vstd::layout::size_of::<T>() == 4,
        ensures
            vstd::layout::size_of::<T>() == 1 ==> c == ColorType::Rgba8,
            vstd::layout::size_of::<T>() == 2 ==> c == ColorType::Rgba16,
            vstd::layout::size_of::<T>() == 4 ==> c == ColorType::Rgba32F,
    {
        let size = core::mem::size_of::<T>();
        if size == 1 {
            ColorType::Rgba8
        } else if size == 2 {
            ColorType::Rgba16
        } else {
            ColorType::Rgba32F
        }
    }
}

fn all_channels_valid<T: PixelChannel>(s: &[T]) -> (r: bool)
    ensures
        r == all_valid(s@),
{
    let mut i: usize = 0;
    while i < s.len()
        invariant
            i <= s@.len(),
            all_valid(s@.subrange(0, i as int)),
        decreases s@.len() - i,
    {
        if !s[i].is_valid_channel_value() {
            assert(!all_valid(s@)) by {
                assert(s@[i as int] == s[i as int]);
            }
            return false;
        }
        assert(all_valid(s@.subrange(0, i + 1))) by {
            assert forall|j: int| 0 <= j < i + 1 implies T::spec_min()
                <= #[trigger] s@.subrange(0, i + 1)[j].spec_value() <= T::spec_max() by {
                if j < i {
                    assert(s@.subrange(0, i + 1)[j] == s@.subrange(0, i as int)[j]);
                }
            }
        }
        i += 1;
    }
    assert(s@.subrange(0, i as int) =~= s@);
    true
}

fn group_channels<T: PixelChannel>(s: &[T]) -> (r: Vec<AlphaPixel<T>>)
    ensures
        r@ == pixels_from_channels(s@),
{
    let len = s.len();
    let n = len / 4;
    let mut out: Vec<AlphaPixel<T>> = Vec::with_capacity(n);
    let mut i: usize = 0;
    while i < n
        invariant
            len == s@.len(),
            n == len / 4,
            i <= n,
            out@ =~= pixels_from_channels(s@).subrange(0, i as int),
        decreases n - i,
    {
        let k = 4 * i;
        out.push(AlphaPixel { r: s[k], g: s[k + 1], b: s[k + 2], a: s[k + 3] });
        i += 1;
    }
    assert(out@ =~= pixels_from_channels(s@));
    out
}

/// Relies on `Vec::capacity`: the number of elements the buffer has room
/// for. Nothing is promised of the value; it depends on the allocator.
#[verifier::external_body]
fn vec_capacity<T>(v: &Vec<T>) -> (r: usize) {
    v.capacity()
}

/// Converting a pixel to its normalized form and back through the same
/// channel type gives the pixel back.
pub proof fn lemma_same_channel_round_trip<T: PixelChannel>(p: AlphaPixel<T>, q: AlphaPixel<T>)
    requires
        q@ == rescale_pixel(p@, T::spec_max(), T::spec_max()),
    ensures
        q == p,
{
    T::lemma_channel_range();
    lemma_rescale_same(p@.0, T::spec_max());
    lemma_rescale_same(p@.1, T::spec_max());
    lemma_rescale_same(p@.2, T::spec_max());
    lemma_rescale_same(p@.3, T::spec_max());
    lemma_view_injective(q, p);
}

/// Widening a channel value to a range whose maximum is a multiple of the
/// first maximum, then narrowing it back, gives the value back.
pub proof fn lemma_widen_narrow_round_trip(v: nat, m: nat, k: nat)
    requires
        0 < m,
        0 < k,
    ensures
        rescale(rescale(v, m, k * m), k * m, m) == v,
{
    assert(v * (k * m) == (v * k) * m) by (nonlinear_arith);
    lemma_round_div_exact(v * k, m);
    assert(0 < k * m) by (nonlinear_arith)
        requires
            0 < m,
            0 < k,
    ;
    lemma_round_div_exact(v, k * m);
}

} // verus!
