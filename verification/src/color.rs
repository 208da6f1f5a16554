//! 8 bit colors, with and without premultiplied alpha.
use vstd::prelude::*;

verus! {

/// An alpha value of a color that nothing of is seen.
pub const ALPHA_U8_TRANSPARENT: u8 = 0x00;

/// An alpha value of a color that nothing is seen through.
pub const ALPHA_U8_OPAQUE: u8 = 0xFF;

/// `n / d`, rounded to the nearest integer; a half rounds up.
pub open spec fn rounded(n: int, d: int) -> int {
    (2 * n + d) / (2 * d)
}

/// The channel `c` scaled by `a / 255`.
pub open spec fn premultiplied_channel(c: u8, a: u8) -> u8 {
    rounded(c * a, 255) as u8
}

/// The channel `c` scaled by `255 / a`, cut off at 255.
///
/// Nothing can be recovered from a transparent color: zero stays zero there, and
/// everything else is out of range.
pub open spec fn demultiplied_channel(c: u8, a: u8) -> u8 {
    if a == 0 {
        if c == 0 {
            0
        } else {
            255
        }
    } else if rounded(255 * c, a as int) > 255 {
        255
    } else {
        rounded(255 * c, a as int) as u8
    }
}

proof fn lemma_premultiplied_channel_range(c: u8, a: u8)
    ensures
        0 <= rounded(c * a, 255) <= a,
        rounded(c * a, 255) <= c,
{
    assert(0 <= c * a <= 255 * a) by (nonlinear_arith)
        requires
            0 <= c <= 255,
            0 <= a,
    ;
    assert(c * a <= 255 * c) by (nonlinear_arith)
        requires
            0 <= c,
            0 <= a <= 255,
    ;
}

proof fn lemma_opaque_channel(c: u8)
    ensures
        premultiplied_channel(c, 255) == c,
        demultiplied_channel(c, 255) == c,
{
    assert(rounded(255 * c, 255) == (510 * c + 255) / 510);
    assert((510 * c + 255) / 510 == c as int);
}

/// Returns `c * a / 255`, rounded to the nearest integer.
pub fn premultiply_u8(c: u8, a: u8) -> (r: u8)
    ensures
        r == premultiplied_channel(c, a),
        r <= a,
        r <= c,
{
    proof {
        lemma_premultiplied_channel_range(c, a);
        assert(c * a <= 255 * 255) by (nonlinear_arith)
            requires
                0 <= c <= 255,
                0 <= a <= 255,
        ;
    }
    let product: u32 = c as u32 * a as u32;
    let prod: u32 = product + 128;
    assert(prod + (prod >> 8) <= 0xFFFF) by (bit_vector)
        requires
            prod <= 65153,
    ;
    let sum: u32 = prod + (prod >> 8);
    assert(sum >> 8 == (2 * product + 255) / 510) by (bit_vector)
        requires
            sum == prod + (prod >> 8),
            prod == product + 128,
            product <= 65025,
    ;
    (sum >> 8) as u8
}

/// Returns `255 * c / a`, rounded to the nearest integer and cut off at 255.
pub fn demultiply_u8(c: u8, a: u8) -> (r: u8)
    ensures
        r == demultiplied_channel(c, a),
{
    if a == 0 {
        return if c == 0 {
            0
        } else {
            255
        };
    }
    let q: u32 = (510 * c as u32 + a as u32) / (2 * a as u32);
    if q > 255 {
        255
    } else {
        q as u8
    }
}

/// A color with 8 bit channels that its alpha has not been applied to.
#[derive(Clone, Copy, Debug, PartialEq, Eq, Structural)]
pub struct ColorU8 {
    pub r: u8,
    pub g: u8,
    pub b: u8,
    pub a: u8,
}

/// A color with 8 bit channels, each scaled by the color's alpha.
#[derive(Clone, Copy, Debug, PartialEq, Eq, Structural)]
pub struct PremultipliedColorU8 {
    pub r: u8,
    pub g: u8,
    pub b: u8,
    pub a: u8,
}

impl ColorU8 {
    /// The channels in memory order.
    pub open spec fn bytes(self) -> Seq<u8> {
        seq![self.r, self.g, self.b, self.a]
    }

    /// The color with its alpha applied to the other channels.
    pub open spec fn premultiplied(self) -> PremultipliedColorU8 {
        PremultipliedColorU8 {
            r: premultiplied_channel(self.r, self.a),
            g: premultiplied_channel(self.g, self.a),
            b: premultiplied_channel(self.b, self.a),
            a: self.a,
        }
    }

    /// Creates a color.
    pub fn from_rgba(r: u8, g: u8, b: u8, a: u8) -> (c: Self)
        ensures
            c == (ColorU8 { r, g, b, a }),
    {
        ColorU8 { r, g, b, a }
    }

    /// Returns color's red channel.
    pub fn red(&self) -> (v: u8)
        ensures
            v == self.r,
    {
        self.r
    }

    /// Returns color's green channel.
    pub fn green(&self) -> (v: u8)
        ensures
            v == self.g,
    {
        self.g
    }

    /// Returns color's blue channel.
    pub fn blue(&self) -> (v: u8)
        ensures
            v == self.b,
    {
        self.b
    }

    /// Returns color's alpha.
    pub fn alpha(&self) -> (v: u8)
        ensures
            v == self.a,
    {
        self.a
    }

    /// Returns a color whose channels are scaled by its alpha.
    pub fn premultiply(&self) -> (c: PremultipliedColorU8)
        ensures
            c == self.premultiplied(),
            c.valid(),
    {
        let a = self.a;
        if a == ALPHA_U8_OPAQUE {
            PremultipliedColorU8 { r: self.r, g: self.g, b: self.b, a }
        } else {
            PremultipliedColorU8 {
                r: premultiply_u8(self.r, a),
                g: premultiply_u8(self.g, a),
                b: premultiply_u8(self.b, a),
                a,
            }
        }
    }
}

impl PremultipliedColorU8 {
    /// Whether the channels can be the result of a multiplication by alpha.
    pub open spec fn valid(self) -> bool {
        self.r <= self.a && self.g <= self.a && self.b <= self.a
    }

    /// The channels in memory order.
    pub open spec fn bytes(self) -> Seq<u8> {
        seq![self.r, self.g, self.b, self.a]
    }

    /// The color that the four bytes of `b` from `at` on stand for.
    pub open spec fn read(b: Seq<u8>, at: int) -> PremultipliedColorU8 {
        PremultipliedColorU8 { r: b[at], g: b[at + 1], b: b[at + 2], a: b[at + 3] }
    }

    /// The color with its alpha taken out of the other channels.
    pub open spec fn demultiplied(self) -> ColorU8 {
        ColorU8 {
            r: demultiplied_channel(self.r, self.a),
            g: demultiplied_channel(self.g, self.a),
            b: demultiplied_channel(self.b, self.a),
            a: self.a,
        }
    }

    /// Returns a transparent black.
    pub fn transparent() -> (c: Self)
        ensures
            c == (PremultipliedColorU8 { r: 0, g: 0, b: 0, a: 0 }),
    {
        PremultipliedColorU8 { r: 0, g: 0, b: 0, a: 0 }
    }

    /// Creates a color, unless a channel is over its alpha.
    pub fn from_rgba(r: u8, g: u8, b: u8, a: u8) -> (c: Option<Self>)
        ensures
            c == (if (PremultipliedColorU8 { r, g, b, a }).valid() {
                Some(PremultipliedColorU8 { r, g, b, a })
            } else {
                None
            }),
    {
        if r <= a && g <= a && b <= a {
            Some(PremultipliedColorU8 { r, g, b, a })
        } else {
            None
        }
    }

    /// Creates a color without checking its channels against its alpha.
    pub fn from_rgba_unchecked(r: u8, g: u8, b: u8, a: u8) -> (c: Self)
        ensures
            c == (PremultipliedColorU8 { r, g, b, a }),
    {
        PremultipliedColorU8 { r, g, b, a }
    }

    /// Creates a color from its bytes in memory order.
    pub fn from_bytes(bytes: [u8; 4]) -> (c: Self)
        ensures
            c == (PremultipliedColorU8 { r: bytes@[0], g: bytes@[1], b: bytes@[2], a: bytes@[3] }),
            c.bytes() == bytes@,
    {
        PremultipliedColorU8 { r: bytes[0], g: bytes[1], b: bytes[2], a: bytes[3] }
    }

    /// Returns color's bytes in memory order.
    pub fn to_bytes(&self) -> (bytes: [u8; 4])
        ensures
            bytes@ == self.bytes(),
    {
        [self.r, self.g, self.b, self.a]
    }

    /// Returns color's red channel.
    pub fn red(&self) -> (v: u8)
        ensures
            v == self.r,
    {
        self.r
    }

    /// Returns color's green channel.
    pub fn green(&self) -> (v: u8)
        ensures
            v == self.g,
    {
        self.g
    }

    /// Returns color's blue channel.
    pub fn blue(&self) -> (v: u8)
        ensures
            v == self.b,
    {
        self.b
    }

    /// Returns color's alpha.
    pub fn alpha(&self) -> (v: u8)
        ensures
            v == self.a,
    {
        self.a
    }

    /// Returns a demultiplied color.
    pub fn demultiply(&self) -> (c: ColorU8)
        ensures
            c == self.demultiplied(),
    {
        let a = self.a;
        if a == ALPHA_U8_OPAQUE {
            proof {
                lemma_opaque_channel(self.r);
                lemma_opaque_channel(self.g);
                lemma_opaque_channel(self.b);
            }
            ColorU8 { r: self.r, g: self.g, b: self.b, a }
        } else {
            ColorU8 {
                r: demultiply_u8(self.r, a),
                g: demultiply_u8(self.g, a),
                b: demultiply_u8(self.b, a),
                a,
            }
        }
    }
}

proof fn lemma_channel_round_trip(c: u8, a: u8)
    requires
        c <= a,
    ensures
        premultiplied_channel(demultiplied_channel(c, a), a) == c,
{
    if a == 0 {
    } else {
        let q = rounded(255 * c, a as int);
        assert(q <= 255 && 510 * c - a <= q * (2 * a) <= 510 * c + a && q >= 0) by (nonlinear_arith)
            requires
                q == (2 * (255 * c) + a) / (2 * a as int),
                0 < a <= 255,
                0 <= c <= a,
        ;
        let p = rounded(q * a, 255);
        assert(2 * (q * a) == q * (2 * a)) by (nonlinear_arith);
        if a == 255 {
            assert(q * a == 255 * q) by (nonlinear_arith)
                requires
                    a == 255,
            ;
        }
        assert(p == (2 * (q * a) + 255) / 510);
        assert(p == c);
    }
}

/// Premultiplying undoes demultiplying: a color whose channels are within its alpha
/// survives the round trip unchanged.
pub proof fn law_premultiply_undoes_demultiply(c: PremultipliedColorU8)
    requires
        c.valid(),
    ensures
        c.demultiplied().premultiplied() == c,
{
    lemma_channel_round_trip(c.r, c.a);
    lemma_channel_round_trip(c.g, c.a);
    lemma_channel_round_trip(c.b, c.a);
}

/// Premultiplying never leaves a channel above alpha.
pub proof fn law_premultiplied_is_valid(c: ColorU8)
    ensures
        c.premultiplied().valid(),
{
    lemma_premultiplied_channel_range(c.r, c.a);
    lemma_premultiplied_channel_range(c.g, c.a);
    lemma_premultiplied_channel_range(c.b, c.a);
}

/// An opaque color is the same with and without its alpha applied.
pub proof fn law_opaque_is_unchanged(c: ColorU8)
    requires
        c.a == ALPHA_U8_OPAQUE,
    ensures
        c.premultiplied().bytes() == c.bytes(),
        c.premultiplied().demultiplied() == c,
{
    lemma_opaque_channel(c.r);
    lemma_opaque_channel(c.g);
    lemma_opaque_channel(c.b);
}

/// A premultiplied channel is the nearest integer to the product of the channel and the
/// alpha over 255, and the alpha itself stays.
pub proof fn law_premultiplied_is_nearest(c: ColorU8)
    ensures
        -255 <= 2 * (255 * c.premultiplied().r - c.r * c.a) <= 255,
        -255 <= 2 * (255 * c.premultiplied().g - c.g * c.a) <= 255,
        -255 <= 2 * (255 * c.premultiplied().b - c.b * c.a) <= 255,
        c.premultiplied().a == c.a,
{
    lemma_premultiplied_is_nearest(c.r, c.a);
    lemma_premultiplied_is_nearest(c.g, c.a);
    lemma_premultiplied_is_nearest(c.b, c.a);
}

proof fn lemma_premultiplied_is_nearest(c: u8, a: u8)
    ensures
        -255 <= 2 * (255 * premultiplied_channel(c, a) - c * a) <= 255,
{
    let n = c * a;
    let p = rounded(n, 255);
    lemma_premultiplied_channel_range(c, a);
    assert(p == (2 * n + 255) / 510);
    assert(premultiplied_channel(c, a) == p);
}

proof fn lemma_demultiplied_is_nearest(c: u8, a: u8)
    requires
        0 < a,
    ensures
        ({
            let d = demultiplied_channel(c, a);
            &&& d < 255 ==> -a < 2 * (a * d - 255 * c) <= a
            &&& d == 255 ==> -a < 2 * (255 * a - 255 * c) <= a || 255 * c > 255 * a
        }),
{
    let q = rounded(255 * c, a as int);
    let d = demultiplied_channel(c, a);
    assert(510 * c - a < q * (2 * a) <= 510 * c + a && q >= 0) by (nonlinear_arith)
        requires
            q == (2 * (255 * c) + a) / (2 * a as int),
            0 < a <= 255,
            0 <= c,
    ;
    assert(2 * (a * q) == q * (2 * a)) by (nonlinear_arith);
    if q > 255 {
        assert(256 * (2 * a) <= q * (2 * a)) by (nonlinear_arith)
            requires
                256 <= q,
                0 < a,
        ;
    } else {
        assert(a * d == a * q);
        if q == 255 {
            assert(a * q == 255 * a) by (nonlinear_arith)
                requires
                    q == 255,
            ;
        }
    }
}

/// A demultiplied channel is the nearest integer to 255 times the channel over the alpha,
/// a half rounded up, and is cut off at 255. The alpha itself stays. Of a transparent color
/// a channel is zero, or cut off where there was anything.
pub proof fn law_demultiplied_is_nearest(c: PremultipliedColorU8)
    ensures
        c.demultiplied().a == c.a,
        c.a > 0 && c.r <= c.a ==> -c.a < 2 * (c.a * c.demultiplied().r - 255 * c.r) <= c.a,
        c.a > 0 && c.g <= c.a ==> -c.a < 2 * (c.a * c.demultiplied().g - 255 * c.g) <= c.a,
        c.a > 0 && c.b <= c.a ==> -c.a < 2 * (c.a * c.demultiplied().b - 255 * c.b) <= c.a,
        c.a > 0 && c.r > c.a ==> c.demultiplied().r == 255,
        c.a > 0 && c.g > c.a ==> c.demultiplied().g == 255,
        c.a > 0 && c.b > c.a ==> c.demultiplied().b == 255,
        c.a == 0 ==> (c.demultiplied().r == 0 <==> c.r == 0) && (c.demultiplied().g == 0 <==> c.g
            == 0) && (c.demultiplied().b == 0 <==> c.b == 0),
        c.a == 0 ==> (c.demultiplied().r == 255 <==> c.r != 0) && (c.demultiplied().g == 255
            <==> c.g != 0) && (c.demultiplied().b == 255 <==> c.b != 0),
{
    if c.a > 0 {
        lemma_demultiplied_within(c.r, c.a);
        lemma_demultiplied_within(c.g, c.a);
        lemma_demultiplied_within(c.b, c.a);
    }
}

proof fn lemma_demultiplied_within(c: u8, a: u8)
    requires
        0 < a,
    ensures
        c <= a ==> -a < 2 * (a * demultiplied_channel(c, a) - 255 * c) <= a,
        c > a ==> demultiplied_channel(c, a) == 255,
{
    let d = demultiplied_channel(c, a);
    lemma_demultiplied_is_nearest(c, a);
    if d == 255 {
        assert(a * d == 255 * a) by (nonlinear_arith)
            requires
                d == 255,
        ;
    } else if c > a {
        assert(a * d <= 254 * a) by (nonlinear_arith)
            requires
                d <= 254,
                0 < a,
        ;
    }
}

/// The channels of a color lie in memory as red, green, blue and alpha, and are read from
/// there in the same order. A color has its alpha applied to it where no channel is over it.
pub proof fn law_order_of_channels(c: PremultipliedColorU8, m: ColorU8, b: Seq<u8>, at: int)
    ensures
        c.bytes().len() == 4 && m.bytes().len() == 4,
        c.bytes()[0] == c.r && c.bytes()[1] == c.g && c.bytes()[2] == c.b && c.bytes()[3] == c.a,
        m.bytes()[0] == m.r && m.bytes()[1] == m.g && m.bytes()[2] == m.b && m.bytes()[3] == m.a,
        PremultipliedColorU8::read(b, at).r == b[at],
        PremultipliedColorU8::read(b, at).g == b[at + 1],
        PremultipliedColorU8::read(b, at).b == b[at + 2],
        PremultipliedColorU8::read(b, at).a == b[at + 3],
        c.valid() <==> c.r <= c.a && c.g <= c.a && c.b <= c.a,
{
}

} // verus!
