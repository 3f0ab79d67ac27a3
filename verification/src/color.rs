//! RGBA colours, named colours, and colour statistics of packed pixel buffers.
use vstd::prelude::*;
use vstd::string::StringSliceAdditionalSpecFns;
use vstd::string::StringExecFns;
use crate::ident::{hex_char, hex_digit_str};
use crate::histogram::{bin_total, lemma_prefix_sum_update, lemma_prefix_sum_zero, is_kth_value,
    lemma_first_above_is_kth, Histogram};

verus! {

/// A colour with red, green, blue and alpha channels.
#[derive(Clone, Copy, Debug)]
pub struct Color {
    /// The red channel.
    pub r: u8,
    /// The green channel.
    pub g: u8,
    /// The blue channel.
    pub b: u8,
    /// The alpha channel.
    pub a: u8,
}

/// The opaque colour `(r, g, b)`.
pub open spec fn opaque(r: int, g: int, b: int) -> Color {
    Color { r: r as u8, g: g as u8, b: b as u8, a: 255 }
}

/// The opaque colour whose red, green and blue are bytes 2, 1 and 0 of `v`.
pub open spec fn color_of_hex(v: int) -> Color {
    opaque((v / 0x1_0000) % 256, (v / 0x100) % 256, v % 256)
}

/// The colour whose red, green, blue and alpha are bytes 3, 2, 1 and 0 of `v`.
pub open spec fn color_of_hex_rgba(v: int) -> Color {
    Color {
        r: ((v / 0x100_0000) % 256) as u8,
        g: ((v / 0x1_0000) % 256) as u8,
        b: ((v / 0x100) % 256) as u8,
        a: (v % 256) as u8,
    }
}

/// The value of an ASCII hexadecimal digit (either case), or -1.
pub open spec fn hex_digit_value(c: u8) -> int {
    if 48 <= c <= 57 {
        c - 48
    } else if 97 <= c <= 102 {
        c - 87
    } else if 65 <= c <= 70 {
        c - 55
    } else {
        -1
    }
}

/// Every byte of `d` is a hexadecimal digit.
pub open spec fn all_hex(d: Seq<u8>) -> bool {
    forall|i: int| 0 <= i < d.len() ==> hex_digit_value(#[trigger] d[i]) >= 0
}

/// The number written by the hexadecimal digits `d`.
pub open spec fn digits_value(d: Seq<u8>) -> int
    decreases d.len(),
{
    if d.len() == 0 {
        0
    } else {
        16 * digits_value(d.drop_last()) + hex_digit_value(d.last())
    }
}

/// Position of the first byte at or after `i` that is not `#`.
pub open spec fn skip_hashes(b: Seq<u8>, i: int) -> int
    decreases b.len() - i,
{
    if 0 <= i < b.len() && b[i] == 35 {
        skip_hashes(b, i + 1)
    } else {
        i
    }
}

/// `b` without its leading `#` bytes.
pub open spec fn without_hashes(b: Seq<u8>) -> Seq<u8> {
    b.subrange(skip_hashes(b, 0), b.len() as int)
}

/// The value of `t` read as an unsigned 32-bit hexadecimal number (an optional `+`,
/// then one or more digits), or 0 where `t` is not one.
pub open spec fn hex_u32_or_zero(t: Seq<u8>) -> int {
    let d = if t.len() > 1 && t[0] == 43 {
        t.drop_first()
    } else {
        t
    };
    if d.len() > 0 && all_hex(d) && digits_value(d) <= u32::MAX {
        digits_value(d)
    } else {
        0
    }
}

/// The colour that a hexadecimal colour string with UTF-8 bytes `b` denotes: after the
/// leading `#`s, six characters are `RRGGBB`, eight are `RRGGBBAA`; any other length
/// gives opaque black, and an unreadable number reads as 0.
pub open spec fn color_of_hex_text(b: Seq<u8>) -> Color {
    let t = without_hashes(b);
    let v = hex_u32_or_zero(t);
    if t.len() == 6 {
        color_of_hex(v)
    } else if t.len() == 8 {
        color_of_hex_rgba(v)
    } else {
        opaque(0, 0, 0)
    }
}

/// Bytes per pixel of a packed buffer of `len` bytes: 4 when `len` is a multiple of 4, else 3.
pub open spec fn pixel_stride(len: int) -> int {
    if len % 4 == 0 {
        4
    } else {
        3
    }
}

/// Number of pixels of a packed buffer of `len` bytes.
pub open spec fn pixel_count(len: int) -> int {
    len / pixel_stride(len)
}

/// A packed buffer of `len` bytes holds whole pixels, at least one.
pub open spec fn packed_ok(len: int) -> bool {
    &&& len <= u32::MAX
    &&& if len % 4 == 0 {
        len >= 4
    } else {
        len % 3 == 0 && len >= 3
    }
}

/// Sum of channel `c` over the first `n` pixels of stride `st`.
pub open spec fn channel_sum(s: Seq<u8>, st: int, n: int, c: int) -> int
    decreases n,
{
    if n <= 0 {
        0
    } else {
        channel_sum(s, st, n - 1, c) + s[(n - 1) * st + c]
    }
}

/// Number of the first `n` pixels of stride `st` whose channel `c` equals `v`.
pub open spec fn value_count(s: Seq<u8>, st: int, n: int, c: int, v: int) -> nat
    decreases n,
{
    if n <= 0 {
        0
    } else {
        value_count(s, st, n - 1, c, v) + (if s[(n - 1) * st + c] == v {
            1nat
        } else {
            0nat
        })
    }
}

/// The 256-bin histogram of channel `c` over the first `n` pixels of stride `st`.
pub open spec fn value_hist(s: Seq<u8>, st: int, n: int, c: int) -> Seq<u64> {
    Seq::new(256, |v: int| value_count(s, st, n, c, v) as u64)
}

/// The colour packed in `s` at pixel positions: the mean of each channel over `n` pixels,
/// truncated.
pub open spec fn mean_color(s: Seq<u8>, st: int, n: int) -> Color {
    opaque(channel_sum(s, st, n, 0) / n, channel_sum(s, st, n, 1) / n, channel_sum(s, st, n, 2) / n)
}

/// One step of the linear congruential generator used for random colours.
pub open spec fn lcg_step(x: u64) -> u64 {
    x.wrapping_mul(6364136223846793005).wrapping_add(1)
}

/// The decimal digits of `v` (`0 <= v < 1000`), without leading zeros.
pub open spec fn decimal_text(v: int) -> Seq<char> {
    if v < 10 {
        seq![hex_char(v)]
    } else if v < 100 {
        seq![hex_char(v / 10), hex_char(v % 10)]
    } else {
        seq![hex_char(v / 100), hex_char((v / 10) % 10), hex_char(v % 10)]
    }
}

/// The text of a colour: `Color { r: R, g: G, b: B, a: A }` and a line break.
pub open spec fn color_text(c: Color) -> Seq<char> {
    "Color { r: "@ + decimal_text(c.r as int) + ", g: "@ + decimal_text(c.g as int) + ", b: "@ + decimal_text(
        c.b as int,
    ) + ", a: "@ + decimal_text(c.a as int) + " }\n"@
}

/// Appends the decimal digits of `v` to `s`.
fn append_decimal(s: &mut String, v: u8)
    ensures
        final(s)@ == old(s)@ + decimal_text(v as int),
{
    let ghost start: Seq<char> = s@;
    if v >= 100 {
        s.append(hex_digit_str((v / 100) as u64));
    }
    if v >= 10 {
        s.append(hex_digit_str(((v / 10) % 10) as u64));
    }
    s.append(hex_digit_str((v % 10) as u64));
    proof {
        if v >= 100 {
            assert(s@ =~= start + decimal_text(v as int));
        } else if v >= 10 {
            assert(s@ =~= start + decimal_text(v as int));
        } else {
            assert(s@ =~= start + decimal_text(v as int));
        }
    }
}

/// A count over `n` pixels is at most `n`, and a channel sum is at most `255 n`.
proof fn lemma_counts_bounded(s: Seq<u8>, st: int, n: int, c: int, v: int)
    requires
        n >= 0,
    ensures
        value_count(s, st, n, c, v) <= n,
        0 <= channel_sum(s, st, n, c) <= 255 * n,
    decreases n,
{
    if n > 0 {
        lemma_counts_bounded(s, st, n - 1, c, v);
    }
}

/// With all digits hexadecimal, a longer prefix never reads as less.
proof fn lemma_digits_monotone(d: Seq<u8>, k: int)
    requires
        all_hex(d),
        0 <= k <= d.len(),
    ensures
        digits_value(d.take(k)) <= digits_value(d),
        0 <= digits_value(d),
    decreases d.len(),
{
    if d.len() > 0 {
        let p = d.drop_last();
        assert(all_hex(p)) by {
            assert forall|i: int| 0 <= i < p.len() implies hex_digit_value(#[trigger] p[i]) >= 0 by {
                assert(p[i] == d[i]);
            }
        }
        assert(hex_digit_value(d[d.len() - 1]) >= 0);
        if k < d.len() {
            lemma_digits_monotone(p, k);
            assert(p.take(k) =~= d.take(k));
        } else {
            lemma_digits_monotone(p, 0);
            assert(d.take(k) =~= d);
        }
    } else {
        assert(d.take(k) =~= d);
    }
}

/// The histogram of channel `c` over the first `n` pixels of stride `st` of `s`.
fn channel_values_hist(s: &[u8], st: usize, n: usize, c: usize) -> (h: [u64; 256])
    requires
        st == 3 || st == 4,
        c < 3,
        n * st <= s@.len(),
    ensures
        h@ == value_hist(s@, st as int, n as int, c as int),
        bin_total(h@) == n,
{
    let mut h: [u64; 256] = [0u64; 256];
    proof {
        lemma_prefix_sum_zero(h@, 256);
    }
    let mut p: usize = 0;
    while p < n
        invariant
            st == 3 || st == 4,
            c < 3,
            n * st <= s@.len(),
            p <= n,
            h@.len() == 256,
            forall|v: int| 0 <= v < 256 ==> #[trigger] h@[v] == value_count(s@, st as int, p as int, c as int, v),
            bin_total(h@) == p,
        decreases n - p,
    {
        assert(p * st + st <= n * st) by (nonlinear_arith)
            requires
                p < n,
        ;
        let slen: usize = s.len();
        assert(p * st + c < slen);
        let v: usize = s[p * st + c] as usize;
        proof {
            lemma_counts_bounded(s@, st as int, p as int, c as int, v as int);
            lemma_prefix_sum_update(h@, v as int, (h@[v as int] + 1) as u64, 256);
        }
        h[v] = h[v] + 1;
        p = p + 1;
    }
    proof {
        assert(h@ =~= value_hist(s@, st as int, n as int, c as int));
    }
    h
}

/// Sum of channel `c` over the first `n` pixels of stride `st` of `s`.
fn channel_total(s: &[u8], st: usize, n: usize, c: usize) -> (t: u64)
    requires
        st == 3 || st == 4,
        c < 3,
        n * st <= s@.len(),
        n <= u32::MAX,
    ensures
        t == channel_sum(s@, st as int, n as int, c as int),
{
    let mut t: u64 = 0;
    let mut p: usize = 0;
    while p < n
        invariant
            st == 3 || st == 4,
            c < 3,
            n * st <= s@.len(),
            n <= u32::MAX,
            p <= n,
            t == channel_sum(s@, st as int, p as int, c as int),
        decreases n - p,
    {
        assert(p * st + st <= n * st) by (nonlinear_arith)
            requires
                p < n,
        ;
        proof {
            lemma_counts_bounded(s@, st as int, p as int, c as int, 0);
        }
        let slen: usize = s.len();
        assert(p * st + c < slen);
        t = t + s[p * st + c] as u64;
        p = p + 1;
    }
    t
}

/// The first value with the largest count in `h`.
fn most_frequent(h: &[u64; 256]) -> (m: u8)
    ensures
        forall|v: int| 0 <= v < 256 ==> h@[m as int] >= #[trigger] h@[v],
{
    let mut best: usize = 0;
    let mut v: usize = 1;
    while v < 256
        invariant
            1 <= v <= 256,
            best < v,
            h@.len() == 256,
            forall|u: int| 0 <= u < v ==> h@[best as int] >= #[trigger] h@[u],
        decreases 256 - v,
    {
        if h[v] > h[best] {
            best = v;
        }
        v = v + 1;
    }
    best as u8
}

impl From<(u8, u8, u8)> for Color {
    /// The opaque colour `(r, g, b)`.
    fn from(rgb: (u8, u8, u8)) -> (c: Color) {
        Color { r: rgb.0, g: rgb.1, b: rgb.2, a: 255 }
    }
}

impl vstd::std_specs::convert::FromSpecImpl<(u8, u8, u8)> for Color {
    open spec fn obeys_from_spec() -> bool {
        true
    }

    open spec fn from_spec(rgb: (u8, u8, u8)) -> Color {
        Color { r: rgb.0, g: rgb.1, b: rgb.2, a: 255 }
    }
}

impl From<(u8, u8, u8, u8)> for Color {
    /// The colour `(r, g, b, a)`.
    fn from(rgba: (u8, u8, u8, u8)) -> (c: Color) {
        Color { r: rgba.0, g: rgba.1, b: rgba.2, a: rgba.3 }
    }
}

impl vstd::std_specs::convert::FromSpecImpl<(u8, u8, u8, u8)> for Color {
    open spec fn obeys_from_spec() -> bool {
        true
    }

    open spec fn from_spec(rgba: (u8, u8, u8, u8)) -> Color {
        Color { r: rgba.0, g: rgba.1, b: rgba.2, a: rgba.3 }
    }
}

impl Color {
    /// Opaque black.
    pub fn default() -> (c: Color)
        ensures
            c == opaque(0, 0, 0),
    {
        Color { r: 0, g: 0, b: 0, a: 255 }
    }

    /// Opaque black.
    pub fn black() -> (c: Color)
        ensures
            c == opaque(0, 0, 0),
    {
        Color::from_rgba(0, 0, 0, 255)
    }

    /// The opaque colour `(r, g, b)`.
    pub fn from_rgb(r: u8, g: u8, b: u8) -> (c: Color)
        ensures
            c == opaque(r as int, g as int, b as int),
    {
        Color { r, g, b, a: 255 }
    }

    /// The colour `(r, g, b, a)`.
    pub fn from_rgba(r: u8, g: u8, b: u8, a: u8) -> (c: Color)
        ensures
            c == (Color { r, g, b, a }),
    {
        Color { r, g, b, a }
    }

    /// The opaque colour written as `0xRRGGBB` (higher bits are ignored).
    pub fn from_hex(hex: u32) -> (c: Color)
        ensures
            c == color_of_hex(hex as int),
    {
        proof {
            assert((hex >> 16u32) & 0xffu32 == (hex / 0x1_0000u32) % 256u32) by (bit_vector);
            assert((hex >> 8u32) & 0xffu32 == (hex / 0x100u32) % 256u32) by (bit_vector);
            assert(hex & 0xffu32 == hex % 256u32) by (bit_vector);
        }
        Color {
            r: ((hex >> 16) & 0xFF) as u8,
            g: ((hex >> 8) & 0xFF) as u8,
            b: (hex & 0xFF) as u8,
            a: 255,
        }
    }

    /// The colour written as `0xRRGGBBAA`.
    fn from_hex_rgba(v: u32) -> (c: Color)
        ensures
            c == color_of_hex_rgba(v as int),
    {
        proof {
            assert((v >> 24u32) & 0xffu32 == (v / 0x100_0000u32) % 256u32) by (bit_vector);
            assert((v >> 16u32) & 0xffu32 == (v / 0x1_0000u32) % 256u32) by (bit_vector);
            assert((v >> 8u32) & 0xffu32 == (v / 0x100u32) % 256u32) by (bit_vector);
            assert(v & 0xffu32 == v % 256u32) by (bit_vector);
        }
        Color {
            r: ((v >> 24) & 0xFF) as u8,
            g: ((v >> 16) & 0xFF) as u8,
            b: ((v >> 8) & 0xFF) as u8,
            a: (v & 0xFF) as u8,
        }
    }

    /// Reads a colour string such as `#RRGGBB` or `#RRGGBBAA` (see `color_of_hex_text`).
    pub fn from_hex_string(hex: &str) -> (c: Color)
        ensures
            c == color_of_hex_text(hex.spec_bytes()),
    {
        let b: &[u8] = hex.as_bytes();
        let len: usize = b.len();
        let mut i: usize = 0;
        while i < len && b[i] == 35u8
            invariant
                len == b@.len(),
                i <= len,
                skip_hashes(b@, 0) == skip_hashes(b@, i as int),
            decreases len - i,
        {
            i = i + 1;
        }
        let ghost t: Seq<u8> = b@.subrange(i as int, len as int);
        proof {
            assert(skip_hashes(b@, i as int) == i);
            assert(t == without_hashes(b@));
        }
        let tlen: usize = len - i;
        let start: usize = if tlen > 1 && b[i] == 43u8 {
            i + 1
        } else {
            i
        };
        let ghost d: Seq<u8> = b@.subrange(start as int, len as int);
        proof {
            if tlen > 1 && b@[i as int] == 43 {
                assert(d =~= t.drop_first());
            } else {
                assert(d =~= t);
            }
        }
        let mut value: u64 = 0;
        let mut ok: bool = start < len;
        let mut j: usize = start;
        while ok && j < len
            invariant
                start <= j <= len,
                len == b@.len(),
                d == b@.subrange(start as int, len as int),
                ok ==> value == digits_value(d.take(j - start)),
                ok ==> all_hex(d.take(j - start)),
                ok ==> value <= u32::MAX,
                !ok ==> !(d.len() > 0 && all_hex(d) && digits_value(d) <= u32::MAX),
            decreases len - j,
        {
            let c: u8 = b[j];
            let dv: u64 = if 48u8 <= c && c <= 57u8 {
                (c - 48u8) as u64
            } else if 97u8 <= c && c <= 102u8 {
                (c - 87u8) as u64
            } else if 65u8 <= c && c <= 70u8 {
                (c - 55u8) as u64
            } else {
                16
            };
            let ghost k: int = j - start;
            proof {
                assert(d[k] == c);
                assert(d.take(k + 1).drop_last() =~= d.take(k));
                assert(d.take(k + 1).last() == c);
            }
            if dv == 16 {
                ok = false;
                proof {
                    assert(hex_digit_value(d[k]) < 0);
                }
            } else {
                value = value * 16 + dv;
                proof {
                    assert(all_hex(d.take(k + 1))) by {
                        assert forall|q: int| 0 <= q < k + 1 implies hex_digit_value(#[trigger] d.take(k + 1)[q])
                            >= 0 by {
                            if q < k {
                                assert(d.take(k + 1)[q] == d.take(k)[q]);
                            }
                        }
                    }
                }
                if value > 0xFFFF_FFFFu64 {
                    ok = false;
                    proof {
                        if all_hex(d) {
                            lemma_digits_monotone(d, k + 1);
                        }
                    }
                }
            }
            j = j + 1;
        }
        proof {
            if ok {
                assert(d.take(j - start) =~= d);
            }
        }
        let v: u32 = if ok {
            value as u32
        } else {
            0
        };
        if tlen == 6 {
            Color::from_hex(v)
        } else if tlen == 8 {
            Color::from_hex_rgba(v)
        } else {
            Color::default()
        }
    }

    /// The text of the colour: `Color { r: R, g: G, b: B, a: A }` and a line break.
    pub fn to_string(&self) -> (s: String)
        ensures
            s@ == color_text(*self),
    {
        let mut s: String = String::from_str("Color { r: ");
        append_decimal(&mut s, self.r);
        s.append(", g: ");
        append_decimal(&mut s, self.g);
        s.append(", b: ");
        append_decimal(&mut s, self.b);
        s.append(", a: ");
        append_decimal(&mut s, self.a);
        s.append(" }\n");
        proof {
            assert(s@ =~= color_text(*self));
        }
        s
    }

    /// The `(r, g, b)` channels.
    pub fn rgb(&self) -> (t: (u8, u8, u8))
        ensures
            t == (self.r, self.g, self.b),
    {
        (self.r, self.g, self.b)
    }

    /// The `(r, g, b, a)` channels.
    pub fn rgba(&self) -> (t: (u8, u8, u8, u8))
        ensures
            t == (self.r, self.g, self.b, self.a),
    {
        (self.r, self.g, self.b, self.a)
    }

    /// The mean colour of a packed buffer (RGBA when its length is a multiple of 4, RGB
    /// otherwise): each channel's sum over the pixels divided by the pixel count, opaque.
    pub fn average(p_colors: &[u8]) -> (c: Color)
        requires
            packed_ok(p_colors@.len() as int),
        ensures
            c == mean_color(
                p_colors@,
                pixel_stride(p_colors@.len() as int),
                pixel_count(p_colors@.len() as int),
            ),
    {
        let len: usize = p_colors.len();
        let st: usize = if len % 4 == 0 {
            4
        } else {
            3
        };
        let n: usize = len / st;
        proof {
            assert(n * st <= len) by (nonlinear_arith)
                requires
                    n == len / st,
                    st > 0,
            ;
            assert(n >= 1);
            lemma_counts_bounded(p_colors@, st as int, n as int, 0, 0);
            lemma_counts_bounded(p_colors@, st as int, n as int, 1, 0);
            lemma_counts_bounded(p_colors@, st as int, n as int, 2, 0);
        }
        let r: u64 = channel_total(p_colors, st, n, 0);
        let g: u64 = channel_total(p_colors, st, n, 1);
        let b: u64 = channel_total(p_colors, st, n, 2);
        let nn: u64 = n as u64;
        proof {
            assert(r / nn <= 255) by (nonlinear_arith)
                requires
                    r <= 255 * nn,
                    nn >= 1,
            ;
            assert(g / nn <= 255) by (nonlinear_arith)
                requires
                    g <= 255 * nn,
                    nn >= 1,
            ;
            assert(b / nn <= 255) by (nonlinear_arith)
                requires
                    b <= 255 * nn,
                    nn >= 1,
            ;
        }
        Color { r: (r / nn) as u8, g: (g / nn) as u8, b: (b / nn) as u8, a: 255 }
    }

    /// The mean colour of a packed buffer; the same as `average`.
    pub fn mean(p_colors: &[u8]) -> (c: Color)
        requires
            packed_ok(p_colors@.len() as int),
        ensures
            c == mean_color(
                p_colors@,
                pixel_stride(p_colors@.len() as int),
                pixel_count(p_colors@.len() as int),
            ),
    {
        Color::average(p_colors)
    }

    /// The median colour of a packed buffer: for each channel, the value at the middle
    /// position `n / 2` of the `n` sorted channel values, opaque.
    pub fn median(p_colors: &[u8]) -> (c: Color)
        requires
            packed_ok(p_colors@.len() as int),
        ensures
            ({
                let len = p_colors@.len() as int;
                let st = pixel_stride(len);
                let n = pixel_count(len);
                let mid = n / 2;
                &&& is_kth_value(value_hist(p_colors@, st, n, 0), mid, c.r as int)
                &&& is_kth_value(value_hist(p_colors@, st, n, 1), mid, c.g as int)
                &&& is_kth_value(value_hist(p_colors@, st, n, 2), mid, c.b as int)
                &&& c.a == 255
            }),
    {
        let len: usize = p_colors.len();
        let st: usize = if len % 4 == 0 {
            4
        } else {
            3
        };
        let n: usize = len / st;
        proof {
            assert(n * st <= len) by (nonlinear_arith)
                requires
                    n == len / st,
                    st > 0,
            ;
        }
        proof {
            assert(n >= 1) by (nonlinear_arith)
                requires
                    n == len / st,
                    st == 3 || st == 4,
                    st == 4 ==> len % 4 == 0 && len >= 4,
                    st == 3 ==> len % 3 == 0 && len >= 3,
            ;
        }
        let mid: usize = n / 2;
        let hr: [u64; 256] = channel_values_hist(p_colors, st, n, 0);
        let hg: [u64; 256] = channel_values_hist(p_colors, st, n, 1);
        let hb: [u64; 256] = channel_values_hist(p_colors, st, n, 2);
        let r: u8 = Histogram::median_from_hist(&hr, (2 * mid) as u64);
        let g: u8 = Histogram::median_from_hist(&hg, (2 * mid) as u64);
        let b: u8 = Histogram::median_from_hist(&hb, (2 * mid) as u64);
        proof {
            assert((2 * mid) / 2 == mid);
            lemma_first_above_is_kth(hr@, mid as int, 0);
            lemma_first_above_is_kth(hg@, mid as int, 0);
            lemma_first_above_is_kth(hb@, mid as int, 0);
        }
        Color { r, g, b, a: 255 }
    }

    /// A most frequent colour of a packed buffer: for each channel, a value that occurs
    /// at least as often as any other (which of several equally frequent values is not
    /// fixed), opaque.
    pub fn mode(p_colors: &[u8]) -> (c: Color)
        requires
            packed_ok(p_colors@.len() as int),
        ensures
            ({
                let len = p_colors@.len() as int;
                let st = pixel_stride(len);
                let n = pixel_count(len);
                &&& forall|v: int|
                    0 <= v < 256 ==> value_count(p_colors@, st, n, 0, c.r as int) >= #[trigger] value_count(
                        p_colors@,
                        st,
                        n,
                        0,
                        v,
                    )
                &&& forall|v: int|
                    0 <= v < 256 ==> value_count(p_colors@, st, n, 1, c.g as int) >= #[trigger] value_count(
                        p_colors@,
                        st,
                        n,
                        1,
                        v,
                    )
                &&& forall|v: int|
                    0 <= v < 256 ==> value_count(p_colors@, st, n, 2, c.b as int) >= #[trigger] value_count(
                        p_colors@,
                        st,
                        n,
                        2,
                        v,
                    )
                &&& c.a == 255
            }),
    {
        let len: usize = p_colors.len();
        let st: usize = if len % 4 == 0 {
            4
        } else {
            3
        };
        let n: usize = len / st;
        proof {
            assert(n * st <= len) by (nonlinear_arith)
                requires
                    n == len / st,
                    st > 0,
            ;
        }
        let hr: [u64; 256] = channel_values_hist(p_colors, st, n, 0);
        let hg: [u64; 256] = channel_values_hist(p_colors, st, n, 1);
        let hb: [u64; 256] = channel_values_hist(p_colors, st, n, 2);
        let r: u8 = most_frequent(&hr);
        let g: u8 = most_frequent(&hg);
        let b: u8 = most_frequent(&hb);
        proof {
            assert forall|v: int| 0 <= v < 256 implies value_count(p_colors@, st as int, n as int, 0, r as int)
                >= #[trigger] value_count(p_colors@, st as int, n as int, 0, v) by {
                assert(hr@[v] == value_count(p_colors@, st as int, n as int, 0, v) as u64);
                assert(hr@[r as int] == value_count(p_colors@, st as int, n as int, 0, r as int) as u64);
                lemma_counts_bounded(p_colors@, st as int, n as int, 0, v);
                lemma_counts_bounded(p_colors@, st as int, n as int, 0, r as int);
            }
            assert forall|v: int| 0 <= v < 256 implies value_count(p_colors@, st as int, n as int, 1, g as int)
                >= #[trigger] value_count(p_colors@, st as int, n as int, 1, v) by {
                assert(hg@[v] == value_count(p_colors@, st as int, n as int, 1, v) as u64);
                assert(hg@[g as int] == value_count(p_colors@, st as int, n as int, 1, g as int) as u64);
                lemma_counts_bounded(p_colors@, st as int, n as int, 1, v);
                lemma_counts_bounded(p_colors@, st as int, n as int, 1, g as int);
            }
            assert forall|v: int| 0 <= v < 256 implies value_count(p_colors@, st as int, n as int, 2, b as int)
                >= #[trigger] value_count(p_colors@, st as int, n as int, 2, v) by {
                assert(hb@[v] == value_count(p_colors@, st as int, n as int, 2, v) as u64);
                assert(hb@[b as int] == value_count(p_colors@, st as int, n as int, 2, b as int) as u64);
                lemma_counts_bounded(p_colors@, st as int, n as int, 2, v);
                lemma_counts_bounded(p_colors@, st as int, n as int, 2, b as int);
            }
        }
        Color { r, g, b, a: 255 }
    }

    /// An opaque colour drawn from `seed` by a linear congruential generator: the
    /// generator is stepped twice and red is bits 24..32 of the state, then stepped once
    /// for green (bits 32..40) and once for blue (bits 16..24).
    pub fn random_from_seed(seed: u64) -> (c: Color)
        ensures
            c == opaque(
                lcg_step(lcg_step(seed)) as int / 0x100_0000 % 256,
                lcg_step(lcg_step(lcg_step(seed))) as int / 0x1_0000_0000 % 256,
                lcg_step(lcg_step(lcg_step(lcg_step(seed)))) as int / 0x1_0000 % 256,
            ),
    {
        let mut x: u64 = seed.wrapping_mul(6364136223846793005).wrapping_add(1);
        x = x.wrapping_mul(6364136223846793005).wrapping_add(1);
        let r: u8 = ((x >> 24) & 0xFF) as u8;
        proof {
            assert((x >> 24u64) & 0xffu64 == (x / 0x100_0000u64) % 256u64) by (bit_vector);
        }
        x = x.wrapping_mul(6364136223846793005).wrapping_add(1);
        let g: u8 = ((x >> 32) & 0xFF) as u8;
        proof {
            assert((x >> 32u64) & 0xffu64 == (x / 0x1_0000_0000u64) % 256u64) by (bit_vector);
        }
        x = x.wrapping_mul(6364136223846793005).wrapping_add(1);
        let b: u8 = ((x >> 16) & 0xFF) as u8;
        proof {
            assert((x >> 16u64) & 0xffu64 == (x / 0x1_0000u64) % 256u64) by (bit_vector);
        }
        Color { r, g, b, a: 255 }
    }

    /// Fully transparent black `(0, 0, 0, 0)`.
    pub fn transparent() -> (c: Color)
        ensures
            c == (Color { r: 0, g: 0, b: 0, a: 0 }),
    {
        Color::from_rgba(0, 0, 0, 0)
    }

    /// Red `(255, 0, 0)`.
    pub fn red() -> (c: Color)
        ensures
            c == opaque(255, 0, 0),
    {
        Color::from_rgb(255, 0, 0)
    }

    /// Crimson `(220, 20, 60)`.
    pub fn crimson() -> (c: Color)
        ensures
            c == opaque(220, 20, 60),
    {
        Color::from_rgb(220, 20, 60)
    }

    /// Ruby `(224, 17, 95)`.
    pub fn ruby() -> (c: Color)
        ensures
            c == opaque(224, 17, 95),
    {
        Color::from_rgb(224, 17, 95)
    }

    /// Pink `(255, 192, 203)`.
    pub fn pink() -> (c: Color)
        ensures
            c == opaque(255, 192, 203),
    {
        Color::from_rgb(255, 192, 203)
    }

    /// Magenta `(255, 0, 255)`.
    pub fn magenta() -> (c: Color)
        ensures
            c == opaque(255, 0, 255),
    {
        Color::from_rgb(255, 0, 255)
    }

    /// Hot pink `(255, 105, 180)`.
    pub fn hot_pink() -> (c: Color)
        ensures
            c == opaque(255, 105, 180),
    {
        Color::from_rgb(255, 105, 180)
    }

    /// Green `(0, 255, 0)`.
    pub fn green() -> (c: Color)
        ensures
            c == opaque(0, 255, 0),
    {
        Color::from_rgb(0, 255, 0)
    }

    /// Lime green `(50, 205, 50)`.
    pub fn lime_green() -> (c: Color)
        ensures
            c == opaque(50, 205, 50),
    {
        Color::from_rgb(50, 205, 50)
    }

    /// Sea green `(46, 139, 87)`.
    pub fn sea_green() -> (c: Color)
        ensures
            c == opaque(46, 139, 87),
    {
        Color::from_rgb(46, 139, 87)
    }

    /// Forest green `(34, 139, 34)`.
    pub fn forest_green() -> (c: Color)
        ensures
            c == opaque(34, 139, 34),
    {
        Color::from_rgb(34, 139, 34)
    }

    /// Blue `(0, 0, 255)`.
    pub fn blue() -> (c: Color)
        ensures
            c == opaque(0, 0, 255),
    {
        Color::from_rgb(0, 0, 255)
    }

    /// Royal blue `(65, 105, 225)`.
    pub fn royal_blue() -> (c: Color)
        ensures
            c == opaque(65, 105, 225),
    {
        Color::from_rgb(65, 105, 225)
    }

    /// Sky blue `(135, 206, 235)`.
    pub fn sky_blue() -> (c: Color)
        ensures
            c == opaque(135, 206, 235),
    {
        Color::from_rgb(135, 206, 235)
    }

    /// Navy blue `(0, 0, 128)`.
    pub fn navy_blue() -> (c: Color)
        ensures
            c == opaque(0, 0, 128),
    {
        Color::from_rgb(0, 0, 128)
    }

    /// Yellow `(255, 255, 0)`.
    pub fn yellow() -> (c: Color)
        ensures
            c == opaque(255, 255, 0),
    {
        Color::from_rgb(255, 255, 0)
    }

    /// Orange `(255, 165, 0)`.
    pub fn orange() -> (c: Color)
        ensures
            c == opaque(255, 165, 0),
    {
        Color::from_rgb(255, 165, 0)
    }

    /// Indigo `(75, 0, 130)`.
    pub fn indigo() -> (c: Color)
        ensures
            c == opaque(75, 0, 130),
    {
        Color::from_rgb(75, 0, 130)
    }

    /// Violet `(238, 130, 238)`.
    pub fn violet() -> (c: Color)
        ensures
            c == opaque(238, 130, 238),
    {
        Color::from_rgb(238, 130, 238)
    }

    /// White `(255, 255, 255)`.
    pub fn white() -> (c: Color)
        ensures
            c == opaque(255, 255, 255),
    {
        Color::from_rgb(255, 255, 255)
    }

    /// Gray `(128, 128, 128)`.
    pub fn gray() -> (c: Color)
        ensures
            c == opaque(128, 128, 128),
    {
        Color::from_rgb(128, 128, 128)
    }
}

} // verus!
