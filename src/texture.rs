//! Decoding the texture text into pixels and summarising them.
use crate::fields::{field_at, fields_of, parse_field, ranges_match, split_fields, unsigned_of};
use crate::tally::{color_summary, is_dominant, Rgb};
use vstd::prelude::*;
use vstd::utf8::encode_utf8;

verus! {

/// One of a pixel's three channels.
#[derive(Clone, Copy, Debug, PartialEq, Eq)]
pub enum Channel {
    Red,
    Green,
    Blue,
}

/// Why a texture text could not be analysed.
#[derive(Clone, Copy, Debug, PartialEq, Eq)]
pub enum TextureError {
    /// Fewer than two fields: no width and height.
    MissingDimensions,
    /// The width is not an unsigned decimal number that fits a `usize`.
    InvalidWidth,
    /// The height is not an unsigned decimal number that fits a `usize`.
    InvalidHeight,
    /// `2 + 3 * width * height` does not fit a `usize`.
    DimensionsTooLarge,
    /// The number of fields is not `2 + 3 * width * height`.
    TokenCount { expected: usize, actual: usize },
    /// A channel of a pixel is not a decimal number from 0 to 255.
    InvalidChannel { pixel: usize, channel: Channel },
}

/// What an analysis reports.
#[derive(Clone, Copy, Debug, PartialEq, Eq)]
pub struct TextureStats {
    pub total_pixels: usize,
    pub unique_colors: usize,
    pub dominant_color: Rgb,
}

pub open spec fn channel_at(k: int) -> Channel {
    if k == 0 {
        Channel::Red
    } else if k == 1 {
        Channel::Green
    } else {
        Channel::Blue
    }
}

/// A channel field's value; it is only read where it is valid.
pub open spec fn channel_value(f: Seq<u8>) -> u8 {
    match unsigned_of(f, 255) {
        Some(v) => v as u8,
        None => 0,
    }
}

/// Pixel `i` of the fields `f`: the three fields from `2 + 3 * i` on.
pub open spec fn pixel_of(f: Seq<Seq<u8>>, i: int) -> Rgb {
    (channel_value(f[2 + 3 * i]), channel_value(f[3 + 3 * i]), channel_value(f[4 + 3 * i]))
}

/// The first field from `j` on that is not a valid channel value.
pub open spec fn first_bad_channel(f: Seq<Seq<u8>>, j: int) -> Option<int>
    decreases f.len() - j,
{
    if j < 0 || j >= f.len() {
        None
    } else if unsigned_of(f[j], 255) is None {
        Some(j)
    } else {
        first_bad_channel(f, j + 1)
    }
}

/// The `n` pixels that the fields `f` hold, or the first invalid channel.
pub open spec fn decode_pixels(f: Seq<Seq<u8>>, n: nat) -> Result<Seq<Rgb>, TextureError> {
    match first_bad_channel(f, 2) {
        Some(j) => Err(
            TextureError::InvalidChannel {
                pixel: ((j - 2) / 3) as usize,
                channel: channel_at((j - 2) % 3),
            },
        ),
        None => Ok(Seq::new(n, |i: int| pixel_of(f, i))),
    }
}

/// The pixels that the text `t` encodes, or the first thing wrong with it:
/// the fields are checked in order (dimensions, their size, the number of
/// fields, then each channel).
pub open spec fn decode(t: Seq<u8>) -> Result<Seq<Rgb>, TextureError> {
    let f = fields_of(t);
    if f.len() < 2 {
        Err(TextureError::MissingDimensions)
    } else {
        match (unsigned_of(f[0], usize::MAX as nat), unsigned_of(f[1], usize::MAX as nat)) {
            (None, _) => Err(TextureError::InvalidWidth),
            (Some(_), None) => Err(TextureError::InvalidHeight),
            (Some(w), Some(h)) => {
                let expected = 2 + 3 * (w * h);
                if expected > usize::MAX {
                    Err(TextureError::DimensionsTooLarge)
                } else if f.len() != expected {
                    Err(
                        TextureError::TokenCount {
                            expected: expected as usize,
                            actual: f.len() as usize,
                        },
                    )
                } else {
                    decode_pixels(f, w * h)
                }
            },
        }
    }
}

/// `s` is the summary of the pixels `px`.
pub open spec fn summarizes(s: TextureStats, px: Seq<Rgb>) -> bool {
    &&& s.total_pixels == px.len()
    &&& s.unique_colors == px.to_set().len()
    &&& is_dominant(px, s.dominant_color)
}

/// `r` is the outcome of analysing the text `t`.
pub open spec fn analyzed(t: Seq<u8>, r: Result<TextureStats, TextureError>) -> bool {
    match decode(t) {
        Ok(px) => r is Ok && summarizes(r->Ok_0, px),
        Err(e) => r == Err::<TextureStats, TextureError>(e),
    }
}

pub proof fn lemma_first_bad_skip(f: Seq<Seq<u8>>, a: int, j: int)
    requires
        0 <= a <= j <= f.len(),
        forall|k: int| a <= k < j ==> unsigned_of(#[trigger] f[k], 255) is Some,
    ensures
        first_bad_channel(f, a) == first_bad_channel(f, j),
    decreases j - a,
{
    if a < j {
        lemma_first_bad_skip(f, a + 1, j);
    }
}

/// Analyses a texture text whose surrounding white space is already gone.
pub fn analyze_fields(t: &[u8]) -> (r: Result<TextureStats, TextureError>)
    ensures
        analyzed(t@, r),
{
    let ranges = split_fields(t);
    let ghost f = fields_of(t@);
    if ranges.len() < 2 {
        return Err(TextureError::MissingDimensions);
    }
    let width = match parse_field(t, ranges[0], usize::MAX) {
        Some(v) => v,
        None => return Err(TextureError::InvalidWidth),
    };
    let height = match parse_field(t, ranges[1], usize::MAX) {
        Some(v) => v,
        None => return Err(TextureError::InvalidHeight),
    };
    let total = match width.checked_mul(height) {
        Some(v) => v,
        None => {
            assert(2 + 3 * (width * height) > usize::MAX) by (nonlinear_arith)
                requires
                    width * height > usize::MAX,
            ;
            return Err(TextureError::DimensionsTooLarge);
        },
    };
    if total > (usize::MAX - 2) / 3 {
        return Err(TextureError::DimensionsTooLarge);
    }
    let expected = 2 + 3 * total;
    if ranges.len() != expected {
        return Err(TextureError::TokenCount { expected, actual: ranges.len() });
    }
    let mut pixels: Vec<Rgb> = Vec::new();
    let mut p: usize = 0;
    while p < total
        invariant
            ranges_match(t@, ranges@, f),
            f == fields_of(t@),
            decode(t@) == decode_pixels(f, total as nat),
            ranges.len() == expected,
            expected == 2 + 3 * total,
            p <= total,
            pixels@ == Seq::new(p as nat, |i: int| pixel_of(f, i)),
            first_bad_channel(f, 2) == first_bad_channel(f, 2 + 3 * p),
        decreases total - p,
    {
        let base = 2 + 3 * p;
        let red = match parse_field(t, ranges[base], 255) {
            Some(v) => v as u8,
            None => {
                assert(first_bad_channel(f, base as int) == Some(base as int));
                assert((base - 2) / 3 == p && (base - 2) % 3 == 0) by (nonlinear_arith)
                    requires
                        base == 2 + 3 * p,
                ;
                return Err(TextureError::InvalidChannel { pixel: p, channel: Channel::Red });
            },
        };
        let green = match parse_field(t, ranges[base + 1], 255) {
            Some(v) => v as u8,
            None => {
                proof {
                    lemma_first_bad_skip(f, base as int, base + 1);
                    assert(first_bad_channel(f, base + 1) == Some(base + 1));
                    assert((base - 2 + 1) / 3 == p && (base - 2 + 1) % 3 == 1) by (nonlinear_arith)
                        requires
                            base == 2 + 3 * p,
                    ;
                }
                return Err(TextureError::InvalidChannel { pixel: p, channel: Channel::Green });
            },
        };
        let blue = match parse_field(t, ranges[base + 2], 255) {
            Some(v) => v as u8,
            None => {
                proof {
                    lemma_first_bad_skip(f, base as int, base + 2);
                    assert(first_bad_channel(f, base + 2) == Some(base + 2));
                    assert((base - 2 + 2) / 3 == p && (base - 2 + 2) % 3 == 2) by (nonlinear_arith)
                        requires
                            base == 2 + 3 * p,
                    ;
                }
                return Err(TextureError::InvalidChannel { pixel: p, channel: Channel::Blue });
            },
        };
        proof {
            lemma_first_bad_skip(f, base as int, base + 3);
        }
        pixels.push((red, green, blue));
        p = p + 1;
        assert(pixels@ =~= Seq::new(p as nat, |i: int| pixel_of(f, i)));
    }
    let (unique, dominant) = color_summary(&pixels);
    Ok(TextureStats { total_pixels: total, unique_colors: unique, dominant_color: dominant })
}

/// What `str::trim` leaves of a text.
pub uninterp spec fn trimmed(s: Seq<char>) -> Seq<char>;

/// Relies on `str::trim`: the text without its leading and trailing white
/// space, which depends on the text alone.
#[verifier::external_body]
fn trim_text(s: &str) -> (r: &str)
    ensures
        r@ == trimmed(s@),
{
    s.trim()
}

/// Analyses a texture text `width,height,r0,g0,b0,...`, with any white space
/// around the whole text ignored.
pub fn analyze_texture(data: &str) -> (r: Result<TextureStats, TextureError>)
    ensures
        analyzed(encode_utf8(trimmed(data@)), r),
{
    let text = trim_text(data);
    analyze_fields(text.as_bytes())
}

} // verus!
