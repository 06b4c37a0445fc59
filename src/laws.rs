//! Properties of the analysis that hold for every input.
use crate::fields::{all_digits, decimal_value, fields_of, unsigned_of};
use crate::tally::{count, first_at, is_dominant, Rgb};
use crate::texture::{
    analyzed, channel_at, decode, first_bad_channel, lemma_first_bad_skip, TextureError,
    TextureStats,
};
use vstd::prelude::*;

verus! {

/// The fields `f` hold a width `w`, a height `h` and exactly `w * h` triplets
/// of channel values from 0 to 255, and their number fits a `usize`.
pub open spec fn well_formed(f: Seq<Seq<u8>>, w: nat, h: nat) -> bool {
    &&& f.len() == 2 + 3 * (w * h)
    &&& f.len() <= usize::MAX
    &&& unsigned_of(f[0], usize::MAX as nat) == Some(w)
    &&& unsigned_of(f[1], usize::MAX as nat) == Some(h)
    &&& forall|j: int| 2 <= j < f.len() ==> unsigned_of(#[trigger] f[j], 255) is Some
}

proof fn lemma_no_bad_channel(f: Seq<Seq<u8>>, a: int)
    requires
        0 <= a <= f.len(),
        forall|j: int| a <= j < f.len() ==> unsigned_of(#[trigger] f[j], 255) is Some,
    ensures
        first_bad_channel(f, a) is None,
    decreases f.len() - a,
{
    if a < f.len() {
        lemma_no_bad_channel(f, a + 1);
    }
}

/// A text with a valid width `w`, height `h` and exactly `w * h` valid
/// triplets is analysed successfully: it has `w * h` pixels, and no more
/// distinct colors than pixels.
pub proof fn law_well_formed_succeeds(
    t: Seq<u8>,
    w: nat,
    h: nat,
    r: Result<TextureStats, TextureError>,
)
    requires
        well_formed(fields_of(t), w, h),
        analyzed(t, r),
    ensures
        r is Ok,
        r->Ok_0.total_pixels == w * h,
        r->Ok_0.unique_colors <= r->Ok_0.total_pixels,
{
    let f = fields_of(t);
    lemma_no_bad_channel(f, 2);
    let px = decode(t)->Ok_0;
    px.lemma_cardinality_of_set();
}

/// With a valid width and height, one field fewer or one more than
/// `2 + 3 * width * height` is a field-count error.
pub proof fn law_wrong_field_count_fails(
    t: Seq<u8>,
    w: nat,
    h: nat,
    r: Result<TextureStats, TextureError>,
)
    requires
        fields_of(t).len() >= 2,
        unsigned_of(fields_of(t)[0], usize::MAX as nat) == Some(w),
        unsigned_of(fields_of(t)[1], usize::MAX as nat) == Some(h),
        2 + 3 * (w * h) <= usize::MAX,
        fields_of(t).len() == 2 + 3 * (w * h) + 1 || fields_of(t).len() + 1 == 2 + 3 * (w * h),
        analyzed(t, r),
    ensures
        r == Err::<TextureStats, TextureError>(
            TextureError::TokenCount {
                expected: (2 + 3 * (w * h)) as usize,
                actual: fields_of(t).len() as usize,
            },
        ),
{
}

proof fn lemma_count_all(px: Seq<Rgb>, c: Rgb)
    requires
        forall|i: int| 0 <= i < px.len() ==> px[i] == c,
    ensures
        count(px, c) == px.len(),
    decreases px.len(),
{
    if px.len() > 0 {
        let s = px.drop_last();
        assert(forall|i: int| 0 <= i < s.len() ==> s[i] == px[i]);
        lemma_count_all(s, c);
    }
}

/// The dominant color is determined: only one color meets its definition.
pub proof fn law_dominant_unique(px: Seq<Rgb>, c: Rgb, d: Rgb)
    requires
        is_dominant(px, c),
        is_dominant(px, d),
    ensures
        c == d,
{
    if px.len() > 0 {
        let fc = choose|f: int|
            #[trigger] first_at(px, c, f) && forall|p: int|
                0 <= p < px.len() ==> #[trigger] count(px, px[p]) <= count(px, c) && (count(
                    px,
                    px[p],
                ) == count(px, c) ==> f <= p);
        let fd = choose|f: int|
            #[trigger] first_at(px, d, f) && forall|p: int|
                0 <= p < px.len() ==> #[trigger] count(px, px[p]) <= count(px, d) && (count(
                    px,
                    px[p],
                ) == count(px, d) ==> f <= p);
        assert(count(px, px[fc]) <= count(px, d));
        assert(count(px, px[fd]) <= count(px, c));
        assert(fd <= fc);
        assert(fc <= fd);
    }
}

/// When every pixel has the color `c`, there is one distinct color and it is
/// the dominant one.
pub proof fn law_single_color(t: Seq<u8>, c: Rgb, r: Result<TextureStats, TextureError>)
    requires
        decode(t) is Ok,
        decode(t)->Ok_0.len() > 0,
        forall|i: int| 0 <= i < decode(t)->Ok_0.len() ==> decode(t)->Ok_0[i] == c,
        analyzed(t, r),
    ensures
        r is Ok,
        r->Ok_0.unique_colors == 1,
        r->Ok_0.dominant_color == c,
{
    let px = decode(t)->Ok_0;
    assert(px.to_set() =~= set![c]) by {
        assert(px[0] == c);
    }
    assert(set![c].len() == 1);
    lemma_count_all(px, c);
    assert(is_dominant(px, c)) by {
        assert(first_at(px, c, 0));
    }
    law_dominant_unique(px, c, r->Ok_0.dominant_color);
}

/// With a width or height of zero there are no pixels: the two dimension
/// fields alone give zero pixels, zero colors and black; any further field
/// is a field-count error.
pub proof fn law_empty_image(
    t: Seq<u8>,
    w: nat,
    h: nat,
    r: Result<TextureStats, TextureError>,
)
    requires
        fields_of(t).len() >= 2,
        unsigned_of(fields_of(t)[0], usize::MAX as nat) == Some(w),
        unsigned_of(fields_of(t)[1], usize::MAX as nat) == Some(h),
        w == 0 || h == 0,
        analyzed(t, r),
    ensures
        fields_of(t).len() == 2 ==> r == Ok::<TextureStats, TextureError>(
            TextureStats { total_pixels: 0, unique_colors: 0, dominant_color: (0u8, 0u8, 0u8) },
        ),
        fields_of(t).len() != 2 ==> r == Err::<TextureStats, TextureError>(
            TextureError::TokenCount { expected: 2, actual: fields_of(t).len() as usize },
        ),
{
    assert(w * h == 0) by (nonlinear_arith)
        requires
            w == 0 || h == 0,
    ;
    if fields_of(t).len() == 2 {
        let px = decode(t)->Ok_0;
        assert(px.len() == 0);
        assert(px.to_set() =~= Set::<Rgb>::empty());
    }
}

/// The field `256`.
pub open spec fn text_256() -> Seq<u8> {
    seq![50u8, 53u8, 54u8]
}

/// The field `-1`.
pub open spec fn text_minus_one() -> Seq<u8> {
    seq![45u8, 49u8]
}

/// A channel written `256` or `-1`, after only valid channels, is reported as
/// invalid with its pixel and its channel.
pub proof fn law_out_of_range_channel(
    t: Seq<u8>,
    w: nat,
    h: nat,
    p: nat,
    k: nat,
    r: Result<TextureStats, TextureError>,
)
    requires
        fields_of(t).len() == 2 + 3 * (w * h),
        fields_of(t).len() <= usize::MAX,
        unsigned_of(fields_of(t)[0], usize::MAX as nat) == Some(w),
        unsigned_of(fields_of(t)[1], usize::MAX as nat) == Some(h),
        p < w * h,
        k < 3,
        fields_of(t)[(2 + 3 * p + k) as int] == text_256() || fields_of(t)[(2 + 3 * p + k) as int]
            == text_minus_one(),
        forall|j: int|
            2 <= j < 2 + 3 * p + k ==> unsigned_of(#[trigger] fields_of(t)[j], 255) is Some,
        analyzed(t, r),
    ensures
        r == Err::<TextureStats, TextureError>(
            TextureError::InvalidChannel { pixel: p as usize, channel: channel_at(k as int) },
        ),
{
    let f = fields_of(t);
    let j = 2 + 3 * p + k;
    assert(j < f.len()) by (nonlinear_arith)
        requires
            j == 2 + 3 * p + k,
            k < 3,
            p < w * h,
            f.len() == 2 + 3 * (w * h),
    ;
    let s = text_256();
    assert(s.drop_last() =~= seq![50u8, 53u8]);
    assert(s.drop_last().drop_last() =~= seq![50u8]);
    assert(s.drop_last().drop_last().drop_last() =~= Seq::<u8>::empty());
    let s1 = seq![50u8];
    assert(s1.drop_last() =~= Seq::<u8>::empty());
    assert(decimal_value(Seq::<u8>::empty()) == 0);
    assert(decimal_value(s1) == 2);
    assert(s.drop_last().drop_last() == s1);
    assert(decimal_value(s.drop_last()) == 25);
    assert(decimal_value(s) == 256);
    let m = text_minus_one();
    assert(!all_digits(m)) by {
        assert(m[0] == 45u8);
    }
    assert(unsigned_of(f[j as int], 255) is None);
    lemma_first_bad_skip(f, 2, j as int);
    assert(first_bad_channel(f, j as int) == Some(j as int));
    assert((j - 2) / 3 == p && (j - 2) % 3 == k) by (nonlinear_arith)
        requires
            j == 2 + 3 * p + k,
            k < 3,
    ;
}

} // verus!
