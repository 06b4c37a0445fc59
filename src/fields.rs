//! Splitting a byte string into comma-delimited fields, and reading a field
//! as an unsigned decimal number.
use vstd::prelude::*;

verus! {

pub const COMMA: u8 = 44;

pub const PLUS: u8 = 43;

pub const DIGIT_ZERO: u8 = 48;

pub const DIGIT_NINE: u8 = 57;

/// The fields of `t` between commas, in order. There is always at least one
/// (an empty text has one empty field).
pub open spec fn fields_of(t: Seq<u8>) -> Seq<Seq<u8>>
    decreases t.len(),
{
    if t.len() == 0 {
        seq![Seq::<u8>::empty()]
    } else if t.last() == COMMA {
        fields_of(t.drop_last()).push(Seq::<u8>::empty())
    } else {
        let f = fields_of(t.drop_last());
        f.update(f.len() - 1, f.last().push(t.last()))
    }
}

pub open spec fn is_digit(b: u8) -> bool {
    DIGIT_ZERO <= b && b <= DIGIT_NINE
}

pub open spec fn all_digits(d: Seq<u8>) -> bool {
    forall|i: int| 0 <= i < d.len() ==> is_digit(#[trigger] d[i])
}

/// The number that the decimal digits `d` write, most significant first.
pub open spec fn decimal_value(d: Seq<u8>) -> nat
    decreases d.len(),
{
    if d.len() == 0 {
        0
    } else {
        decimal_value(d.drop_last()) * 10 + (d.last() - DIGIT_ZERO) as nat
    }
}

/// The digits of a field once an optional leading `+` is removed.
pub open spec fn unsigned_digits(f: Seq<u8>) -> Seq<u8> {
    if f.len() > 0 && f[0] == PLUS {
        f.drop_first()
    } else {
        f
    }
}

/// A field read as an unsigned decimal number no greater than `max`: an
/// optional `+`, then one or more ASCII digits. Anything else (a sign `-`,
/// a space, an empty field, a value over `max`) reads as nothing.
pub open spec fn unsigned_of(f: Seq<u8>, max: nat) -> Option<nat> {
    let d = unsigned_digits(f);
    if d.len() > 0 && all_digits(d) && decimal_value(d) <= max {
        Some(decimal_value(d))
    } else {
        None
    }
}

/// Where a field lies in the text: bytes `start` up to (not including) `end`.
#[derive(Clone, Copy, Debug, PartialEq, Eq)]
pub struct FieldRange {
    pub start: usize,
    pub end: usize,
}

pub open spec fn field_at(t: Seq<u8>, r: FieldRange) -> Seq<u8> {
    t.subrange(r.start as int, r.end as int)
}

pub open spec fn ranges_match(t: Seq<u8>, rs: Seq<FieldRange>, fs: Seq<Seq<u8>>) -> bool {
    &&& rs.len() == fs.len()
    &&& forall|j: int|
        0 <= j < rs.len() ==> {
            &&& (#[trigger] rs[j]).start <= rs[j].end <= t.len()
            &&& field_at(t, rs[j]) == fs[j]
        }
}

/// Splits `t` at every comma, giving where each field lies.
pub fn split_fields(t: &[u8]) -> (r: Vec<FieldRange>)
    ensures
        ranges_match(t@, r@, fields_of(t@)),
{
    let mut r: Vec<FieldRange> = Vec::new();
    let mut start: usize = 0;
    let mut i: usize = 0;
    assert(t@.take(0) == Seq::<u8>::empty());
    assert(r@.map_values(|x: FieldRange| field_at(t@, x)) == Seq::<Seq<u8>>::empty());
    assert(t@.subrange(0, 0) == Seq::<u8>::empty());
    while i < t.len()
        invariant
            0 <= start <= i <= t.len(),
            fields_of(t@.take(i as int)) == r@.map_values(|x: FieldRange| field_at(t@, x)).push(
                t@.subrange(start as int, i as int),
            ),
            forall|j: int| 0 <= j < r.len() ==> (#[trigger] r@[j]).start <= r@[j].end <= start,
        decreases t.len() - i,
    {
        let ghost before = r@.map_values(|x: FieldRange| field_at(t@, x));
        assert(t@.take(i + 1).drop_last() == t@.take(i as int));
        assert(t@.take(i + 1).last() == t[i as int]);
        if t[i] == COMMA {
            r.push(FieldRange { start, end: i });
            start = i + 1;
            assert(t@.subrange(start as int, (i + 1) as int) == Seq::<u8>::empty());
            assert(r@.map_values(|x: FieldRange| field_at(t@, x)) == before.push(
                t@.subrange(r@.last().start as int, i as int),
            ));
        } else {
            assert(t@.subrange(start as int, i + 1) == t@.subrange(start as int, i as int).push(
                t[i as int],
            ));
        }
        i = i + 1;
    }
    assert(t@.take(t.len() as int) == t@);
    let ghost before = r@.map_values(|x: FieldRange| field_at(t@, x));
    r.push(FieldRange { start, end: t.len() });
    assert(r@.map_values(|x: FieldRange| field_at(t@, x)) == before.push(
        t@.subrange(start as int, t.len() as int),
    ));
    assert forall|j: int| 0 <= j < r.len() implies field_at(t@, #[trigger] r@[j]) == fields_of(
        t@,
    )[j] by {
        assert(r@.map_values(|x: FieldRange| field_at(t@, x))[j] == field_at(t@, r@[j]));
    }
    r
}

/// Reads the field `r` of `t` as an unsigned decimal number no greater than
/// `max`.
pub fn parse_field(t: &[u8], r: FieldRange, max: usize) -> (v: Option<usize>)
    requires
        r.start <= r.end <= t@.len(),
    ensures
        match v {
            Some(n) => unsigned_of(field_at(t@, r), max as nat) == Some(n as nat),
            None => unsigned_of(field_at(t@, r), max as nat) is None,
        },
{
    let ghost f = field_at(t@, r);
    let mut s: usize = r.start;
    if s < r.end && t[s] == PLUS {
        s = s + 1;
    }
    let ghost d = t@.subrange(s as int, r.end as int);
    assert(unsigned_digits(f) == d);
    if s == r.end {
        return None;
    }
    let mut value: usize = 0;
    let mut over: bool = false;
    let mut i: usize = s;
    while i < r.end
        invariant
            s <= i <= r.end <= t@.len(),
            d == t@.subrange(s as int, r.end as int),
            unsigned_digits(f) == d,
            f == field_at(t@, r),
            all_digits(d.take(i - s)),
            !over ==> value as nat == decimal_value(d.take(i - s)) && value <= max,
            over ==> decimal_value(d.take(i - s)) > max,
        decreases r.end - i,
    {
        let b = t[i];
        if b < DIGIT_ZERO || b > DIGIT_NINE {
            assert(d[i - s] == t@[i as int]);
            assert(!is_digit(d[i - s]));
            assert(!all_digits(d));
            return None;
        }
        let ghost k = i - s;
        assert(d.take(k + 1).drop_last() == d.take(k));
        assert(d.take(k + 1).last() == b);
        let dg: usize = (b - DIGIT_ZERO) as usize;
        if !over {
            if dg > max {
                over = true;
            } else if value > (max - dg) / 10 {
                over = true;
                assert(value * 10 + dg > max) by (nonlinear_arith)
                    requires
                        value > (max - dg) / 10,
                        dg <= max,
                ;
            } else {
                assert(value * 10 + dg <= max) by (nonlinear_arith)
                    requires
                        value <= (max - dg) / 10,
                        dg <= 9,
                ;
                value = value * 10 + dg;
            }
        }
        i = i + 1;
    }
    assert(d.take(d.len() as int) == d);
    if over {
        None
    } else {
        Some(value)
    }
}

} // verus!
