//! The level-geometry format: one box per line, six decimal numbers to the
//! line, `min_x max_x min_y max_y min_z max_z`, set apart by blanks.
//!
//! A number is an optional sign, digits with an optional point among
//! them, and an optional exponent of ten: `12`, `-0.5`, `.25`, `3.`,
//! `1.5e2`, `25E-1`. There is at least one digit. It is read in
//! thousandths, and what is less than a thousandth is dropped. `inf` and
//! `infinity` are numbers too, but beyond the limit of a coordinate.

use crate::geometry::{BoundingBox, COORD_LIMIT};
use crate::scalar::magnitude;
use vstd::prelude::*;

verus! {

/// The kinds of byte that the format tells apart.
#[derive(Clone, Copy, Debug, PartialEq, Eq, Structural)]
pub enum ByteClass {
    /// Anything but the line feed that ends a line.
    InLine,
    /// A space, a tab or a carriage return.
    Blank,
    /// Anything but a blank.
    InWord,
    /// A decimal digit.
    Digit,
}

impl ByteClass {
    /// Whether the byte is of this class.
    pub open spec fn holds(self, b: u8) -> bool {
        match self {
            ByteClass::InLine => b != 10,
            ByteClass::Blank => b == 32 || b == 9 || b == 13,
            ByteClass::InWord => !(b == 32 || b == 9 || b == 13),
            ByteClass::Digit => 48 <= b <= 57,
        }
    }

    /// Whether the byte is of this class.
    pub fn test(&self, b: u8) -> (r: bool)
        ensures
            r == self.holds(b),
    {
        match self {
            ByteClass::InLine => b != 10,
            ByteClass::Blank => b == 32 || b == 9 || b == 13,
            ByteClass::InWord => !(b == 32 || b == 9 || b == 13),
            ByteClass::Digit => 48 <= b && b <= 57,
        }
    }
}

/// The number of bytes at the front of `s` that are all of one class.
pub open spec fn span(s: Seq<u8>, class: ByteClass) -> nat
    decreases s.len(),
{
    if s.len() > 0 && class.holds(s[0]) {
        1 + span(s.skip(1), class)
    } else {
        0
    }
}

/// The span is the place of the first byte that is not of the class.
pub proof fn lemma_span_is(s: Seq<u8>, class: ByteClass, n: int)
    requires
        0 <= n <= s.len(),
        forall|j: int| 0 <= j < n ==> class.holds(#[trigger] s[j]),
        n == s.len() || !class.holds(s[n]),
    ensures
        span(s, class) == n,
    decreases n,
{
    if n > 0 {
        let rest = s.skip(1);
        assert forall|j: int| 0 <= j < n - 1 implies class.holds(#[trigger] rest[j]) by {
            assert(rest[j] == s[j + 1]);
        }
        lemma_span_is(rest, class, n - 1);
    }
}

/// A span ends within the sequence, covers bytes of the class only, and
/// stops at a byte that is not of the class.
pub proof fn lemma_span_bounds(s: Seq<u8>, class: ByteClass)
    ensures
        span(s, class) <= s.len(),
        forall|j: int| 0 <= j < span(s, class) ==> class.holds(#[trigger] s[j]),
        span(s, class) < s.len() ==> !class.holds(s[span(s, class) as int]),
    decreases s.len(),
{
    if s.len() > 0 && class.holds(s[0]) {
        let rest = s.skip(1);
        lemma_span_bounds(rest, class);
        assert forall|j: int| 0 <= j < span(s, class) implies class.holds(#[trigger] s[j]) by {
            if j > 0 {
                assert(s[j] == rest[j - 1]);
            }
        }
        if span(s, class) < s.len() {
            assert(s[span(s, class) as int] == rest[span(rest, class) as int]);
        }
    }
}

/// Walks from `from` over bytes of one class and returns where it stops:
/// at `end`, or at the first byte that is not of the class.
pub fn scan(data: &[u8], from: usize, end: usize, class: ByteClass) -> (r: usize)
    requires
        from <= end <= data@.len(),
    ensures
        from <= r <= end,
        r == from + span(data@.subrange(from as int, end as int), class),
{
    let mut i: usize = from;
    while i < end && class.test(data[i])
        invariant
            from <= i <= end <= data@.len(),
            forall|j: int| from <= j < i ==> class.holds(#[trigger] data@[j]),
        decreases end - i,
    {
        i = i + 1;
    }
    proof {
        let s = data@.subrange(from as int, end as int);
        assert forall|j: int| 0 <= j < i - from implies class.holds(#[trigger] s[j]) by {
            assert(s[j] == data@[from + j]);
        }
        lemma_span_is(s, class, i - from);
    }
    i
}

/// The number that a row of digits writes.
pub open spec fn digits_value(s: Seq<u8>) -> nat
    decreases s.len(),
{
    if s.len() == 0 {
        0
    } else {
        (digits_value(s.drop_last()) * 10 + (s.last() - 48)) as nat
    }
}

/// Whether the word begins with a sign.
pub open spec fn has_sign(t: Seq<u8>) -> bool {
    t.len() > 0 && (t[0] == 45 || t[0] == 43)
}

/// The word without its sign.
pub open spec fn body_of(t: Seq<u8>) -> Seq<u8> {
    if has_sign(t) {
        t.skip(1)
    } else {
        t
    }
}

/// The digits before the point.
pub open spec fn whole_of(t: Seq<u8>) -> Seq<u8> {
    body_of(t).take(span(body_of(t), ByteClass::Digit) as int)
}

/// What follows the digits before the point.
pub open spec fn tail_of(t: Seq<u8>) -> Seq<u8> {
    body_of(t).skip(span(body_of(t), ByteClass::Digit) as int)
}

/// What follows the point, or the digits before it where there is no
/// point.
pub open spec fn after_point(t: Seq<u8>) -> Seq<u8> {
    if tail_of(t).len() > 0 && tail_of(t)[0] == 46 {
        tail_of(t).skip(1)
    } else {
        tail_of(t)
    }
}

/// The digits after the point.
pub open spec fn fraction_of(t: Seq<u8>) -> Seq<u8> {
    after_point(t).take(span(after_point(t), ByteClass::Digit) as int)
}

/// What follows the digits of the number: nothing, or an exponent.
pub open spec fn exponent_part(t: Seq<u8>) -> Seq<u8> {
    after_point(t).skip(span(after_point(t), ByteClass::Digit) as int)
}

/// Whether `x` is nothing or an exponent: the letter `e`, small or
/// capital, an optional sign, and one digit at least.
pub open spec fn is_exponent(x: Seq<u8>) -> bool {
    x.len() == 0 || {
        &&& x[0] == 101 || x[0] == 69
        &&& body_of(x.skip(1)).len() > 0
        &&& span(body_of(x.skip(1)), ByteClass::Digit) == body_of(x.skip(1)).len()
    }
}

/// The power of ten that an exponent stands for; zero where there is none.
pub open spec fn exponent_value(x: Seq<u8>) -> int {
    if x.len() == 0 {
        0
    } else if has_sign(x.skip(1)) && x.skip(1)[0] == 45 {
        -(digits_value(body_of(x.skip(1))) as int)
    } else {
        digits_value(body_of(x.skip(1))) as int
    }
}

/// Whether the word is a decimal number: an optional sign, digits with an
/// optional point among them, before them or behind them, and an optional
/// exponent.
pub open spec fn is_decimal(t: Seq<u8>) -> bool {
    &&& whole_of(t).len() + fraction_of(t).len() > 0
    &&& is_exponent(exponent_part(t))
}

/// A row of `k` zeros.
pub open spec fn zeros(k: int) -> Seq<u8> {
    Seq::new(k as nat, |i: int| 48u8)
}

/// The first `m` digits of a row of digits that goes on in zeros.
pub open spec fn shifted(d: Seq<u8>, m: int) -> Seq<u8> {
    if m <= 0 {
        Seq::empty()
    } else if m <= d.len() {
        d.take(m)
    } else {
        d + zeros(m - d.len())
    }
}

/// How many digits of the number stand before the place of the
/// thousandths: those before the point, three more, and as many more or
/// fewer as the exponent says.
pub open spec fn places_of(t: Seq<u8>) -> int {
    whole_of(t).len() + 3 + exponent_value(exponent_part(t))
}

/// The value of a word as a decimal number, in thousandths, rounded toward
/// zero, or nothing where the word is no decimal number.
pub open spec fn decimal_value(t: Seq<u8>) -> Option<int> {
    if is_decimal(t) {
        let m = digits_value(shifted(whole_of(t) + fraction_of(t), places_of(t))) as int;
        Some(
            if has_sign(t) && t[0] == 45 {
                -m
            } else {
                m
            },
        )
    } else {
        None
    }
}

/// What can be wrong with a line.
#[derive(Clone, Copy, Debug, PartialEq, Eq, Structural)]
pub enum LineError {
    /// The line does not hold six fields.
    Fields,
    /// A field is no decimal number.
    Number,
    /// A number lies beyond `COORD_LIMIT`.
    Range,
    /// A lower bound exceeds its upper bound.
    Order,
}

/// A letter as a small letter; any other byte as it is.
pub open spec fn small(b: u8) -> u8 {
    if 65 <= b <= 90 {
        (b + 32) as u8
    } else {
        b
    }
}

/// Whether the word, but for its sign, spells `inf` or `infinity`, in
/// small or capital letters: a number beyond every limit.
pub open spec fn is_infinite(t: Seq<u8>) -> bool {
    let s = body_of(t);
    &&& s.len() == 3 || s.len() == 8
    &&& small(s[0]) == 105 && small(s[1]) == 110 && small(s[2]) == 102
    &&& s.len() == 8 ==> small(s[3]) == 105 && small(s[4]) == 110 && small(s[5]) == 105 && small(
        s[6],
    ) == 116 && small(s[7]) == 121
}

/// The scalar that a word stands for.
pub open spec fn scalar_of(t: Seq<u8>) -> Result<i32, LineError> {
    if is_infinite(t) {
        Err(LineError::Range)
    } else {
        match decimal_value(t) {
            None => Err(LineError::Number),
            Some(v) => if -COORD_LIMIT <= v <= COORD_LIMIT {
                Ok(v as i32)
            } else {
                Err(LineError::Range)
            },
        }
    }
}

/// The largest cap that `read_digits` takes.
pub const CAP_LIMIT: u128 = 0x100_0000_0000_0000_0000_0000_0000_0000;

/// Up to where an exponent is counted exactly. No word is long enough for
/// an exponent from here on to leave its number within `COORD_LIMIT`,
/// unless the number is zero.
pub const EXPONENT_CAP: u128 = 0x1_0000_0000_0000_0000_0000;

/// Up to where a number is counted exactly, in thousandths; any number from
/// here on is beyond `COORD_LIMIT`.
pub const VALUE_CAP: u64 = 10_000_000_000;

/// Reads the digits from `from` to `end` as a number, counting exactly up
/// to `cap` and stopping there.
pub fn read_digits(data: &[u8], from: usize, end: usize, cap: u128) -> (r: u128)
    requires
        from <= end <= data@.len(),
        forall|j: int| from <= j < end ==> ByteClass::Digit.holds(#[trigger] data@[j]),
        cap <= CAP_LIMIT,
    ensures
        r <= cap,
        r < cap ==> r == digits_value(data@.subrange(from as int, end as int)),
        r == cap ==> digits_value(data@.subrange(from as int, end as int)) >= cap,
{
    let mut acc: u128 = 0;
    let mut i: usize = from;
    assert(data@.subrange(from as int, from as int) =~= Seq::<u8>::empty());
    while i < end
        invariant
            from <= i <= end <= data@.len(),
            forall|j: int| from <= j < end ==> ByteClass::Digit.holds(#[trigger] data@[j]),
            cap <= CAP_LIMIT,
            acc <= cap,
            acc < cap ==> acc == digits_value(data@.subrange(from as int, i as int)),
            acc == cap ==> digits_value(data@.subrange(from as int, i as int)) >= cap,
        decreases end - i,
    {
        proof {
            let upto = data@.subrange(from as int, i + 1);
            assert(upto.drop_last() =~= data@.subrange(from as int, i as int));
            assert(upto.last() == data@[i as int]);
        }
        let digit: u128 = (data[i] - 48) as u128;
        let next: u128 = acc * 10 + digit;
        acc = if next > cap {
            cap
        } else {
            next
        };
        i = i + 1;
    }
    acc
}

/// One more digit of a row that goes on in zeros multiplies the number by
/// ten and adds the digit.
pub proof fn lemma_shifted_step(d: Seq<u8>, i: int)
    requires
        i >= 0,
        forall|j: int| 0 <= j < d.len() ==> ByteClass::Digit.holds(#[trigger] d[j]),
    ensures
        digits_value(shifted(d, i + 1)) == digits_value(shifted(d, i)) * 10 + (if i < d.len() {
            d[i] - 48
        } else {
            0
        }),
{
    let s = shifted(d, i + 1);
    assert(s.drop_last() =~= shifted(d, i));
    assert(s.last() == if i < d.len() {
        d[i]
    } else {
        48u8
    });
}

/// More digits never make the number smaller, and zeros behind a zero keep
/// it zero.
pub proof fn lemma_shifted_grows(d: Seq<u8>, i: int, m: int)
    requires
        0 <= i <= m,
        forall|j: int| 0 <= j < d.len() ==> ByteClass::Digit.holds(#[trigger] d[j]),
    ensures
        digits_value(shifted(d, i)) <= digits_value(shifted(d, m)),
        d.len() <= i && digits_value(shifted(d, i)) == 0 ==> digits_value(shifted(d, m)) == 0,
    decreases m - i,
{
    if i < m {
        lemma_shifted_grows(d, i, m - 1);
        lemma_shifted_step(d, m - 1);
    }
}

/// Where the digits of a decimal number lie in a word.
struct Mantissa {
    negative: bool,
    /// Where the digits before the point begin.
    whole: usize,
    /// Where they end.
    point: usize,
    /// Where the digits after the point begin.
    fraction: usize,
    /// Where they end, and what is left of the word begins.
    rest: usize,
}

/// Finds the sign and the digits of the word from `start` to `end`.
fn split_mantissa(data: &[u8], start: usize, end: usize) -> (p: Mantissa)
    requires
        start <= end <= data@.len(),
    ensures
        ({
            let t = data@.subrange(start as int, end as int);
            &&& start <= p.whole <= p.point <= p.fraction <= p.rest <= end
            &&& p.negative == (has_sign(t) && t[0] == 45)
            &&& data@.subrange(p.whole as int, p.point as int) == whole_of(t)
            &&& data@.subrange(p.fraction as int, p.rest as int) == fraction_of(t)
            &&& data@.subrange(p.rest as int, end as int) == exponent_part(t)
            &&& forall|j: int| p.whole <= j < p.point ==> ByteClass::Digit.holds(#[trigger] data@[j])
            &&& forall|j: int|
                p.fraction <= j < p.rest ==> ByteClass::Digit.holds(#[trigger] data@[j])
        }),
{
    let ghost t = data@.subrange(start as int, end as int);
    let signed = start < end && (data[start] == 45 || data[start] == 43);
    let negative = signed && data[start] == 45;
    let from: usize = if signed {
        start + 1
    } else {
        start
    };
    let ghost body = data@.subrange(from as int, end as int);
    assert(body =~= body_of(t));
    let point = scan(data, from, end, ByteClass::Digit);
    let ghost tail = data@.subrange(point as int, end as int);
    assert(tail =~= tail_of(t));
    assert(data@.subrange(from as int, point as int) =~= whole_of(t));
    let after: usize = if point < end && data[point] == 46 {
        point + 1
    } else {
        point
    };
    let ghost behind = data@.subrange(after as int, end as int);
    assert(behind =~= after_point(t)) by {
        if point < end {
            assert(tail[0] == data@[point as int]);
        }
    }
    let rest = scan(data, after, end, ByteClass::Digit);
    assert(data@.subrange(after as int, rest as int) =~= fraction_of(t));
    assert(data@.subrange(rest as int, end as int) =~= exponent_part(t));
    proof {
        lemma_span_bounds(body, ByteClass::Digit);
        assert forall|j: int| from <= j < point implies ByteClass::Digit.holds(
            #[trigger] data@[j],
        ) by {
            assert(data@[j] == body[j - from]);
        }
        lemma_span_bounds(behind, ByteClass::Digit);
        assert forall|j: int| after <= j < rest implies ByteClass::Digit.holds(
            #[trigger] data@[j],
        ) by {
            assert(data@[j] == behind[j - after]);
        }
    }
    Mantissa { negative, whole: from, point, fraction: after, rest }
}

/// Reads what is left of a word behind its digits as an exponent: its
/// sign, and its size counted exactly up to `EXPONENT_CAP`. Gives nothing
/// where it is neither empty nor an exponent.
fn read_exponent(data: &[u8], from: usize, end: usize) -> (r: Option<(bool, u128)>)
    requires
        from <= end <= data@.len(),
    ensures
        r.is_some() == is_exponent(data@.subrange(from as int, end as int)),
        r.is_some() ==> ({
            let v = exponent_value(data@.subrange(from as int, end as int));
            let (negative, size) = r.unwrap();
            &&& size <= EXPONENT_CAP
            &&& negative ==> v <= 0
            &&& !negative ==> v >= 0
            &&& size < EXPONENT_CAP ==> magnitude(v) == size
            &&& size == EXPONENT_CAP ==> magnitude(v) >= EXPONENT_CAP
        }),
{
    let ghost x = data@.subrange(from as int, end as int);
    if from == end {
        return Some((false, 0));
    }
    assert(x[0] == data@[from as int]);
    if data[from] != 101 && data[from] != 69 {
        return None;
    }
    let sign = from + 1;
    let ghost signed_digits = data@.subrange(sign as int, end as int);
    assert(signed_digits =~= x.skip(1));
    let signed = sign < end && (data[sign] == 45 || data[sign] == 43);
    let negative = signed && data[sign] == 45;
    let digits: usize = if signed {
        sign + 1
    } else {
        sign
    };
    let ghost body = data@.subrange(digits as int, end as int);
    assert(body =~= body_of(signed_digits));
    let stop = scan(data, digits, end, ByteClass::Digit);
    if digits == end || stop != end {
        return None;
    }
    proof {
        lemma_span_bounds(body, ByteClass::Digit);
        assert forall|j: int| digits <= j < end implies ByteClass::Digit.holds(
            #[trigger] data@[j],
        ) by {
            assert(data@[j] == body[j - digits]);
        }
    }
    Some((negative, read_digits(data, digits, end, EXPONENT_CAP)))
}

/// Reads the first `places` digits of the row that the digits before and
/// after the point make and that goes on in zeros, counting exactly up to
/// `VALUE_CAP`. Where `places` has reached `EXPONENT_CAP`, the row meant
/// may be longer still.
fn read_shifted(data: &[u8], p: &Mantissa, places: i128, Ghost(m): Ghost<int>) -> (r: u64)
    requires
        p.whole <= p.point <= p.fraction <= p.rest <= data@.len(),
        forall|j: int| p.whole <= j < p.point ==> ByteClass::Digit.holds(#[trigger] data@[j]),
        forall|j: int| p.fraction <= j < p.rest ==> ByteClass::Digit.holds(#[trigger] data@[j]),
        places <= 0 ==> m <= 0,
        0 < places < EXPONENT_CAP ==> m == places,
        places >= EXPONENT_CAP ==> m >= places,
    ensures
        ({
            let d = data@.subrange(p.whole as int, p.point as int) + data@.subrange(
                p.fraction as int,
                p.rest as int,
            );
            &&& r <= VALUE_CAP
            &&& r < VALUE_CAP ==> r == digits_value(shifted(d, m))
            &&& r == VALUE_CAP ==> digits_value(shifted(d, m)) >= VALUE_CAP
        }),
{
    if places <= 0 {
        return 0;
    }
    let ghost d = data@.subrange(p.whole as int, p.point as int) + data@.subrange(
        p.fraction as int,
        p.rest as int,
    );
    assert forall|j: int| 0 <= j < d.len() implies ByteClass::Digit.holds(#[trigger] d[j]) by {
        if j < p.point - p.whole {
            assert(d[j] == data@[p.whole + j]);
        } else {
            assert(d[j] == data@[p.fraction + (j - (p.point - p.whole))]);
        }
    }
    let before: u128 = (p.point - p.whole) as u128;
    let all: u128 = before + (p.rest - p.fraction) as u128;
    let limit: u128 = places as u128;
    let mut acc: u64 = 0;
    let mut i: u128 = 0;
    while i < limit && acc < VALUE_CAP && !(i >= all && acc == 0)
        invariant
            p.whole <= p.point <= p.fraction <= p.rest <= data@.len(),
            d == data@.subrange(p.whole as int, p.point as int) + data@.subrange(
                p.fraction as int,
                p.rest as int,
            ),
            forall|j: int| 0 <= j < d.len() ==> ByteClass::Digit.holds(#[trigger] d[j]),
            before == p.point - p.whole,
            all == d.len(),
            limit == places,
            limit <= m,
            i <= limit,
            i <= all + acc,
            acc <= VALUE_CAP,
            acc < VALUE_CAP ==> acc == digits_value(shifted(d, i as int)),
            acc == VALUE_CAP ==> digits_value(shifted(d, i as int)) >= VALUE_CAP,
        decreases (if i < all { all - i } else { 0 }) + (VALUE_CAP - acc),
    {
        proof {
            lemma_shifted_step(d, i as int);
            if i < before {
                assert(d[i as int] == data@[p.whole + i]);
            } else if i < all {
                assert(d[i as int] == data@[p.fraction + (i - before)]);
            }
        }
        let digit: u64 = if i < before {
            (data[p.whole + i as usize] - 48) as u64
        } else if i < all {
            (data[p.fraction + (i - before) as usize] - 48) as u64
        } else {
            0
        };
        let next: u64 = acc * 10 + digit;
        acc = if next > VALUE_CAP {
            VALUE_CAP
        } else {
            next
        };
        i = i + 1;
    }
    proof {
        lemma_shifted_grows(d, i as int, m);
    }
    acc
}

/// A letter as a small letter; any other byte as it is.
pub fn to_small(b: u8) -> (r: u8)
    ensures
        r == small(b),
{
    if 65 <= b && b <= 90 {
        b + 32
    } else {
        b
    }
}

/// Whether the word from `start` to `end` spells infinity.
pub fn spells_infinity(data: &[u8], start: usize, end: usize) -> (r: bool)
    requires
        start <= end <= data@.len(),
    ensures
        r == is_infinite(data@.subrange(start as int, end as int)),
{
    let ghost t = data@.subrange(start as int, end as int);
    let signed = start < end && (data[start] == 45 || data[start] == 43);
    let from: usize = if signed {
        start + 1
    } else {
        start
    };
    let ghost s = data@.subrange(from as int, end as int);
    assert(s =~= body_of(t));
    let n = end - from;
    if n != 3 && n != 8 {
        return false;
    }
    assert(forall|k: int| 0 <= k < n ==> s[k] == data@[from + k]);
    let short = to_small(data[from]) == 105 && to_small(data[from + 1]) == 110 && to_small(
        data[from + 2],
    ) == 102;
    if n == 3 {
        short
    } else {
        short && to_small(data[from + 3]) == 105 && to_small(data[from + 4]) == 110 && to_small(
            data[from + 5],
        ) == 105 && to_small(data[from + 6]) == 116 && to_small(data[from + 7]) == 121
    }
}

/// Reads the word from `start` to `end` as a scalar.
pub fn parse_scalar(data: &[u8], start: usize, end: usize) -> (r: Result<i32, LineError>)
    requires
        start <= end <= data@.len(),
    ensures
        r == scalar_of(data@.subrange(start as int, end as int)),
{
    let ghost t = data@.subrange(start as int, end as int);
    if spells_infinity(data, start, end) {
        return Err(LineError::Range);
    }
    let p = split_mantissa(data, start, end);
    if (p.point - p.whole) + (p.rest - p.fraction) == 0 {
        return Err(LineError::Number);
    }
    match read_exponent(data, p.rest, end) {
        None => Err(LineError::Number),
        Some((negative, size)) => {
            let before: i128 = (p.point - p.whole) as i128;
            let places: i128 = if negative {
                before + 3 - size as i128
            } else {
                before + 3 + size as i128
            };
            let m = read_shifted(data, &p, places, Ghost(places_of(t)));
            if m > COORD_LIMIT as u64 {
                return Err(LineError::Range);
            }
            if p.negative {
                Ok(-(m as i32))
            } else {
                Ok(m as i32)
            }
        },
    }
}

/// The words of a line: the runs of bytes that are not blank, in order.
pub open spec fn fields(line: Seq<u8>) -> Seq<Seq<u8>>
    decreases line.len(),
{
    let word = line.skip(span(line, ByteClass::Blank) as int);
    let n = span(word, ByteClass::InWord) as int;
    if n == 0 {
        Seq::empty()
    } else {
        proof {
            lemma_span_bounds(line, ByteClass::Blank);
            lemma_span_bounds(word, ByteClass::InWord);
        }
        seq![word.take(n)] + fields(word.skip(n))
    }
}

/// The lines of a file: what stands between line feeds. A line feed at the
/// end of the file ends the last line and begins no other.
pub open spec fn lines(data: Seq<u8>) -> Seq<Seq<u8>>
    decreases data.len(),
{
    let n = span(data, ByteClass::InLine) as int;
    if data.len() == 0 {
        Seq::empty()
    } else if n >= data.len() {
        seq![data]
    } else {
        seq![data.take(n)] + lines(data.skip(n + 1))
    }
}

/// The box that a line describes: its six fields are the bounds
/// `min_x max_x min_y max_y min_z max_z`. Of several faults the first in
/// this order is reported: the number of fields, then the fields from
/// left to right, then the order of the bounds.
pub open spec fn box_of(line: Seq<u8>) -> Result<BoundingBox, LineError> {
    let f = fields(line);
    if f.len() != 6 {
        Err(LineError::Fields)
    } else if scalar_of(f[0]) is Err {
        Err(scalar_of(f[0])->Err_0)
    } else if scalar_of(f[1]) is Err {
        Err(scalar_of(f[1])->Err_0)
    } else if scalar_of(f[2]) is Err {
        Err(scalar_of(f[2])->Err_0)
    } else if scalar_of(f[3]) is Err {
        Err(scalar_of(f[3])->Err_0)
    } else if scalar_of(f[4]) is Err {
        Err(scalar_of(f[4])->Err_0)
    } else if scalar_of(f[5]) is Err {
        Err(scalar_of(f[5])->Err_0)
    } else {
        let b = BoundingBox {
            min_x: scalar_of(f[0])->Ok_0,
            max_x: scalar_of(f[1])->Ok_0,
            min_y: scalar_of(f[2])->Ok_0,
            max_y: scalar_of(f[3])->Ok_0,
            min_z: scalar_of(f[4])->Ok_0,
            max_z: scalar_of(f[5])->Ok_0,
        };
        if b.ordered() {
            Ok(b)
        } else {
            Err(LineError::Order)
        }
    }
}

/// The words that a list of ranges cuts out of the data.
spec fn words_at(data: Seq<u8>, ranges: Seq<(usize, usize)>) -> Seq<Seq<u8>> {
    Seq::new(ranges.len(), |k: int| data.subrange(ranges[k].0 as int, ranges[k].1 as int))
}

/// Finds the fields of the line from `start` to `end`.
fn split_fields(data: &[u8], start: usize, end: usize) -> (r: Vec<(usize, usize)>)
    requires
        start <= end <= data@.len(),
    ensures
        words_at(data@, r@) == fields(data@.subrange(start as int, end as int)),
        forall|k: int| 0 <= k < r@.len() ==> start <= (#[trigger] r@[k]).0 <= r@[k].1 <= end,
{
    let mut out: Vec<(usize, usize)> = Vec::new();
    let mut pos: usize = start;
    let ghost line = data@.subrange(start as int, end as int);
    assert(words_at(data@, out@) =~= Seq::<Seq<u8>>::empty());
    loop
        invariant
            start <= pos <= end <= data@.len(),
            line == data@.subrange(start as int, end as int),
            fields(line) == words_at(data@, out@) + fields(data@.subrange(pos as int, end as int)),
            forall|k: int| 0 <= k < out@.len() ==> start <= (#[trigger] out@[k]).0 <= out@[k].1 <= end,
        ensures
            fields(line) == words_at(data@, out@),
            forall|k: int| 0 <= k < out@.len() ==> start <= (#[trigger] out@[k]).0 <= out@[k].1 <= end,
        decreases end - pos,
    {
        let ghost rest = data@.subrange(pos as int, end as int);
        let begin = scan(data, pos, end, ByteClass::Blank);
        let stop = scan(data, begin, end, ByteClass::InWord);
        let ghost word = rest.skip(span(rest, ByteClass::Blank) as int);
        assert(word =~= data@.subrange(begin as int, end as int));
        if stop == begin {
            assert(fields(rest) =~= Seq::<Seq<u8>>::empty());
            break ;
        }
        proof {
            let n = span(word, ByteClass::InWord) as int;
            assert(n == stop - begin);
            assert(word.take(n) =~= data@.subrange(begin as int, stop as int));
            assert(word.skip(n) =~= data@.subrange(stop as int, end as int));
            assert(fields(rest) == seq![data@.subrange(begin as int, stop as int)] + fields(
                data@.subrange(stop as int, end as int),
            ));
            let before = out@;
            let after = before.push((begin, stop));
            assert(words_at(data@, after) =~= words_at(data@, before) + seq![
                data@.subrange(begin as int, stop as int),
            ]);
        }
        out.push((begin, stop));
        pos = stop;
    }
    out
}

/// Reads the line from `start` to `end` as a box.
pub fn parse_line(data: &[u8], start: usize, end: usize) -> (r: Result<BoundingBox, LineError>)
    requires
        start <= end <= data@.len(),
    ensures
        r == box_of(data@.subrange(start as int, end as int)),
        r is Ok ==> (r->Ok_0).wf(),
{
    let f = split_fields(data, start, end);
    let ghost words = fields(data@.subrange(start as int, end as int));
    assert(words.len() == f@.len());
    if f.len() != 6 {
        return Err(LineError::Fields);
    }
    assert(forall|k: int| 0 <= k < 6 ==> words[k] == words_at(data@, f@)[k]);
    let min_x = match parse_scalar(data, f[0].0, f[0].1) {
        Ok(v) => v,
        Err(e) => {
            return Err(e);
        },
    };
    let max_x = match parse_scalar(data, f[1].0, f[1].1) {
        Ok(v) => v,
        Err(e) => {
            return Err(e);
        },
    };
    let min_y = match parse_scalar(data, f[2].0, f[2].1) {
        Ok(v) => v,
        Err(e) => {
            return Err(e);
        },
    };
    let max_y = match parse_scalar(data, f[3].0, f[3].1) {
        Ok(v) => v,
        Err(e) => {
            return Err(e);
        },
    };
    let min_z = match parse_scalar(data, f[4].0, f[4].1) {
        Ok(v) => v,
        Err(e) => {
            return Err(e);
        },
    };
    let max_z = match parse_scalar(data, f[5].0, f[5].1) {
        Ok(v) => v,
        Err(e) => {
            return Err(e);
        },
    };
    let b = BoundingBox { min_x, max_x, min_y, max_y, min_z, max_z };
    if min_x <= max_x && min_y <= max_y && min_z <= max_z {
        Ok(b)
    } else {
        Err(LineError::Order)
    }
}

/// The first fault of a level-geometry file.
#[derive(Clone, Copy, Debug, PartialEq, Eq, Structural)]
pub struct LoadError {
    /// The place of the faulty line among the lines of the file, counted
    /// from zero.
    pub line: usize,
    pub kind: LineError,
}

impl BoundingBox {
    /// Reads the contents of a level-geometry file: one box for each line,
    /// in the order of the file. The first line that describes no box
    /// fails the whole file, and no box is handed out.
    pub fn from_bytes(data: &[u8]) -> (r: Result<Vec<BoundingBox>, LoadError>)
        ensures
            match r {
                Ok(boxes) => {
                    &&& boxes@.len() == lines(data@).len()
                    &&& forall|i: int|
                        0 <= i < boxes@.len() ==> box_of(#[trigger] lines(data@)[i]) == Ok::<
                            BoundingBox,
                            LineError,
                        >(boxes@[i])
                    &&& forall|i: int| 0 <= i < boxes@.len() ==> (#[trigger] boxes@[i]).wf()
                },
                Err(e) => {
                    &&& e.line < lines(data@).len()
                    &&& box_of(lines(data@)[e.line as int]) == Err::<BoundingBox, LineError>(e.kind)
                    &&& forall|j: int| 0 <= j < e.line ==> box_of(#[trigger] lines(data@)[j]) is Ok
                },
            },
    {
        let mut boxes: Vec<BoundingBox> = Vec::new();
        let mut pos: usize = 0;
        let ghost mut done: Seq<Seq<u8>> = Seq::empty();
        assert(data@.subrange(0, data@.len() as int) =~= data@);
        while pos < data.len()
            invariant
                pos <= data@.len(),
                boxes@.len() <= pos,
                boxes@.len() == done.len(),
                lines(data@) == done + lines(data@.subrange(pos as int, data@.len() as int)),
                forall|i: int|
                    0 <= i < boxes@.len() ==> box_of(#[trigger] done[i]) == Ok::<
                        BoundingBox,
                        LineError,
                    >(boxes@[i]),
                forall|i: int| 0 <= i < boxes@.len() ==> (#[trigger] boxes@[i]).wf(),
            decreases data@.len() - pos,
        {
            let ghost rest = data@.subrange(pos as int, data@.len() as int);
            let end = scan(data, pos, data.len(), ByteClass::InLine);
            let ghost line = data@.subrange(pos as int, end as int);
            let next: usize = if end < data.len() {
                end + 1
            } else {
                end
            };
            proof {
                let n = span(rest, ByteClass::InLine) as int;
                assert(n == end - pos);
                if end < data@.len() {
                    assert(rest.take(n) =~= line);
                    assert(rest.skip(n + 1) =~= data@.subrange(next as int, data@.len() as int));
                } else {
                    assert(rest =~= line);
                    assert(data@.subrange(next as int, data@.len() as int) =~= Seq::<u8>::empty());
                }
                assert(lines(rest) =~= seq![line] + lines(
                    data@.subrange(next as int, data@.len() as int),
                ));
                assert(lines(data@) =~= done.push(line) + lines(
                    data@.subrange(next as int, data@.len() as int),
                ));
                assert(lines(data@)[done.len() as int] == line);
                assert forall|j: int| 0 <= j < done.len() implies lines(data@)[j] == done[j] by {}
            }
            match parse_line(data, pos, end) {
                Ok(b) => {
                    boxes.push(b);
                    proof {
                        done = done.push(line);
                    }
                },
                Err(kind) => {
                    return Err(LoadError { line: boxes.len(), kind });
                },
            }
            pos = next;
        }
        proof {
            assert(lines(data@.subrange(pos as int, data@.len() as int)) =~= Seq::<
                Seq<u8>,
            >::empty());
            assert(lines(data@) =~= done);
        }
        Ok(boxes)
    }
}

} // verus!
