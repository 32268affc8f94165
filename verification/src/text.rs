//! Delimited fields and decimal integers in a byte string.

use vstd::prelude::*;

verus! {

/// The fields of `s` between occurrences of `sep`: one more than the number
/// of separators, an empty text giving one empty field.
pub open spec fn fields(s: Seq<u8>, sep: u8) -> Seq<Seq<u8>>
    decreases s.len(),
{
    if s.len() == 0 {
        seq![Seq::empty()]
    } else {
        let before = fields(s.drop_last(), sep);
        if s.last() == sep {
            before.push(Seq::empty())
        } else {
            before.update(before.len() - 1, before.last().push(s.last()))
        }
    }
}

pub open spec fn is_digit(b: u8) -> bool {
    48 <= b <= 57
}

pub open spec fn all_digits(s: Seq<u8>) -> bool {
    forall|i: int| 0 <= i < s.len() ==> is_digit(#[trigger] s[i])
}

/// The number that a run of decimal digits denotes.
pub open spec fn digits_value(s: Seq<u8>) -> nat
    decreases s.len(),
{
    if s.len() == 0 {
        0
    } else {
        (digits_value(s.drop_last()) * 10 + (s.last() - 48)) as nat
    }
}

/// The integer that a field denotes: an optional `+` or `-`, then one or more
/// decimal digits and nothing else. Any other text denotes none.
pub open spec fn parse_decimal(s: Seq<u8>) -> Option<int> {
    if s.len() > 0 && (s[0] == 43 || s[0] == 45) {
        let digits = s.subrange(1, s.len() as int);
        if digits.len() > 0 && all_digits(digits) {
            Some(if s[0] == 45 { -(digits_value(digits) as int) } else { digits_value(digits) as int })
        } else {
            None
        }
    } else if s.len() > 0 && all_digits(s) {
        Some(digits_value(s) as int)
    } else {
        None
    }
}

/// The integer that a field denotes, if it lies in `lo..=hi`.
pub open spec fn parse_within(s: Seq<u8>, lo: int, hi: int) -> Option<int> {
    match parse_decimal(s) {
        Some(v) => if lo <= v <= hi { Some(v) } else { None },
        None => None,
    }
}

pub open spec fn valid_bounds(bounds: Seq<(usize, usize)>, len: int) -> bool {
    forall|k: int| 0 <= k < bounds.len() ==> (#[trigger] bounds[k]).0 <= bounds[k].1 <= len
}

/// `bounds` gives, field by field, where the fields of `raw` lie in it.
pub open spec fn bounds_of(raw: Seq<u8>, sep: u8, bounds: Seq<(usize, usize)>) -> bool {
    &&& bounds.len() == fields(raw, sep).len()
    &&& bounds.len() >= 1
    &&& valid_bounds(bounds, raw.len() as int)
    &&& forall|k: int| 0 <= k < bounds.len() ==> #[trigger] fields(raw, sep)[k] == raw.subrange(
        bounds[k].0 as int,
        bounds[k].1 as int,
    )
}

/// The integer that a field denotes if it lies in `lo..=hi`, else `default`.
pub open spec fn number_or(field: Seq<u8>, lo: int, hi: int, default: int) -> int {
    match parse_within(field, lo, hi) {
        Some(v) => v,
        None => default,
    }
}

/// Finds where each field of `raw` starts and ends.
pub fn split_fields(raw: &[u8], sep: u8) -> (bounds: Vec<(usize, usize)>)
    ensures
        bounds_of(raw@, sep, bounds@),
{
    let mut bounds: Vec<(usize, usize)> = Vec::new();
    let mut start: usize = 0;
    let mut i: usize = 0;
    let n: usize = raw.len();
    while i < n
        invariant
            n == raw@.len(),
            start <= i <= n,
            fields(raw@.subrange(0, i as int), sep).len() == bounds@.len() + 1,
            valid_bounds(bounds@, i as int),
            forall|k: int| 0 <= k < bounds@.len() ==> #[trigger] fields(raw@.subrange(0, i as int), sep)[k]
                == raw@.subrange(bounds@[k].0 as int, bounds@[k].1 as int),
            fields(raw@.subrange(0, i as int), sep).last() == raw@.subrange(start as int, i as int),
        decreases n - i,
    {
        let ghost prefix = raw@.subrange(0, i as int);
        let ghost next = raw@.subrange(0, i + 1);
        assert(next.drop_last() =~= prefix);
        if raw[i] == sep {
            bounds.push((start, i));
            start = i + 1;
            assert(raw@.subrange(start as int, start as int) =~= Seq::<u8>::empty());
        } else {
            assert(raw@.subrange(start as int, i as int).push(raw@[i as int]) =~= raw@.subrange(
                start as int,
                i + 1,
            ));
        }
        i = i + 1;
    }
    assert(raw@.subrange(0, n as int) =~= raw@);
    bounds.push((start, n));
    bounds
}

proof fn lemma_value_grows(s: Seq<u8>, i: int)
    requires
        0 <= i <= s.len(),
        all_digits(s),
    ensures
        digits_value(s.subrange(0, i)) <= digits_value(s),
    decreases s.len(),
{
    if i < s.len() {
        assert(s.drop_last().subrange(0, i) =~= s.subrange(0, i));
        assert(is_digit(s[s.len() - 1]));
        lemma_value_grows(s.drop_last(), i);
    } else {
        assert(s.subrange(0, i) =~= s);
    }
}

/// Reads the field `raw[start..end]` as a decimal integer of 32 bits.
#[verifier::loop_isolation(false)]
pub fn parse_i32(raw: &[u8], start: usize, end: usize) -> (value: Option<i32>)
    requires
        start <= end <= raw@.len(),
    ensures
        match value {
            Some(v) => parse_within(raw@.subrange(start as int, end as int), i32::MIN as int, i32::MAX as int) == Some(v as int),
            None => parse_within(raw@.subrange(start as int, end as int), i32::MIN as int, i32::MAX as int) is None,
        },
{
    let ghost field = raw@.subrange(start as int, end as int);
    if start >= end {
        return None;
    }
    let negative: bool = raw[start] == 45;
    let first: usize = if negative || raw[start] == 43 { start + 1 } else { start };
    let ghost digits = raw@.subrange(first as int, end as int);
    proof {
        if first > start {
            assert(field.subrange(1, field.len() as int) =~= digits);
        } else {
            assert(field =~= digits);
            if all_digits(field) {
                assert(is_digit(field[0]));
            }
        }
    }
    if first >= end {
        return None;
    }
    let mut acc: i64 = 0;
    let mut i: usize = first;
    while i < end
        invariant
            first <= i <= end <= raw@.len(),
            digits == raw@.subrange(first as int, end as int),
            0 <= acc <= 2147483648,
            all_digits(digits.subrange(0, i - first)),
            acc == digits_value(digits.subrange(0, i - first)),
        decreases end - i,
    {
        let d: u8 = raw[i];
        assert(digits[i - first] == d);
        if d < 48 || d > 57 {
            return None;
        }
        acc = acc * 10 + (d - 48) as i64;
        proof {
            let next = digits.subrange(0, i + 1 - first);
            assert(next.drop_last() =~= digits.subrange(0, i - first));
            if all_digits(digits) {
                lemma_value_grows(digits, i + 1 - first);
            }
        }
        if acc > 2147483648 {
            return None;
        }
        i = i + 1;
    }
    assert(digits.subrange(0, end - first) =~= digits);
    let signed: i64 = if negative { -acc } else { acc };
    if signed > 2147483647 {
        None
    } else {
        Some(signed as i32)
    }
}

/// Copies the field `raw[start..end]`.
pub fn copy_field(raw: &[u8], start: usize, end: usize) -> (text: Vec<u8>)
    requires
        start <= end <= raw@.len(),
    ensures
        text@ == raw@.subrange(start as int, end as int),
{
    let mut text: Vec<u8> = Vec::new();
    let mut i: usize = start;
    while i < end
        invariant
            start <= i <= end <= raw@.len(),
            text@ == raw@.subrange(start as int, i as int),
        decreases end - i,
    {
        text.push(raw[i]);
        assert(text@ =~= raw@.subrange(start as int, i + 1));
        i = i + 1;
    }
    text
}

/// Reads field `k` of `raw`, whose fields lie as `bounds` says, as an integer
/// in `lo..=hi`, or gives `default` where the field is no such integer.
pub fn field_number(raw: &[u8], sep: u8, bounds: &Vec<(usize, usize)>, k: usize, lo: i32, hi: i32, default: i32) -> (value: i32)
    requires
        bounds_of(raw@, sep, bounds@),
        k < bounds@.len(),
    ensures
        value == number_or(fields(raw@, sep)[k as int], lo as int, hi as int, default as int),
{
    let span: (usize, usize) = bounds[k];
    assert(fields(raw@, sep)[k as int] == raw@.subrange(span.0 as int, span.1 as int));
    match parse_i32(raw, span.0, span.1) {
        Some(v) => if lo <= v && v <= hi { v } else { default },
        None => default,
    }
}

/// The decimal digits of `n`, most significant first, without leading zeros.
pub open spec fn decimal_digits(n: nat) -> Seq<u8>
    decreases n,
{
    if n < 10 {
        seq![(48 + n) as u8]
    } else {
        decimal_digits(n / 10).push((48 + n % 10) as u8)
    }
}

/// An integer written in decimal, with `-` before a negative one.
pub open spec fn decimal_text(v: int) -> Seq<u8> {
    if v < 0 {
        seq![45u8] + decimal_digits((-v) as nat)
    } else {
        decimal_digits(v as nat)
    }
}

/// Appends `v` in decimal to `out`.
pub fn push_decimal(out: &mut Vec<u8>, v: i8)
    ensures
        final(out)@ == old(out)@ + decimal_text(v as int),
{
    reveal_with_fuel(decimal_digits, 3);
    let wide: i16 = v as i16;
    let m: u8 = if v < 0 { (-wide) as u8 } else { v as u8 };
    if v < 0 {
        out.push(45);
    }
    if m >= 100 {
        out.push(48 + m / 100);
    }
    if m >= 10 {
        out.push(48 + (m / 10) % 10);
    }
    out.push(48 + m % 10);
    assert(final(out)@ =~= old(out)@ + decimal_text(v as int));
}

proof fn lemma_digits_round_trip(n: nat)
    ensures
        decimal_digits(n).len() >= 1,
        all_digits(decimal_digits(n)),
        digits_value(decimal_digits(n)) == n,
    decreases n,
{
    reveal_with_fuel(digits_value, 2);
    if n >= 10 {
        lemma_digits_round_trip(n / 10);
        assert(decimal_digits(n).drop_last() =~= decimal_digits(n / 10));
    }
}

/// Reading back what was written gives the integer that was written.
pub proof fn lemma_decimal_round_trip(v: int)
    ensures
        parse_decimal(decimal_text(v)) == Some(v),
        forall|i: int| 0 <= i < decimal_text(v).len() ==> decimal_text(v)[i] != 10,
{
    let s = decimal_text(v);
    if v < 0 {
        lemma_digits_round_trip((-v) as nat);
        let d = decimal_digits((-v) as nat);
        assert(s.subrange(1, s.len() as int) =~= d);
        assert(s[0] == 45);
        assert forall|i: int| 0 <= i < s.len() implies s[i] != 10 by {
            if i > 0 {
                assert(is_digit(d[i - 1]));
            }
        }
    } else {
        lemma_digits_round_trip(v as nat);
        assert(is_digit(s[0]));
    }
}

proof fn lemma_fields_grow(s: Seq<u8>, t: Seq<u8>, sep: u8)
    requires
        forall|i: int| 0 <= i < t.len() ==> t[i] != sep,
    ensures
        fields(s, sep).len() >= 1,
        fields(s + t, sep) == fields(s, sep).update(fields(s, sep).len() - 1, fields(s, sep).last() + t),
    decreases s.len() + t.len(),
{
    if s.len() > 0 {
        lemma_fields_grow(s.drop_last(), Seq::empty(), sep);
    }
    let f = fields(s, sep);
    if t.len() == 0 {
        assert(s + t =~= s);
        assert(f.last() + t =~= f.last());
        assert(f.update(f.len() - 1, f.last()) =~= f);
    } else {
        let whole = s + t;
        assert(whole.drop_last() =~= s + t.drop_last());
        assert(whole.last() == t[t.len() - 1]);
        lemma_fields_grow(s, t.drop_last(), sep);
        assert((f.last() + t.drop_last()).push(t.last()) =~= f.last() + t);
        assert(fields(whole, sep) =~= f.update(f.len() - 1, f.last() + t));
    }
}

/// Two texts without a line feed, each followed by one, are read back as
/// those two fields and an empty one.
pub proof fn lemma_fields_of_two_lines(a: Seq<u8>, b: Seq<u8>)
    requires
        forall|i: int| 0 <= i < a.len() ==> a[i] != 10,
        forall|i: int| 0 <= i < b.len() ==> b[i] != 10,
    ensures
        fields(a.push(10) + b.push(10), 10) == seq![a, b, Seq::<u8>::empty()],
{
    let none = Seq::<u8>::empty();
    lemma_fields_grow(none, a, 10);
    assert(none + a =~= a);
    assert(fields(a, 10) =~= seq![a]);
    let first = a.push(10);
    assert(first.drop_last() =~= a);
    assert(fields(first, 10) =~= seq![a, none]);
    lemma_fields_grow(first, b, 10);
    assert(none + b =~= b);
    assert(fields(first + b, 10) =~= seq![a, b]);
    let both = (first + b).push(10);
    assert(both.drop_last() =~= first + b);
    assert(both =~= a.push(10) + b.push(10));
    assert(fields(both, 10) =~= seq![a, b, none]);
}

} // verus!
