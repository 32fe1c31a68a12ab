//! Numbers as ASCII text: reading unsigned decimals, and writing decimals and
//! hexadecimal digits.

use vstd::prelude::*;
use crate::octets::copy_range;

verus! {

/// An ASCII decimal digit.
pub open spec fn is_digit(b: u8) -> bool {
    48 <= b && b <= 57
}

/// Whether every byte of `s` is a decimal digit.
pub open spec fn all_digits(s: Seq<u8>) -> bool {
    forall|i: int| 0 <= i < s.len() ==> is_digit(#[trigger] s[i])
}

/// The number that the digits of `s` spell, most significant first.
pub open spec fn digits_value(s: Seq<u8>) -> nat
    decreases s.len(),
{
    if s.len() == 0 {
        0
    } else {
        digits_value(s.drop_last()) * 10 + if is_digit(s.last()) {
            (s.last() - 48) as nat
        } else {
            0
        }
    }
}

/// The digits of an unsigned decimal: `s` itself, or `s` after one leading `+`.
pub open spec fn unsigned_digits(s: Seq<u8>) -> Seq<u8> {
    if s.len() > 0 && s[0] == 43 {
        s.skip(1)
    } else {
        s
    }
}

/// The value of `s` read as an unsigned decimal no greater than `max`: an
/// optional `+`, then one or more digits and nothing else.
pub open spec fn parse_uint(s: Seq<u8>, max: nat) -> Option<nat> {
    let d = unsigned_digits(s);
    if d.len() > 0 && all_digits(d) && digits_value(d) <= max {
        Some(digits_value(d))
    } else {
        None
    }
}

/// Digits spell no smaller a number than any of their prefixes.
pub proof fn lemma_digits_value_prefix(s: Seq<u8>, k: int)
    requires
        0 <= k <= s.len(),
    ensures
        digits_value(s.take(k)) <= digits_value(s),
    decreases s.len(),
{
    if k == s.len() {
        assert(s.take(k) =~= s);
    } else {
        assert(s.drop_last().take(k) =~= s.take(k));
        lemma_digits_value_prefix(s.drop_last(), k);
    }
}

/// Reads `s` as an unsigned decimal no greater than `max`.
pub fn parse_bounded(s: &[u8], max: u64) -> (r: Option<u64>)
    ensures
        match r {
            Some(v) => parse_uint(s@, max as nat) == Some(v as nat),
            None => parse_uint(s@, max as nat).is_none(),
        },
{
    let start: usize = if s.len() > 0 && s[0] == 43 { 1 } else { 0 };
    let ghost d = unsigned_digits(s@);
    assert(d =~= s@.skip(start as int));
    if start >= s.len() {
        return None;
    }
    let mut acc: u64 = 0;
    let mut i: usize = start;
    assert(d.take(0) =~= Seq::<u8>::empty());
    while i < s.len()
        invariant
            start <= i <= s@.len(),
            d == s@.skip(start as int),
            d == unsigned_digits(s@),
            all_digits(d.take(i - start)),
            acc as nat == digits_value(d.take(i - start)),
            acc <= max,
        decreases s@.len() - i,
    {
        let b: u8 = s[i];
        let ghost next = d.take(i + 1 - start);
        assert(next.drop_last() =~= d.take(i - start));
        assert(next.last() == b);
        assert(d[i - start] == b);
        if b < 48 || b > 57 {
            assert(!is_digit(d[i - start]));
            return None;
        }
        let digit: u64 = (b - 48) as u64;
        if digit > max || acc > (max - digit) / 10 {
            proof {
                assert(digits_value(next) > max);
                lemma_digits_value_prefix(d, i + 1 - start);
            }
            return None;
        }
        acc = acc * 10 + digit;
        i += 1;
    }
    assert(d.take(i - start) =~= d);
    Some(acc)
}

/// The decimal digits of `n`, without leading zeros.
pub open spec fn decimal(n: nat) -> Seq<u8>
    decreases n,
{
    if n < 10 {
        seq![(48 + n) as u8]
    } else {
        decimal(n / 10).push((48 + n % 10) as u8)
    }
}

/// Reading the decimal digits of a number gives the number back.
pub proof fn lemma_decimal_round_trip(n: nat)
    ensures
        decimal(n).len() > 0,
        all_digits(decimal(n)),
        digits_value(decimal(n)) == n,
        decimal(n)[0] != 43,
        decimal(n)[0] != 45,
        forall|max: nat| n <= max ==> parse_uint(decimal(n), max) == Some(n),
    decreases n,
{
    if n < 10 {
        let s = decimal(n);
        assert(s.drop_last() =~= Seq::<u8>::empty());
        assert(digits_value(s.drop_last()) == 0);
    } else {
        lemma_decimal_round_trip(n / 10);
        let s = decimal(n);
        assert(s.drop_last() =~= decimal(n / 10));
        assert(s[0] == decimal(n / 10)[0]);
    }
}

/// Appends the decimal digits of `n` to `out`.
pub fn push_decimal(out: &mut Vec<u8>, n: u64)
    ensures
        final(out)@ == old(out)@ + decimal(n as nat),
    decreases n,
{
    if n >= 10 {
        push_decimal(out, n / 10);
    }
    out.push(48 + (n % 10) as u8);
    assert(out@ =~= old(out)@ + decimal(n as nat));
}

/// `count` zero digits.
pub open spec fn zeros(count: nat) -> Seq<u8> {
    Seq::new(count, |i: int| 48u8)
}

/// The decimal digits of `n`, padded on the left with zeros to `width` digits.
pub open spec fn decimal_padded(n: nat, width: nat) -> Seq<u8> {
    let d = decimal(n);
    if d.len() < width {
        zeros((width - d.len()) as nat) + d
    } else {
        d
    }
}

/// Appends the decimal digits of `n` to `out`, padded with zeros to `width`.
pub fn push_decimal_padded(out: &mut Vec<u8>, n: u64, width: usize)
    ensures
        final(out)@ == old(out)@ + decimal_padded(n as nat, width as nat),
{
    let mut digits: Vec<u8> = Vec::new();
    push_decimal(&mut digits, n);
    assert(digits@ =~= decimal(n as nat));
    let pad: usize = if digits.len() < width { width - digits.len() } else { 0 };
    let mut k: usize = 0;
    assert(out@ =~= old(out)@ + zeros(0));
    while k < pad
        invariant
            k <= pad,
            out@ == old(out)@ + zeros(k as nat),
        decreases pad - k,
    {
        out.push(48);
        k += 1;
        assert(out@ =~= old(out)@ + zeros(k as nat));
    }
    out.extend_from_slice(digits.as_slice());
    assert(out@ =~= old(out)@ + decimal_padded(n as nat, width as nat));
}

/// The hexadecimal digit for `v`, in the chosen case. Meaningful below 16.
pub open spec fn hex_digit(v: nat, upper: bool) -> u8 {
    if v < 10 {
        (48 + v) as u8
    } else if upper {
        (55 + v) as u8
    } else {
        (87 + v) as u8
    }
}

/// The two hexadecimal digits of one byte.
pub open spec fn hex_byte(b: u8, upper: bool) -> Seq<u8> {
    seq![hex_digit((b / 16) as nat, upper), hex_digit((b % 16) as nat, upper)]
}

/// The hexadecimal digits of `s`, two for each byte.
pub open spec fn hex(s: Seq<u8>, upper: bool) -> Seq<u8>
    decreases s.len(),
{
    if s.len() == 0 {
        Seq::empty()
    } else {
        hex(s.drop_last(), upper) + hex_byte(s.last(), upper)
    }
}

/// The hexadecimal digits of `s` are twice as many as its bytes.
pub proof fn lemma_hex_len(s: Seq<u8>, upper: bool)
    ensures
        hex(s, upper).len() == 2 * s.len(),
    decreases s.len(),
{
    if s.len() > 0 {
        lemma_hex_len(s.drop_last(), upper);
    }
}

/// The ASCII code of one hexadecimal digit.
pub fn hex_digit_of(v: u8, upper: bool) -> (r: u8)
    requires
        v < 16,
    ensures
        r == hex_digit(v as nat, upper),
{
    if v < 10 {
        48 + v
    } else if upper {
        55 + v
    } else {
        87 + v
    }
}

/// Appends the two hexadecimal digits of `b` to `out`.
pub fn push_hex_byte(out: &mut Vec<u8>, b: u8, upper: bool)
    ensures
        final(out)@ == old(out)@ + hex_byte(b, upper),
{
    out.push(hex_digit_of(b / 16, upper));
    out.push(hex_digit_of(b % 16, upper));
    assert(out@ =~= old(out)@ + hex_byte(b, upper));
}

/// Appends the hexadecimal digits of `data` to `out`.
pub fn push_hex(out: &mut Vec<u8>, data: &[u8], upper: bool)
    ensures
        final(out)@ == old(out)@ + hex(data@, upper),
{
    let mut i: usize = 0;
    assert(data@.take(0) =~= Seq::<u8>::empty());
    assert(out@ =~= old(out)@ + hex(data@.take(0), upper));
    while i < data.len()
        invariant
            i <= data@.len(),
            out@ == old(out)@ + hex(data@.take(i as int), upper),
        decreases data@.len() - i,
    {
        let ghost before = out@;
        push_hex_byte(out, data[i], upper);
        i += 1;
        assert(data@.take(i as int).drop_last() =~= data@.take(i - 1));
        assert(out@ =~= old(out)@ + hex(data@.take(i as int), upper));
    }
    assert(data@.take(i as int) =~= data@);
}

/// Number of decimal digits at the front of `s`.
pub open spec fn digit_run(s: Seq<u8>) -> nat
    decreases s.len(),
{
    if s.len() > 0 && is_digit(s[0]) {
        1 + digit_run(s.skip(1))
    } else {
        0
    }
}

/// The leading run of digits lies within the text, holds only digits, and
/// ends at the end of the text or before a byte that is no digit.
pub proof fn lemma_digit_run(s: Seq<u8>)
    ensures
        digit_run(s) <= s.len(),
        all_digits(s.take(digit_run(s) as int)),
        digit_run(s) < s.len() ==> !is_digit(s[digit_run(s) as int]),
    decreases s.len(),
{
    if s.len() > 0 && is_digit(s[0]) {
        lemma_digit_run(s.skip(1));
        let n = digit_run(s);
        assert forall|i: int| 0 <= i < n implies is_digit(#[trigger] s.take(n as int)[i]) by {
            if i > 0 {
                assert(s.take(n as int)[i] == s.skip(1).take(n - 1)[i - 1]);
            }
        }
    }
}

/// The value of the digit at index `i` of `s`; zero past its end.
pub open spec fn digit_or_zero(s: Seq<u8>, i: int) -> nat {
    if 0 <= i < s.len() && is_digit(s[i]) {
        (s[i] - 48) as nat
    } else {
        0
    }
}

/// The thousandths that the fraction digits `frac` stand for, rounded to the
/// nearest: the first three digits, plus one when the fourth is 5 or more.
pub open spec fn fraction_milli(frac: Seq<u8>) -> nat {
    100 * digit_or_zero(frac, 0) + 10 * digit_or_zero(frac, 1) + digit_or_zero(frac, 2) + if
        digit_or_zero(frac, 3) >= 5 {
        1nat
    } else {
        0nat
    }
}

/// A decimal without its sign: `s` itself, or `s` after one leading `+` or `-`.
pub open spec fn signed_body(s: Seq<u8>) -> Seq<u8> {
    if s.len() > 0 && (s[0] == 43 || s[0] == 45) {
        s.skip(1)
    } else {
        s
    }
}

/// The fraction digits of an unsigned decimal: what follows the point that
/// follows the whole digits.
pub open spec fn fraction_digits(body: Seq<u8>) -> Seq<u8> {
    let rest = body.skip(digit_run(body) as int);
    if rest.len() > 0 {
        rest.skip(1)
    } else {
        rest
    }
}

/// Whether `s` is a plain decimal: an optional sign, digits, and optionally a
/// point and more digits, with at least one digit in all.
pub open spec fn is_decimal(s: Seq<u8>) -> bool {
    let body = signed_body(s);
    let w = digit_run(body) as int;
    let rest = body.skip(w);
    &&& rest.len() > 0 ==> rest[0] == 46
    &&& all_digits(fraction_digits(body))
    &&& w + fraction_digits(body).len() > 0
}

/// The magnitude of a plain decimal in thousandths.
pub open spec fn decimal_magnitude(s: Seq<u8>) -> nat {
    let body = signed_body(s);
    digits_value(body.take(digit_run(body) as int)) * 1000 + fraction_milli(fraction_digits(body))
}

/// The value of the plain decimal `s` in thousandths, rounded to the nearest,
/// when its magnitude fits 63 bits.
pub open spec fn milli_value(s: Seq<u8>) -> Option<int> {
    if is_decimal(s) && decimal_magnitude(s) <= i64::MAX {
        if s[0] == 45 {
            Some(-(decimal_magnitude(s) as int))
        } else {
            Some(decimal_magnitude(s) as int)
        }
    } else {
        None
    }
}

/// Tests whether every byte of `s[from..]` is a digit.
pub fn digits_from(s: &[u8], from: usize) -> (r: bool)
    requires
        from <= s@.len(),
    ensures
        r == all_digits(s@.skip(from as int)),
{
    let mut i: usize = from;
    while i < s.len()
        invariant
            from <= i <= s@.len(),
            all_digits(s@.skip(from as int).take(i - from)),
        decreases s@.len() - i,
    {
        if s[i] < 48 || s[i] > 57 {
            assert(!is_digit(s@.skip(from as int)[i - from]));
            return false;
        }
        i += 1;
        assert forall|k: int| 0 <= k < i - from implies is_digit(
            #[trigger] s@.skip(from as int).take(i - from)[k],
        ) by {
            if k < i - from - 1 {
                assert(s@.skip(from as int).take(i - from)[k] == s@.skip(from as int).take(
                    i - 1 - from,
                )[k]);
            }
        }
    }
    assert(s@.skip(from as int).take(i - from) =~= s@.skip(from as int));
    true
}

/// The digit of `s` at `i` as a number; zero past the end of `s`.
fn digit_at(s: &[u8], i: usize) -> (r: u64)
    ensures
        r == digit_or_zero(s@, i as int),
        r <= 9,
{
    if i < s.len() && 48 <= s[i] && s[i] <= 57 {
        (s[i] - 48) as u64
    } else {
        0
    }
}

/// Index after the run of digits that begins at `from`.
fn digits_end(s: &[u8], from: usize) -> (end: usize)
    requires
        from <= s@.len(),
    ensures
        from <= end <= s@.len(),
        end - from == digit_run(s@.skip(from as int)),
{
    let ghost body = s@.skip(from as int);
    let mut end: usize = from;
    assert(body.skip(0) =~= body);
    while end < s.len() && 48 <= s[end] && s[end] <= 57
        invariant
            from <= end <= s@.len(),
            body == s@.skip(from as int),
            digit_run(body) == (end - from) + digit_run(body.skip(end - from)),
        decreases s@.len() - end,
    {
        assert(body.skip(end - from).skip(1) =~= body.skip(end + 1 - from));
        end += 1;
    }
    assert(body.skip(end - from).len() > 0 ==> body.skip(end - from)[0] == s@[end as int]);
    end
}

/// The number that the digits `s[from..end]` spell, when it can be scaled to
/// thousandths within 63 bits.
fn whole_part(s: &[u8], from: usize, end: usize) -> (r: Option<u64>)
    requires
        from <= end <= s@.len(),
        all_digits(s@.subrange(from as int, end as int)),
    ensures
        match r {
            Some(v) => v == digits_value(s@.subrange(from as int, end as int)) && v
                <= 9_223_372_036_854_775,
            None => digits_value(s@.subrange(from as int, end as int)) > 9_223_372_036_854_775,
        },
{
    let digits: Vec<u8> = copy_range(s, from, end);
    if end == from {
        assert(digits@ =~= Seq::<u8>::empty());
        return Some(0);
    }
    assert(is_digit(digits@[0]));
    parse_bounded(digits.as_slice(), 9_223_372_036_854_775)
}

/// The thousandths that the fraction digits `frac` stand for.
fn fraction_part(frac: &[u8]) -> (r: u64)
    ensures
        r == fraction_milli(frac@),
        r <= 1000,
{
    100 * digit_at(frac, 0) + 10 * digit_at(frac, 1) + digit_at(frac, 2) + if digit_at(frac, 3)
        >= 5 { 1 } else { 0 }
}

/// Reads `s` as a plain decimal and gives its value in thousandths.
#[verifier::rlimit(40)]
pub fn parse_milli(s: &[u8]) -> (r: Option<i64>)
    ensures
        match r {
            Some(v) => milli_value(s@) == Some(v as int),
            None => milli_value(s@).is_none(),
        },
{
    let negative: bool = s.len() > 0 && s[0] == 45;
    let start: usize = if s.len() > 0 && (s[0] == 43 || s[0] == 45) { 1 } else { 0 };
    let ghost body = signed_body(s@);
    assert(body =~= s@.skip(start as int));
    let end: usize = digits_end(s, start);
    let ghost rest = body.skip(end - start);
    assert(rest.len() > 0 ==> rest[0] == s@[end as int]);
    if end < s.len() && s[end] != 46 {
        return None;
    }
    let frac_start: usize = if end < s.len() { end + 1 } else { end };
    let frac: Vec<u8> = copy_range(s, frac_start, s.len());
    assert(frac@ =~= fraction_digits(body));
    assert(frac@.skip(0) =~= frac@);
    if !digits_from(frac.as_slice(), 0) {
        return None;
    }
    if end == start && frac.len() == 0 {
        return None;
    }
    proof {
        lemma_digit_run(body);
        assert(s@.subrange(start as int, end as int) =~= body.take(digit_run(body) as int));
    }
    assert(is_decimal(s@));
    let whole: u64 = match whole_part(s, start, end) {
        Some(v) => v,
        None => {
            return None;
        },
    };
    let magnitude: u64 = whole * 1000 + fraction_part(frac.as_slice());
    assert(magnitude == decimal_magnitude(s@));
    if magnitude > 9_223_372_036_854_775_807 {
        return None;
    }
    if negative {
        Some(-(magnitude as i64))
    } else {
        Some(magnitude as i64)
    }
}

/// A run of digits that ends the text, or that something other than a
/// digit follows, is counted in full.
pub proof fn lemma_digit_run_of(digits: Seq<u8>, rest: Seq<u8>)
    requires
        all_digits(digits),
        rest.len() == 0 || !is_digit(rest[0]),
    ensures
        digit_run(digits + rest) == digits.len(),
    decreases digits.len(),
{
    let s = digits + rest;
    if digits.len() == 0 {
        assert(s =~= rest);
    } else {
        assert(s[0] == digits[0]);
        assert(s.skip(1) =~= digits.skip(1) + rest);
        assert forall|i: int| 0 <= i < digits.skip(1).len() implies is_digit(
            #[trigger] digits.skip(1)[i],
        ) by {
            assert(digits.skip(1)[i] == digits[i + 1]);
        }
        lemma_digit_run_of(digits.skip(1), rest);
    }
}

} // verus!
