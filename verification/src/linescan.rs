use vstd::prelude::*;

use crate::numfmt::pow10;

verus! {

/// A decimal digit character.
pub open spec fn is_digit(c: char) -> bool {
    48 <= c as u32 && c as u32 <= 57
}

/// The value of one digit character.
pub open spec fn dval(c: char) -> nat {
    ((c as u32) - 48) as nat
}

/// The first position at or after `i` that does not hold a digit (the length
/// of the line if digits run to its end).
pub open spec fn digit_run_end(s: Seq<char>, i: int) -> int
    decreases s.len() - i,
{
    if i < s.len() && is_digit(s[i]) {
        digit_run_end(s, i + 1)
    } else {
        i
    }
}

/// What `digit_run_end` returns: a position between `i` and the end, with
/// digits everywhere before it and none at it.
pub proof fn lemma_digit_run_end(s: Seq<char>, i: int)
    requires
        0 <= i <= s.len(),
    ensures
        i <= digit_run_end(s, i) <= s.len(),
        forall|j: int| i <= j < digit_run_end(s, i) ==> is_digit(s[j]),
        digit_run_end(s, i) < s.len() ==> !is_digit(s[digit_run_end(s, i)]),
    decreases s.len() - i,
{
    if i < s.len() && is_digit(s[i]) {
        lemma_digit_run_end(s, i + 1);
    }
}

/// The numeric value of a run of digit characters, most significant first.
pub open spec fn digits_val(s: Seq<char>) -> nat
    decreases s.len(),
{
    if s.len() == 0 {
        0
    } else {
        digits_val(s.drop_last()) * 10 + dval(s.last())
    }
}

/// A longer digit run never has a smaller value.
pub proof fn lemma_digits_val_mono(s: Seq<char>, start: int, k: int, end: int)
    requires
        0 <= start <= k <= end <= s.len(),
    ensures
        digits_val(s.subrange(start, end)) >= digits_val(s.subrange(start, k)),
    decreases end - k,
{
    if k < end {
        assert(s.subrange(start, k + 1).drop_last() =~= s.subrange(start, k));
        assert(digits_val(s.subrange(start, k + 1)) == digits_val(s.subrange(start, k)) * 10
            + dval(s.subrange(start, k + 1).last()));
        lemma_digits_val_mono(s, start, k + 1, end);
    }
}

/// The value of the fraction digits `ds`, read as the first `width` places
/// after a decimal point: digits beyond `width` are cut off, missing places
/// count as zero.
pub open spec fn frac_scaled(ds: Seq<char>, width: nat) -> nat
    decreases width,
{
    if width == 0 {
        0
    } else {
        (if ds.len() > 0 {
            dval(ds.first())
        } else {
            0
        }) * pow10((width - 1) as nat) + frac_scaled(
            if ds.len() > 0 {
                ds.drop_first()
            } else {
                ds
            },
            (width - 1) as nat,
        )
    }
}

/// The fraction part always stays below one whole unit.
pub proof fn lemma_frac_scaled_bound(ds: Seq<char>, width: nat)
    requires
        forall|j: int| 0 <= j < ds.len() ==> is_digit(ds[j]),
    ensures
        frac_scaled(ds, width) < pow10(width),
    decreases width,
{
    if width == 0 {
    } else {
        let w1 = (width - 1) as nat;
        let d: nat = if ds.len() > 0 {
            dval(ds.first())
        } else {
            0
        };
        let rest = if ds.len() > 0 {
            ds.drop_first()
        } else {
            ds
        };
        lemma_frac_scaled_bound(rest, w1);
        crate::numfmt::lemma_pow10_pos(w1);
        assert(d <= 9 ==> d * pow10(w1) <= 9 * pow10(w1)) by (nonlinear_arith);
        assert(9 * pow10(w1) + pow10(w1) == 10 * pow10(w1)) by (nonlinear_arith);
    }
}

/// Where the integer part of a captured number ends: the line is scanned for
/// digits right after the marker.
pub open spec fn cap_int_end(s: Seq<char>, m: Seq<char>) -> int {
    digit_run_end(s, m.len() as int)
}

/// Where the fraction part of a captured number ends: digits are scanned
/// right after the single separator character.
pub open spec fn cap_frac_end(s: Seq<char>, m: Seq<char>) -> int {
    digit_run_end(s, cap_int_end(s, m) + 1)
}

/// Whether the line matches the numeric-field shape: the marker as prefix,
/// then at least one digit, one separator character of any kind, and at least
/// one more digit; when `needs_seconds` is set, a space and an `s` must follow
/// the fraction digits.
pub open spec fn num_match(s: Seq<char>, m: Seq<char>, needs_seconds: bool) -> bool {
    let p = m.len() as int;
    let a = cap_int_end(s, m);
    let b = cap_frac_end(s, m);
    &&& m.is_prefix_of(s)
    &&& a > p
    &&& b > a + 1
    &&& (needs_seconds ==> b + 2 <= s.len() && s[b] == ' ' && s[b + 1] == 's')
}

/// A matched capture parses as a number only when its separator is a decimal
/// point.
pub open spec fn num_sep_ok(s: Seq<char>, m: Seq<char>) -> bool {
    s[cap_int_end(s, m)] == '.'
}

/// The captured value in units of `10^-width`.
pub open spec fn num_scaled(s: Seq<char>, m: Seq<char>, width: nat) -> nat {
    let p = m.len() as int;
    let a = cap_int_end(s, m);
    let b = cap_frac_end(s, m);
    digits_val(s.subrange(p, a)) * pow10(width) + frac_scaled(s.subrange(a + 1, b), width)
}

/// Whether the captured value can be held in a 64-bit count of `10^-width`
/// units.
pub open spec fn num_fits(s: Seq<char>, m: Seq<char>, width: nat) -> bool {
    num_scaled(s, m, width) <= u64::MAX
}

/// A matched capture is usable when it is a decimal number and fits.
pub open spec fn num_parse_ok(s: Seq<char>, m: Seq<char>, width: nat) -> bool {
    num_sep_ok(s, m) && num_fits(s, m, width)
}

/// A line that cannot be read as a number: the shape matched, but the capture
/// is not usable.
#[derive(Debug, Clone, Copy, PartialEq, Eq, Structural)]
pub enum ParseError {
    /// The separator inside the captured number is not a decimal point.
    MalformedNumber,
    /// The captured value does not fit the record's 64-bit field.
    NumberTooLarge,
}

/// The error a given unusable capture produces.
pub open spec fn num_error(s: Seq<char>, m: Seq<char>, width: nat) -> ParseError {
    if !num_sep_ok(s, m) {
        ParseError::MalformedNumber
    } else {
        ParseError::NumberTooLarge
    }
}

pub(crate) fn has_prefix(line: &str, marker: &str, n: usize) -> (r: bool)
    requires
        n == line@.len(),
    ensures
        r <==> marker@.is_prefix_of(line@),
{
    let p = marker.unicode_len();
    if p > n {
        return false;
    }
    let mut k: usize = 0;
    while k < p
        invariant
            0 <= k <= p <= n,
            n == line@.len(),
            p == marker@.len(),
            forall|j: int| 0 <= j < k ==> line@[j] == marker@[j],
        decreases p - k,
    {
        if line.get_char(k) != marker.get_char(k) {
            assert(line@.subrange(0, p as int)[k as int] != marker@[k as int]);
            return false;
        }
        k += 1;
    }
    assert(line@.subrange(0, p as int) =~= marker@);
    true
}

pub(crate) fn scan_digit_run(line: &str, from: usize, n: usize) -> (e: usize)
    requires
        n == line@.len(),
        from <= n,
    ensures
        e == digit_run_end(line@, from as int),
        from <= e <= n,
{
    let mut k = from;
    loop
        invariant
            from <= k <= n,
            n == line@.len(),
            digit_run_end(line@, from as int) == digit_run_end(line@, k as int),
        decreases n - k,
    {
        if k >= n {
            return k;
        }
        let c = line.get_char(k);
        let u = c as u32;
        if !(48 <= u && u <= 57) {
            return k;
        }
        k += 1;
    }
}

pub(crate) fn parse_int_part(line: &str, start: usize, end: usize, n: usize) -> (r: Option<u64>)
    requires
        n == line@.len(),
        start <= end <= n,
        forall|j: int| start <= j < end ==> is_digit(line@[j]),
    ensures
        match r {
            Some(v) => v == digits_val(line@.subrange(start as int, end as int)),
            None => digits_val(line@.subrange(start as int, end as int)) > u64::MAX,
        },
{
    let mut acc: u64 = 0;
    let mut k = start;
    while k < end
        invariant
            start <= k <= end <= n,
            n == line@.len(),
            forall|j: int| start <= j < end ==> is_digit(line@[j]),
            acc == digits_val(line@.subrange(start as int, k as int)),
        decreases end - k,
    {
        let c = line.get_char(k);
        let d = ((c as u32) - 48) as u64;
        proof {
            assert(line@.subrange(start as int, k as int + 1).drop_last() =~= line@.subrange(
                start as int,
                k as int,
            ));
        }
        let next = match acc.checked_mul(10) {
            Some(t) => t.checked_add(d),
            None => None,
        };
        match next {
            Some(v) => {
                acc = v;
            },
            None => {
                proof {
                    lemma_digits_val_mono(line@, start as int, k as int + 1, end as int);
                }
                return None;
            },
        }
        k += 1;
    }
    Some(acc)
}

pub(crate) fn parse_frac_part(line: &str, start: usize, end: usize, width: usize, n: usize) -> (v: u64)
    requires
        n == line@.len(),
        start <= end <= n,
        width <= 4,
        forall|j: int| start <= j < end ==> is_digit(line@[j]),
    ensures
        v == frac_scaled(line@.subrange(start as int, end as int), width as nat),
        v < pow10(width as nat),
    decreases width,
{
    proof {
        reveal_with_fuel(pow10, 6);
    }
    if width == 0 {
        0
    } else {
        let ds = Ghost(line@.subrange(start as int, end as int));
        if start < end {
            let c = line.get_char(start);
            let d = ((c as u32) - 48) as u64;
            let sub = parse_frac_part(line, start + 1, end, width - 1, n);
            proof {
                assert(ds@.drop_first() =~= line@.subrange(start as int + 1, end as int));
                lemma_frac_scaled_bound(ds@.drop_first(), (width - 1) as nat);
                assert(d <= 9 && sub < pow10((width - 1) as nat) ==> d * pow10(
                    (width - 1) as nat,
                ) + sub < 10 * pow10((width - 1) as nat)) by (nonlinear_arith);
            }
            let p = crate::numfmt::pow10_exec(width - 1);
            d * p + sub
        } else {
            let sub = parse_frac_part(line, start, end, width - 1, n);
            sub
        }
    }
}

/// Tries to read a numeric field from the line: `Ok(None)` when the line does
/// not have the marker-and-number shape, `Ok(Some(v))` with the captured
/// value in `10^-width` units, and an error when the shape matched but the
/// capture is not a usable number.
pub fn match_number(line: &str, marker: &str, width: usize, needs_seconds: bool) -> (r: Result<
    Option<u64>,
    ParseError,
>)
    requires
        width <= 4,
    ensures
        match r {
            Ok(None) => !num_match(line@, marker@, needs_seconds),
            Ok(Some(v)) => num_match(line@, marker@, needs_seconds) && num_parse_ok(
                line@,
                marker@,
                width as nat,
            ) && v == num_scaled(line@, marker@, width as nat),
            Err(e) => num_match(line@, marker@, needs_seconds) && !num_parse_ok(
                line@,
                marker@,
                width as nat,
            ) && e == num_error(line@, marker@, width as nat),
        },
{
    let n = line.unicode_len();
    if !has_prefix(line, marker, n) {
        return Ok(None);
    }
    let p = marker.unicode_len();
    let a = scan_digit_run(line, p, n);
    proof {
        lemma_digit_run_end(line@, p as int);
    }
    if a == p {
        return Ok(None);
    }
    if a == n {
        return Ok(None);
    }
    let b = scan_digit_run(line, a + 1, n);
    proof {
        lemma_digit_run_end(line@, a as int + 1);
    }
    if b == a + 1 {
        return Ok(None);
    }
    if needs_seconds {
        if b > n - 2 {
            return Ok(None);
        }
        if line.get_char(b) != ' ' || line.get_char(b + 1) != 's' {
            return Ok(None);
        }
    }
    let c = line.get_char(a);
    if c != '.' {
        return Err(ParseError::MalformedNumber);
    }
    let int_part = parse_int_part(line, p, a, n);
    let ghost w = width as nat;
    proof {
        crate::numfmt::lemma_pow10_pos(w);
    }
    match int_part {
        None => {
            proof {
                let d1 = digits_val(line@.subrange(p as int, a as int));
                assert(d1 > u64::MAX && pow10(w) >= 1 ==> d1 * pow10(w) >= d1)
                    by (nonlinear_arith);
            }
            Err(ParseError::NumberTooLarge)
        },
        Some(d1) => {
            let f = parse_frac_part(line, a + 1, b, width, n);
            let pw = crate::numfmt::pow10_exec(width);
            let scaled = match d1.checked_mul(pw) {
                Some(t) => t.checked_add(f),
                None => None,
            };
            match scaled {
                Some(v) => Ok(Some(v)),
                None => Err(ParseError::NumberTooLarge),
            }
        },
    }
}

} // verus!
