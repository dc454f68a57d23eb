use vstd::prelude::*;

verus! {

/// The character for one decimal digit (only the last digit of `d` matters).
pub open spec fn digit_char(d: nat) -> char {
    ((48 + d % 10) as u8) as char
}

/// The decimal representation of a natural number, most significant digit
/// first, with no leading zeroes (a single `'0'` for zero).
pub open spec fn dec_rep(n: nat) -> Seq<char>
    decreases n,
{
    if n < 10 {
        seq![digit_char(n)]
    } else {
        dec_rep(n / 10).push(digit_char(n % 10))
    }
}

/// The decimal representation of `frac`, zero padded on the left to exactly
/// `width` digits; only the `width` least significant digits are shown.
pub open spec fn frac_rep(frac: nat, width: nat) -> Seq<char>
    decreases width,
{
    if width == 0 {
        Seq::empty()
    } else {
        frac_rep(frac / 10, (width - 1) as nat).push(digit_char(frac % 10))
    }
}

/// Ten to the `k`.
pub open spec fn pow10(k: nat) -> nat
    decreases k,
{
    if k == 0 {
        1
    } else {
        10 * pow10((k - 1) as nat)
    }
}

/// A count of `10^-width` units rendered as a decimal fraction: integer part,
/// a dot, and exactly `width` fraction digits.
pub open spec fn fixed_rep(scaled: nat, width: nat) -> Seq<char> {
    dec_rep(scaled / pow10(width)) + seq!['.'] + frac_rep(scaled % pow10(width), width)
}

/// `n` spaces.
pub open spec fn spaces(n: nat) -> Seq<char>
    decreases n,
{
    if n == 0 {
        Seq::empty()
    } else {
        spaces((n - 1) as nat).push(' ')
    }
}

/// `s` right justified in a field of `width` characters (kept whole when wider).
pub open spec fn pad_left_rep(s: Seq<char>, width: nat) -> Seq<char> {
    if s.len() >= width {
        s
    } else {
        spaces((width - s.len()) as nat) + s
    }
}

/// `s` left justified in a field of `width` characters (kept whole when wider).
pub open spec fn pad_right_rep(s: Seq<char>, width: nat) -> Seq<char> {
    if s.len() >= width {
        s
    } else {
        s + spaces((width - s.len()) as nat)
    }
}

/// Relies on `String::push`: appends the given character to the end of the
/// string.
#[verifier::external_body]
pub(crate) fn push_char(s: &mut String, c: char)
    ensures
        final(s)@ == old(s)@.push(c),
{
    s.push(c)
}

fn digit_exec(d: u64) -> (c: char)
    requires
        d < 10,
    ensures
        c == digit_char(d as nat),
{
    ((48 + d as u8) as u8) as char
}

/// The decimal digits of `n`, without leading zeroes.
pub fn u64_to_string(n: u64) -> (r: String)
    ensures
        r@ == dec_rep(n as nat),
    decreases n,
{
    if n < 10 {
        let mut s = String::new();
        push_char(&mut s, digit_exec(n));
        proof {
            assert(s@ =~= dec_rep(n as nat));
        }
        s
    } else {
        let mut s = u64_to_string(n / 10);
        push_char(&mut s, digit_exec(n % 10));
        proof {
            assert(s@ =~= dec_rep(n as nat));
        }
        s
    }
}

/// The last `width` decimal digits of `frac`, zero padded to `width`.
pub fn frac_string(frac: u64, width: usize) -> (r: String)
    ensures
        r@ == frac_rep(frac as nat, width as nat),
    decreases width,
{
    if width == 0 {
        let s = String::new();
        proof {
            assert(s@ =~= frac_rep(frac as nat, 0));
        }
        s
    } else {
        let mut s = frac_string(frac / 10, width - 1);
        push_char(&mut s, digit_exec(frac % 10));
        proof {
            assert(s@ =~= frac_rep(frac as nat, width as nat));
        }
        s
    }
}

/// Ten to the `k` is never zero.
pub proof fn lemma_pow10_pos(k: nat)
    ensures
        pow10(k) >= 1,
    decreases k,
{
    if k > 0 {
        lemma_pow10_pos((k - 1) as nat);
    }
}

pub(crate) fn pow10_exec(k: usize) -> (r: u64)
    requires
        k <= 4,
    ensures
        r == pow10(k as nat),
{
    proof {
        reveal_with_fuel(pow10, 6);
    }
    if k == 0 {
        1
    } else if k == 1 {
        10
    } else if k == 2 {
        100
    } else if k == 3 {
        1000
    } else {
        10000
    }
}

/// `scaled` counts units of `10^-width`; rendered as a decimal number with
/// exactly `width` fraction digits.
pub fn fixed_string(scaled: u64, width: usize) -> (r: String)
    requires
        width <= 4,
    ensures
        r@ == fixed_rep(scaled as nat, width as nat),
{
    let p = pow10_exec(width);
    proof {
        lemma_pow10_pos(width as nat);
    }
    let mut s = u64_to_string(scaled / p);
    push_char(&mut s, '.');
    let f = frac_string(scaled % p, width);
    s.append(f.as_str());
    proof {
        assert(s@ =~= fixed_rep(scaled as nat, width as nat));
    }
    s
}

fn spaces_string(n: usize) -> (r: String)
    ensures
        r@ == spaces(n as nat),
    decreases n,
{
    if n == 0 {
        let s = String::new();
        proof {
            assert(s@ =~= spaces(0));
        }
        s
    } else {
        let mut s = spaces_string(n - 1);
        push_char(&mut s, ' ');
        proof {
            assert(s@ =~= spaces(n as nat));
        }
        s
    }
}

/// `s` right justified in a field of `width` characters.
pub fn pad_left(s: &str, width: usize) -> (r: String)
    ensures
        r@ == pad_left_rep(s@, width as nat),
{
    let n = s.unicode_len();
    if n >= width {
        s.to_owned()
    } else {
        let mut out = spaces_string(width - n);
        out.append(s);
        out
    }
}

/// `s` left justified in a field of `width` characters.
pub fn pad_right(s: &str, width: usize) -> (r: String)
    ensures
        r@ == pad_right_rep(s@, width as nat),
{
    let n = s.unicode_len();
    if n >= width {
        s.to_owned()
    } else {
        let mut out = s.to_owned();
        let sp = spaces_string(width - n);
        out.append(sp.as_str());
        out
    }
}

} // verus!
