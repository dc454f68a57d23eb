use vstd::prelude::*;

use crate::linescan::{digit_run_end, digits_val, frac_scaled, is_digit, lemma_digit_run_end};
use crate::numfmt::{lemma_pow10_pos, pow10, pow10_exec};

verus! {

/// A blank character of the instance files.
pub open spec fn is_ws(c: char) -> bool {
    c as u32 == 32 || c as u32 == 9 || c as u32 == 13 || c as u32 == 10
}

/// The blank-separated tokens of a line, collected left to right; `cur` holds
/// the token being read.
pub open spec fn tokens_from(s: Seq<char>, i: int, cur: Seq<char>) -> Seq<Seq<char>>
    decreases s.len() - i,
{
    let flushed: Seq<Seq<char>> = if cur.len() > 0 {
        seq![cur]
    } else {
        Seq::empty()
    };
    if i < 0 || i >= s.len() {
        flushed
    } else if is_ws(s[i]) {
        flushed + tokens_from(s, i + 1, Seq::empty())
    } else {
        tokens_from(s, i + 1, cur.push(s[i]))
    }
}

/// The blank-separated tokens of a line.
pub open spec fn tokens(s: Seq<char>) -> Seq<Seq<char>> {
    tokens_from(s, 0, Seq::empty())
}

/// Splits a line into its blank-separated tokens.
pub fn split_ws_tokens(line: &str) -> (toks: Vec<String>)
    ensures
        toks@.map_values(|t: String| t@) == tokens(line@),
{
    let n = line.unicode_len();
    let mut toks: Vec<String> = Vec::new();
    let mut cur = String::new();
    let mut i: usize = 0;
    proof {
        assert(toks@.map_values(|t: String| t@) =~= Seq::<Seq<char>>::empty());
        assert(Seq::<Seq<char>>::empty() + tokens(line@) =~= tokens(line@));
    }
    while i < n
        invariant
            0 <= i <= n,
            n == line@.len(),
            tokens(line@) == toks@.map_values(|t: String| t@) + tokens_from(
                line@,
                i as int,
                cur@,
            ),
        decreases n - i,
    {
        let c = line.get_char(i);
        let u = c as u32;
        let ghost toks_pre = toks@.map_values(|t: String| t@);
        if u == 32 || u == 9 || u == 13 || u == 10 {
            if !cur.as_str().is_empty() {
                let done = cur;
                cur = String::new();
                toks.push(done);
                proof {
                    assert(cur@ =~= Seq::<char>::empty());
                    assert(toks@.map_values(|t: String| t@) =~= toks_pre.push(
                        toks@.last()@,
                    ));
                    assert(toks_pre + (seq![toks@.last()@] + tokens_from(
                        line@,
                        i as int + 1,
                        Seq::empty(),
                    )) =~= toks@.map_values(|t: String| t@) + tokens_from(
                        line@,
                        i as int + 1,
                        Seq::empty(),
                    ));
                }
            } else {
                proof {
                    assert(cur@ =~= Seq::<char>::empty());
                    assert(Seq::<Seq<char>>::empty() + tokens_from(
                        line@,
                        i as int + 1,
                        Seq::empty(),
                    ) =~= tokens_from(line@, i as int + 1, Seq::empty()));
                }
            }
        } else {
            crate::numfmt::push_char(&mut cur, c);
        }
        i += 1;
    }
    if !cur.as_str().is_empty() {
        let ghost toks_pre = toks@.map_values(|t: String| t@);
        toks.push(cur);
        proof {
            assert(toks@.map_values(|t: String| t@) =~= toks_pre.push(toks@.last()@));
        }
    } else {
        proof {
            assert(toks@.map_values(|t: String| t@) + Seq::<Seq<char>>::empty()
                =~= toks@.map_values(|t: String| t@));
        }
    }
    toks
}

/// The value of a plain integer token: every character a digit, at least one.
pub open spec fn int_token_val(t: Seq<char>) -> Option<nat> {
    if t.len() > 0 && forall|j: int| 0 <= j < t.len() ==> is_digit(t[j]) {
        Some(digits_val(t))
    } else {
        None
    }
}

/// Reads one integer token; `None` on a token that is not all digits or whose
/// value does not fit.
pub fn parse_usize_token(tok: &str) -> (r: Option<usize>)
    ensures
        match r {
            Some(v) => int_token_val(tok@) == Some(v as nat),
            None => int_token_val(tok@) is None || int_token_val(tok@).unwrap() > usize::MAX,
        },
{
    let n = tok.unicode_len();
    let a = crate::linescan::scan_digit_run(tok, 0, n);
    proof {
        lemma_digit_run_end(tok@, 0);
    }
    if n == 0 || a < n {
        proof {
            if a < n {
                assert(!is_digit(tok@[a as int]));
            }
        }
        return None;
    }
    match crate::linescan::parse_int_part(tok, 0, n, n) {
        Some(v) => {
            proof {
                assert(tok@.subrange(0, n as int) =~= tok@);
            }
            if v <= usize::MAX as u64 {
                Some(v as usize)
            } else {
                None
            }
        },
        None => {
            proof {
                assert(tok@.subrange(0, n as int) =~= tok@);
            }
            None
        },
    }
}

/// The value of a decimal token in ten-thousandths: digits, optionally
/// followed by a point and at least one fraction digit; fraction digits past
/// the fourth are cut off.
pub open spec fn scaled_token_val(t: Seq<char>) -> Option<nat> {
    let a = digit_run_end(t, 0);
    if a == 0 {
        None
    } else if a == t.len() {
        Some(digits_val(t.subrange(0, a)) * pow10(4))
    } else if t[a] == '.' && digit_run_end(t, a + 1) == t.len() && t.len() > a + 1 {
        Some(
            digits_val(t.subrange(0, a)) * pow10(4) + frac_scaled(
                t.subrange(a + 1, t.len() as int),
                4,
            ),
        )
    } else {
        None
    }
}

/// Reads one decimal token into ten-thousandths, as the instance files carry
/// four-decimal quantities; `None` on any other shape or a value that does
/// not fit.
pub fn parse_scaled_token(tok: &str) -> (r: Option<usize>)
    ensures
        match r {
            Some(v) => scaled_token_val(tok@) == Some(v as nat),
            None => scaled_token_val(tok@) is None || scaled_token_val(tok@).unwrap()
                > usize::MAX,
        },
{
    let n = tok.unicode_len();
    let a = crate::linescan::scan_digit_run(tok, 0, n);
    proof {
        lemma_digit_run_end(tok@, 0);
    }
    if a == 0 {
        return None;
    }
    let frac: u64;
    if a == n {
        frac = 0;
    } else {
        let c = tok.get_char(a);
        if c != '.' {
            return None;
        }
        let b = crate::linescan::scan_digit_run(tok, a + 1, n);
        proof {
            lemma_digit_run_end(tok@, a as int + 1);
        }
        if b < n || b == a + 1 {
            proof {
                if b < n {
                    assert(!is_digit(tok@[b as int]));
                }
            }
            return None;
        }
        frac = crate::linescan::parse_frac_part(tok, a + 1, b, 4, n);
    }
    let ghost whole = digits_val(tok@.subrange(0, a as int));
    proof {
        lemma_pow10_pos(4);
    }
    match crate::linescan::parse_int_part(tok, 0, a, n) {
        Some(d1) => {
            let pw = pow10_exec(4);
            let scaled = match d1.checked_mul(pw) {
                Some(t) => t.checked_add(frac),
                None => None,
            };
            match scaled {
                Some(v) => {
                    if v <= usize::MAX as u64 {
                        Some(v as usize)
                    } else {
                        None
                    }
                },
                None => None,
            }
        },
        None => {
            proof {
                assert(whole > u64::MAX && pow10(4) >= 1 ==> whole * pow10(4) >= whole)
                    by (nonlinear_arith);
            }
            None
        },
    }
}

} // verus!
