//! Parsing durations written as a decimal number of seconds.
//!
//! The configuration document writes every duration as one number of
//! seconds, optionally with a fractional part (`timeout_s = 1.5`).  The
//! loader hands that number over as its decimal text; here it becomes a
//! whole number of milliseconds.  The fractional part is read to
//! millisecond precision (further digits are ignored); integer parts longer
//! than sixteen digits — more than three hundred million years — are
//! rejected as unrepresentable.

use vstd::prelude::*;

use crate::digits::{
    digits_val, is_digit, is_digits, lemma_digits_val_bound, lemma_pow10_increases, parse_dec,
    pow10, str_chars,
};

verus! {

/// Index of the first `'.'` in `s`, or `-1` if there is none.
pub open spec fn find_dot(s: Seq<char>) -> int
    decreases s.len(),
{
    if s.len() == 0 {
        -1
    } else if s.first() == '.' {
        0
    } else {
        let r = find_dot(s.drop_first());
        if r < 0 {
            -1
        } else {
            r + 1
        }
    }
}

/// What `find_dot` finds: either no dot at all, or the first one.
pub proof fn lemma_find_dot(s: Seq<char>)
    ensures
        find_dot(s) == -1 ==> forall|j: int| 0 <= j < s.len() ==> s[j] != '.',
        find_dot(s) >= 0 ==> {
            &&& find_dot(s) < s.len()
            &&& s[find_dot(s)] == '.'
            &&& forall|j: int| 0 <= j < find_dot(s) ==> s[j] != '.'
        },
    decreases s.len(),
{
    if s.len() > 0 && s.first() != '.' {
        lemma_find_dot(s.drop_first());
        let r = find_dot(s.drop_first());
        if r >= 0 {
            assert(s[r + 1] == s.drop_first()[r]);
            assert forall|j: int| 0 <= j < r + 1 implies s[j] != '.' by {
                if j > 0 {
                    assert(s[j] == s.drop_first()[j - 1]);
                }
            }
        } else {
            assert forall|j: int| 0 <= j < s.len() implies s[j] != '.' by {
                if j > 0 {
                    assert(s[j] == s.drop_first()[j - 1]);
                }
            }
        }
    }
}

/// The number of milliseconds contributed by the fractional digits: the
/// first three digits, padded with zeroes on the right.
pub open spec fn spec_frac_ms(fp: Seq<char>) -> nat
    recommends
        fp.len() >= 1,
        is_digits(fp),
{
    if fp.len() >= 3 {
        digits_val(fp.take(3))
    } else if fp.len() == 2 {
        digits_val(fp) * 10
    } else {
        digits_val(fp) * 100
    }
}

/// The milliseconds denoted by a decimal-seconds text, or `None` when the
/// text is not of the form `digits` or `digits.digits` (with one to sixteen
/// integer digits).
pub open spec fn spec_parse_secs_ms(s: Seq<char>) -> Option<u64> {
    let dot = find_dot(s);
    if dot < 0 {
        if 1 <= s.len() <= 16 && is_digits(s) {
            Some((digits_val(s) * 1000) as u64)
        } else {
            None
        }
    } else {
        let ip = s.take(dot);
        let fp = s.skip(dot + 1);
        if 1 <= ip.len() <= 16 && is_digits(ip) && 1 <= fp.len() && is_digits(fp) {
            Some((digits_val(ip) * 1000 + spec_frac_ms(fp)) as u64)
        } else {
            None
        }
    }
}

/// Sixteen digits of seconds and three of milliseconds always fit in 64
/// bits.
proof fn lemma_secs_ms_fits(ip: Seq<char>, frac: nat)
    requires
        is_digits(ip),
        ip.len() <= 16,
        frac < 1000,
    ensures
        digits_val(ip) * 1000 + frac <= u64::MAX,
{
    lemma_digits_val_bound(ip);
    lemma_pow10_increases(ip.len(), 16);
    assert(pow10(16) == 10000000000000000) by {
        reveal_with_fuel(pow10, 17);
    };
}

/// Parse a decimal-seconds text into milliseconds.
pub fn parse_secs_ms(s: &str) -> (r: Option<u64>)
    ensures
        r == spec_parse_secs_ms(s@),
{
    let cs = str_chars(s);
    let n = cs.len();
    proof {
        lemma_find_dot(s@);
    }
    // Find the first dot, if any.
    let mut dot: usize = 0;
    let mut has_dot = false;
    let mut j: usize = 0;
    while j < n && !has_dot
        invariant
            n == cs@.len(),
            cs@ == s@,
            j <= n,
            !has_dot ==> forall|k: int| 0 <= k < j ==> s@[k] != '.',
            has_dot ==> {
                &&& dot < n
                &&& s@[dot as int] == '.'
                &&& forall|k: int| 0 <= k < dot ==> s@[k] != '.'
            },
        decreases n - j,
    {
        if cs[j] == '.' {
            has_dot = true;
            dot = j;
        }
        j = j + 1;
    }
    proof {
        lemma_find_dot(s@);
        if has_dot {
            assert(find_dot(s@) == dot);
        } else {
            assert(find_dot(s@) == -1);
        }
    }
    if !has_dot {
        if n < 1 || n > 16 {
            return None;
        }
        match parse_dec(&cs, 0, n) {
            Some((v, _)) => {
                proof {
                    assert(cs@.subrange(0, n as int) =~= s@);
                    lemma_secs_ms_fits(s@, 0);
                }
                Some(v * 1000)
            },
            None => {
                proof {
                    assert(cs@.subrange(0, n as int) =~= s@);
                    if is_digits(s@) {
                        lemma_secs_ms_fits(s@, 0);
                    }
                }
                None
            },
        }
    } else {
        let ghost ip = s@.take(dot as int);
        let ghost fp = s@.skip(dot as int + 1);
        if dot < 1 || dot > 16 {
            return None;
        }
        let m = n - dot - 1;
        if m == 0 {
            return None;
        }
        // The whole fractional part must be digits.
        let mut k: usize = 0;
        while k < m
            invariant
                n == cs@.len(),
                cs@ == s@,
                dot < n,
                1 <= dot <= 16,
                find_dot(s@) == dot,
                m == n - dot - 1,
                m >= 1,
                k <= m,
                fp == s@.skip(dot as int + 1),
                forall|t: int| 0 <= t < k ==> is_digit(#[trigger] fp[t]),
            decreases m - k,
        {
            match crate::digits::digit_of(cs[dot + 1 + k]) {
                Some(_) => {
                    proof {
                        assert(fp[k as int] == s@[dot + 1 + k]);
                    }
                    k = k + 1;
                },
                None => {
                    proof {
                        assert(fp[k as int] == s@[dot + 1 + k]);
                        assert(!is_digits(fp));
                    }
                    return None;
                },
            }
        }
        proof {
            assert(forall|t: int| 0 <= t < fp.len() ==> is_digit(#[trigger] fp[t]));
        }
        // Millisecond value of the first (up to three) fractional digits.
        let w: usize = if m >= 3 {
            3
        } else {
            m
        };
        proof {
            assert(cs@.subrange(dot + 1, dot + 1 + w) =~= fp.take(w as int));
            assert(forall|t: int| 0 <= t < w ==> #[trigger] fp.take(w as int)[t] == fp[t]);
            assert(is_digits(fp.take(w as int)));
            lemma_digits_val_bound(fp.take(w as int));
            lemma_pow10_increases(w as nat, 3);
            assert(pow10(3) == 1000) by {
                reveal_with_fuel(pow10, 4);
            };
        }
        let frac_v = match parse_dec(&cs, dot + 1, w) {
            Some((fv, _)) => fv,
            None => {
                // Unreachable: the digits were all checked above.
                proof {
                    assert(digits_val(fp.take(w as int)) < 1000);
                    assert(false);
                }
                return None;
            },
        };
        let frac = if m >= 3 {
            frac_v
        } else if m == 2 {
            frac_v * 10
        } else {
            frac_v * 100
        };
        proof {
            assert(pow10(1) == 10 && pow10(2) == 100) by {
                reveal_with_fuel(pow10, 3);
            };
            if m >= 3 {
                assert(frac == spec_frac_ms(fp));
            } else {
                assert(fp.take(w as int) =~= fp);
                assert(frac == spec_frac_ms(fp));
            }
            assert(frac < 1000);
        }
        match parse_dec(&cs, 0, dot) {
            Some((iv, _)) => {
                proof {
                    assert(cs@.subrange(0, dot as int) =~= ip);
                    lemma_secs_ms_fits(ip, frac as nat);
                }
                Some(iv * 1000 + frac)
            },
            None => {
                proof {
                    assert(cs@.subrange(0, dot as int) =~= ip);
                    if is_digits(ip) {
                        lemma_secs_ms_fits(ip, 0);
                    }
                }
                None
            },
        }
    }
}

} // verus!
