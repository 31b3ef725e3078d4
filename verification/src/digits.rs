//! Decimal digit strings: values, rendering, parsing.
//!
//! Shared by the configuration loader (durations written as decimal seconds)
//! and the textual snapshot encoding (numbers written as fixed-width decimal
//! fields).

use vstd::prelude::*;

verus! {

/// Whether `c` is one of the ten ASCII decimal digits.
pub open spec fn is_digit(c: char) -> bool {
    48 <= c as u32 <= 57
}

/// The numeric value of a digit character.
pub open spec fn digit_val(c: char) -> nat
    recommends
        is_digit(c),
{
    (c as u32 - 48) as nat
}

/// Whether every character of `s` is a decimal digit.
pub open spec fn is_digits(s: Seq<char>) -> bool {
    forall|i: int| 0 <= i < s.len() ==> is_digit(#[trigger] s[i])
}

/// The value of a digit string, most significant digit first.
pub open spec fn digits_val(s: Seq<char>) -> nat
    recommends
        is_digits(s),
    decreases s.len(),
{
    if s.len() == 0 {
        0
    } else {
        digits_val(s.drop_last()) * 10 + digit_val(s.last())
    }
}

/// Ten to the `n`.
pub open spec fn pow10(n: nat) -> nat
    decreases n,
{
    if n == 0 {
        1
    } else {
        10 * pow10((n - 1) as nat)
    }
}

/// The digit character for a value below ten.
pub open spec fn digit_char(d: nat) -> char
    recommends
        d < 10,
{
    if d == 0 {
        '0'
    } else if d == 1 {
        '1'
    } else if d == 2 {
        '2'
    } else if d == 3 {
        '3'
    } else if d == 4 {
        '4'
    } else if d == 5 {
        '5'
    } else if d == 6 {
        '6'
    } else if d == 7 {
        '7'
    } else if d == 8 {
        '8'
    } else {
        '9'
    }
}

/// `v` rendered as exactly `width` decimal digits, zero-padded, most
/// significant first.  Digits beyond `width` are lost, so callers must keep
/// `v < pow10(width)`.
pub open spec fn dec_digits(v: nat, width: nat) -> Seq<char>
    recommends
        v < pow10(width),
    decreases width,
{
    if width == 0 {
        Seq::<char>::empty()
    } else {
        dec_digits(v / 10, (width - 1) as nat) + seq![digit_char(v % 10)]
    }
}

/// A digit string's value is bounded by ten to its length.
pub proof fn lemma_digits_val_bound(s: Seq<char>)
    requires
        is_digits(s),
    ensures
        digits_val(s) < pow10(s.len()),
    decreases s.len(),
{
    if s.len() > 0 {
        lemma_digits_val_bound(s.drop_last());
    }
}

/// Rendered digit strings are digit strings of the requested width.
pub proof fn lemma_dec_digits_wf(v: nat, width: nat)
    ensures
        dec_digits(v, width).len() == width,
        is_digits(dec_digits(v, width)),
    decreases width,
{
    if width > 0 {
        lemma_dec_digits_wf(v / 10, (width - 1) as nat);
        assert forall|i: int| 0 <= i < width implies is_digit(
            #[trigger] dec_digits(v, width)[i],
        ) by {
            if i < width - 1 {
                assert(dec_digits(v, width)[i] == dec_digits(v / 10, (width - 1) as nat)[i]);
            }
        }
    }
}

/// Rendering then reading a value is the identity, as long as the value fits
/// in the width.
pub proof fn lemma_dec_digits_val(v: nat, width: nat)
    requires
        v < pow10(width),
    ensures
        digits_val(dec_digits(v, width)) == v,
    decreases width,
{
    if width == 0 {
        assert(v == 0);
    } else {
        assert(v / 10 < pow10((width - 1) as nat)) by {
            assert(pow10(width) == 10 * pow10((width - 1) as nat));
            assert(v < 10 * pow10((width - 1) as nat));
        };
        lemma_dec_digits_val(v / 10, (width - 1) as nat);
        let s = dec_digits(v, width);
        assert(s.drop_last() =~= dec_digits(v / 10, (width - 1) as nat));
        assert(s.last() == digit_char(v % 10));
        assert(digit_val(digit_char(v % 10)) == v % 10);
        assert(digits_val(s) == (v / 10) * 10 + v % 10);
        assert((v / 10) * 10 + v % 10 == v) by (nonlinear_arith);
    }
}

/// The numeric value of a digit character, or `None` for any other
/// character.
pub fn digit_of(c: char) -> (r: Option<u64>)
    ensures
        match r {
            Some(d) => is_digit(c) && d == digit_val(c) && d < 10,
            None => !is_digit(c),
        },
{
    match c {
        '0' => Some(0),
        '1' => Some(1),
        '2' => Some(2),
        '3' => Some(3),
        '4' => Some(4),
        '5' => Some(5),
        '6' => Some(6),
        '7' => Some(7),
        '8' => Some(8),
        '9' => Some(9),
        _ => None,
    }
}

/// The one-character string for a digit value.
pub fn digit_str(d: u64) -> (r: &'static str)
    requires
        d < 10,
    ensures
        r@ =~= seq![digit_char(d as nat)],
{
    proof {
        reveal_strlit("0");
        reveal_strlit("1");
        reveal_strlit("2");
        reveal_strlit("3");
        reveal_strlit("4");
        reveal_strlit("5");
        reveal_strlit("6");
        reveal_strlit("7");
        reveal_strlit("8");
        reveal_strlit("9");
    }
    match d {
        0 => "0",
        1 => "1",
        2 => "2",
        3 => "3",
        4 => "4",
        5 => "5",
        6 => "6",
        7 => "7",
        8 => "8",
        _ => "9",
    }
}

/// Append `v` to `out` as exactly `width` decimal digits, zero-padded.
pub fn append_dec(out: &mut String, v: u64, width: u8)
    ensures
        final(out)@ == old(out)@ + dec_digits(v as nat, width as nat),
    decreases width,
{
    if width == 0 {
        proof {
            assert(old(out)@ + dec_digits(v as nat, 0) =~= old(out)@);
        }
    } else {
        append_dec(out, v / 10, width - 1);
        out.append(digit_str(v % 10));
        proof {
            assert((v / 10) as nat == (v as nat) / 10);
            assert((v % 10) as nat == (v as nat) % 10);
            assert(final(out)@ =~= old(out)@ + dec_digits(v as nat, width as nat));
        }
    }
}

/// The characters of `s`, as an indexable vector.
pub fn str_chars(s: &str) -> (r: Vec<char>)
    ensures
        r@ == s@,
{
    let n = s.unicode_len();
    let mut r: Vec<char> = Vec::new();
    let mut i: usize = 0;
    while i < n
        invariant
            n == s@.len(),
            i <= n,
            r@ =~= s@.take(i as int),
        decreases n - i,
    {
        r.push(s.get_char(i));
        proof {
            assert(r@ =~= s@.take(i + 1));
        }
        i = i + 1;
    }
    proof {
        assert(s@.take(n as int) =~= s@);
    }
    r
}

/// Read `width` decimal digits of `cs` starting at `i` as a number.
///
/// Returns the value and the position after the digits; `None` when a
/// non-digit stands in the field or the value does not fit in 64 bits.
pub fn parse_dec(cs: &Vec<char>, i: usize, width: usize) -> (r: Option<(u64, usize)>)
    requires
        i + width <= cs@.len(),
        width <= 20,
    ensures
        match r {
            Some((v, j)) => {
                &&& j == i + width
                &&& is_digits(cs@.subrange(i as int, (i + width) as int))
                &&& digits_val(cs@.subrange(i as int, (i + width) as int)) == v
            },
            None => !(is_digits(cs@.subrange(i as int, (i + width) as int)) && digits_val(
                cs@.subrange(i as int, (i + width) as int),
            ) <= u64::MAX),
        },
{
    let n = cs.len();
    let mut acc: u128 = 0;
    let mut k: usize = 0;
    proof {
        assert(i + width <= n);
        assert(cs@.subrange(i as int, i as int) =~= Seq::<char>::empty());
    }
    while k < width
        invariant
            n == cs@.len(),
            i + width <= n,
            width <= 20,
            k <= width,
            is_digits(cs@.subrange(i as int, (i + k) as int)),
            acc == digits_val(cs@.subrange(i as int, (i + k) as int)),
            acc < pow10(k as nat),
        decreases width - k,
    {
        let c = cs[i + k];
        match digit_of(c) {
            None => {
                proof {
                    assert(cs@.subrange(i as int, (i + width) as int)[k as int] == c);
                }
                return None;
            },
            Some(d) => {
                proof {
                    assert(pow10(20) == 100000000000000000000) by {
                        reveal_with_fuel(pow10, 21);
                    };
                    lemma_pow10_increases(k as nat, 20);
                    assert(acc * 10 + d < pow10(k as nat) * 10) by (nonlinear_arith)
                        requires
                            acc < pow10(k as nat),
                            d < 10,
                    ;
                }
                acc = acc * 10 + (d as u128);
                proof {
                    assert(cs@.subrange(i as int, (i + k + 1) as int).drop_last() =~= cs@.subrange(
                        i as int,
                        (i + k) as int,
                    ));
                    assert(cs@.subrange(i as int, (i + k + 1) as int).last() == c);
                }
                k = k + 1;
            },
        }
    }
    if acc <= u64::MAX as u128 {
        Some((acc as u64, i + width))
    } else {
        None
    }
}

/// `pow10` is monotone in its exponent.
pub proof fn lemma_pow10_increases(a: nat, b: nat)
    requires
        a <= b,
    ensures
        pow10(a) <= pow10(b),
    decreases b,
{
    if a < b {
        lemma_pow10_increases(a, (b - 1) as nat);
        assert(pow10(b) == 10 * pow10((b - 1) as nat));
    }
}

} // verus!
