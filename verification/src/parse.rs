//! Decimal syntax: validation and evaluation of the integer and floating
//! point token grammars used when a flag's value is coerced.

use vstd::prelude::*;

verus! {

/// `c` is a decimal digit; code points 48 through 57 are `0` through `9`.
pub open spec fn spec_is_digit(c: char) -> bool {
    48 <= c as int && c as int <= 57
}

/// The numeric value of a decimal digit.
pub open spec fn spec_digit_val(c: char) -> int {
    c as int - 48
}

/// Every character of `s` is a decimal digit.
pub open spec fn spec_all_digits(s: Seq<char>) -> bool {
    forall|i: int| 0 <= i < s.len() ==> spec_is_digit(s[i])
}

/// The base-10 value of a digit sequence (0 for the empty sequence).
pub open spec fn spec_digits_val(s: Seq<char>) -> int
    decreases s.len(),
{
    if s.len() == 0 {
        0
    } else {
        spec_digits_val(s.drop_last()) * 10 + spec_digit_val(s.last())
    }
}

/// A signed decimal integer: an optional single `+` or `-` sign followed by
/// at least one digit, as `isize` reads base-10 tokens. The same grammar
/// serves for the exponent part of a floating point token.
pub open spec fn spec_valid_int(s: Seq<char>) -> bool {
    if s.len() >= 1 && (s[0] == '+' || s[0] == '-') {
        s.len() >= 2 && spec_all_digits(s.skip(1))
    } else {
        s.len() >= 1 && spec_all_digits(s)
    }
}

/// The integer a valid signed decimal token denotes.
pub open spec fn spec_int_value(s: Seq<char>) -> int {
    if s.len() >= 1 && s[0] == '-' {
        -spec_digits_val(s.skip(1))
    } else if s.len() >= 1 && s[0] == '+' {
        spec_digits_val(s.skip(1))
    } else {
        spec_digits_val(s)
    }
}

/// `c` marks an exponent part of a floating point token.
pub open spec fn spec_is_exp_char(c: char) -> bool {
    c == 'e' || c == 'E'
}

/// The token is `inf`, in any letter case.
pub open spec fn spec_is_inf(s: Seq<char>) -> bool {
    &&& s.len() == 3
    &&& (s[0] == 'i' || s[0] == 'I')
    &&& (s[1] == 'n' || s[1] == 'N')
    &&& (s[2] == 'f' || s[2] == 'F')
}

/// The token is `infinity`, in any letter case.
pub open spec fn spec_is_infinity(s: Seq<char>) -> bool {
    &&& s.len() == 8
    &&& (s[0] == 'i' || s[0] == 'I')
    &&& (s[1] == 'n' || s[1] == 'N')
    &&& (s[2] == 'f' || s[2] == 'F')
    &&& (s[3] == 'i' || s[3] == 'I')
    &&& (s[4] == 'n' || s[4] == 'N')
    &&& (s[5] == 'i' || s[5] == 'I')
    &&& (s[6] == 't' || s[6] == 'T')
    &&& (s[7] == 'y' || s[7] == 'Y')
}

/// The token is `nan`, in any letter case.
pub open spec fn spec_is_nan(s: Seq<char>) -> bool {
    &&& s.len() == 3
    &&& (s[0] == 'n' || s[0] == 'N')
    &&& (s[1] == 'a' || s[1] == 'A')
    &&& (s[2] == 'n' || s[2] == 'N')
}

/// A mantissa: decimal digits with at most one decimal point and at least
/// one digit, so `123`, `123.`, `123.456` and `.456` qualify while `.`,
/// `1..2` and the empty sequence do not.
pub open spec fn spec_valid_mantissa(s: Seq<char>) -> bool {
    ||| (s.len() >= 1 && spec_all_digits(s))
    ||| (s.len() >= 2 && exists|d: int|
        0 <= d < s.len() && s[d] == '.' && spec_all_digits(s.subrange(0, d)) && spec_all_digits(
            s.subrange(d + 1, s.len() as int),
        ))
}

/// A decimal number: a mantissa, optionally followed by `e` or `E` and a
/// signed digit count.
pub open spec fn spec_valid_number(s: Seq<char>) -> bool {
    ||| spec_valid_mantissa(s)
    ||| exists|e: int|
        0 <= e < s.len() && spec_is_exp_char(s[e]) && spec_valid_mantissa(s.subrange(0, e))
            && spec_valid_int(s.subrange(e + 1, s.len() as int))
}

/// The unsigned part of a floating point token: one of the special words, or
/// a decimal number.
pub open spec fn spec_valid_float_body(s: Seq<char>) -> bool {
    spec_is_inf(s) || spec_is_infinity(s) || spec_is_nan(s) || spec_valid_number(s)
}

/// The floating point token grammar `f64` reads: an optional sign, then
/// `inf`, `infinity` or `nan` in any letter case, or a decimal number with
/// an optional exponent.
pub open spec fn spec_valid_float(s: Seq<char>) -> bool {
    if s.len() >= 1 && (s[0] == '+' || s[0] == '-') {
        spec_valid_float_body(s.skip(1))
    } else {
        spec_valid_float_body(s)
    }
}

/// A mantissa never contains an exponent mark: its characters are digits and
/// at most one decimal point.
proof fn lemma_mantissa_no_exp(s: Seq<char>, p: int)
    requires
        0 <= p < s.len(),
        spec_is_exp_char(s[p]),
    ensures
        !spec_valid_mantissa(s),
{
    assert(!spec_is_digit(s[p]));
    assert(s[p] != '.');
    if s.len() >= 2 && exists|d: int|
        0 <= d < s.len() && s[d] == '.' && spec_all_digits(s.subrange(0, d)) && spec_all_digits(
            s.subrange(d + 1, s.len() as int),
        ) {
        let d = choose|d: int|
            0 <= d < s.len() && s[d] == '.' && spec_all_digits(s.subrange(0, d))
                && spec_all_digits(s.subrange(d + 1, s.len() as int));
        if p < d {
            assert(s.subrange(0, d)[p] == s[p]);
        } else {
            assert(s.subrange(d + 1, s.len() as int)[p - d - 1] == s[p]);
        }
    }
}

/// Read a token as a base-10 signed machine integer.
///
/// `Some` exactly when the token is a valid signed decimal integer whose
/// value fits in `isize`; the returned value is the one the token denotes.
pub fn parse_isize(s: &str) -> (r: Option<isize>)
    ensures
        match r {
            Some(n) => {
                &&& spec_valid_int(s@)
                &&& isize::MIN as int <= spec_int_value(s@) <= isize::MAX as int
                &&& n as int == spec_int_value(s@)
            },
            None => !(spec_valid_int(s@) && isize::MIN as int <= spec_int_value(s@)
                <= isize::MAX as int),
        },
{
    let n = s.unicode_len();
    if n == 0 {
        return None;
    }
    let c0 = s.get_char(0);
    let neg = c0 == '-';
    let has_sign = c0 == '-' || c0 == '+';
    let start: usize = if has_sign {
        1
    } else {
        0
    };
    if n == start {
        return None;
    }
    let cap: u128 = (isize::MAX as u128) + 1;
    let mut mag: u128 = 0;
    let mut over = false;
    let mut i = start;
    while i < n
        invariant
            start <= i <= n,
            n == s@.len(),
            start == 1 <==> (s@[0] == '-' || s@[0] == '+'),
            start == 0 || start == 1,
            neg <==> s@[0] == '-',
            cap == isize::MAX as int + 1,
            forall|k: int| start <= k < i ==> spec_is_digit(s@[k]),
            !over ==> mag as int == spec_digits_val(s@.subrange(start as int, i as int))
                && mag <= cap,
            over ==> spec_digits_val(s@.subrange(start as int, i as int)) > cap,
        decreases n - i,
    {
        let c = s.get_char(i);
        let u = c as u32;
        if u < 48 || u > 57 {
            proof {
                if spec_valid_int(s@) {
                    if start == 1 {
                        assert(s@.skip(1)[i - 1] == s@[i as int]);
                    }
                }
            }
            return None;
        }
        let d: u128 = (u - 48) as u128;
        proof {
            assert(s@.subrange(start as int, i + 1).drop_last() =~= s@.subrange(
                start as int,
                i as int,
            ));
            assert(s@.subrange(start as int, i + 1).last() == s@[i as int]);
        }
        if over {
        } else {
            let nm = mag * 10 + d;
            if nm > cap {
                over = true;
            } else {
                mag = nm;
            }
        }
        i += 1;
    }
    proof {
        if start == 1 {
            assert(s@.subrange(1, n as int) =~= s@.skip(1));
            assert(forall|k: int| 0 <= k < s@.skip(1).len() ==> s@.skip(1)[k] == s@[k + 1]);
        } else {
            assert(s@.subrange(0, n as int) =~= s@);
        }
        assert(spec_valid_int(s@));
    }
    if over {
        return None;
    }
    if neg {
        if mag == cap {
            Some(isize::MIN)
        } else {
            Some(-(mag as isize))
        }
    } else {
        if mag == cap {
            return None;
        }
        Some(mag as isize)
    }
}

/// Every character of `s` between `from` and `to` is a decimal digit.
fn check_digits(s: &str, from: usize, to: usize) -> (b: bool)
    requires
        from <= to <= s@.len(),
    ensures
        b == spec_all_digits(s@.subrange(from as int, to as int)),
{
    let ghost sub = s@.subrange(from as int, to as int);
    proof {
        assert(forall|k: int| 0 <= k < sub.len() ==> sub[k] == s@[from + k]);
    }
    let mut i = from;
    while i < to
        invariant
            from <= i <= to <= s@.len(),
            sub == s@.subrange(from as int, to as int),
            forall|k: int| from <= k < i ==> spec_is_digit(s@[k]),
        decreases to - i,
    {
        let u = s.get_char(i) as u32;
        if u < 48 || u > 57 {
            proof {
                assert(sub[i - from] == s@[i as int]);
            }
            return false;
        }
        i += 1;
    }
    proof {
        assert(forall|k: int| 0 <= k < sub.len() ==> spec_is_digit(sub[k]));
    }
    true
}

/// The characters of `s` between `from` and `to` form a valid mantissa.
fn check_mantissa(s: &str, from: usize, to: usize) -> (b: bool)
    requires
        from <= to <= s@.len(),
    ensures
        b == spec_valid_mantissa(s@.subrange(from as int, to as int)),
{
    let ghost sub = s@.subrange(from as int, to as int);
    proof {
        assert(forall|k: int| 0 <= k < sub.len() ==> sub[k] == s@[from + k]);
    }
    if to == from {
        return false;
    }
    // find the first decimal point, if any; `to` means none
    let mut dot = to;
    let mut i = from;
    while i < to
        invariant
            from <= i <= to <= s@.len(),
            dot == to ==> forall|k: int| from <= k < i ==> s@[k] != '.',
            dot != to ==> from <= dot < to && s@[dot as int] == '.' && forall|k: int|
                from <= k < dot ==> s@[k] != '.',
        decreases to - i,
    {
        if dot == to && s.get_char(i) == '.' {
            dot = i;
        }
        i += 1;
    }
    let i = dot;
    if i == to {
        // no decimal point: the mantissa must be all digits
        let b = check_digits(s, from, to);
        proof {
            if !b {
                assert forall|d: int| 0 <= d < sub.len() implies sub[d] != '.' by {
                    assert(sub[d] == s@[from + d]);
                }
            }
        }
        return b;
    }
    // first decimal point at i: digits must stand on both sides, and at
    // least one character besides the point
    if to - from < 2 {
        proof {
            assert(sub.len() == 1);
            assert(sub[0] == s@[from as int]);
        }
        return false;
    }
    let before = check_digits(s, from, i);
    let after = if before {
        check_digits(s, i + 1, to)
    } else {
        false
    };
    proof {
        let d0 = i - from;
        assert(sub[d0] == s@[i as int]);
        assert(sub.subrange(0, d0) =~= s@.subrange(from as int, i as int));
        assert(sub.subrange(d0 + 1, sub.len() as int) =~= s@.subrange(i + 1, to as int));
        if before && after {
            assert(spec_valid_mantissa(sub));
        } else {
            assert(!spec_all_digits(sub)) by {
                assert(!spec_is_digit(sub[d0]));
            }
            assert forall|d: int|
                0 <= d < sub.len() && sub[d] == '.' implies !(spec_all_digits(
                sub.subrange(0, d),
            ) && spec_all_digits(sub.subrange(d + 1, sub.len() as int))) by {
                if d == d0 {
                } else {
                    // the first point stands before d, inside its digit part
                    assert(s@[from + d] == sub[d]);
                    assert(d > d0);
                    assert(sub.subrange(0, d)[d0] == sub[d0]);
                    assert(!spec_is_digit(sub[d0]));
                }
            }
        }
    }
    before && after
}

/// The characters of `s` between `from` and `to` form a signed digit count.
fn check_int_range(s: &str, from: usize, to: usize) -> (b: bool)
    requires
        from <= to <= s@.len(),
    ensures
        b == spec_valid_int(s@.subrange(from as int, to as int)),
{
    let ghost sub = s@.subrange(from as int, to as int);
    proof {
        assert(forall|k: int| 0 <= k < sub.len() ==> sub[k] == s@[from + k]);
    }
    if to == from {
        return false;
    }
    let c = s.get_char(from);
    if c == '+' || c == '-' {
        if to - from < 2 {
            return false;
        }
        proof {
            assert(sub.skip(1) =~= s@.subrange(from + 1, to as int));
        }
        check_digits(s, from + 1, to)
    } else {
        check_digits(s, from, to)
    }
}

/// The characters of `s` between `from` and `to` spell one of the special
/// words `inf`, `infinity` or `nan`, in any letter case.
fn check_special(s: &str, from: usize, to: usize) -> (b: bool)
    requires
        from <= to <= s@.len(),
    ensures
        b == (spec_is_inf(s@.subrange(from as int, to as int)) || spec_is_infinity(
            s@.subrange(from as int, to as int),
        ) || spec_is_nan(s@.subrange(from as int, to as int))),
{
    let ghost sub = s@.subrange(from as int, to as int);
    proof {
        assert(forall|k: int| 0 <= k < sub.len() ==> sub[k] == s@[from + k]);
    }
    let len = to - from;
    if len == 3 {
        let c0 = s.get_char(from);
        let c1 = s.get_char(from + 1);
        let c2 = s.get_char(from + 2);
        ((c0 == 'i' || c0 == 'I') && (c1 == 'n' || c1 == 'N') && (c2 == 'f' || c2 == 'F')) || ((c0
            == 'n' || c0 == 'N') && (c1 == 'a' || c1 == 'A') && (c2 == 'n' || c2 == 'N'))
    } else if len == 8 {
        let c0 = s.get_char(from);
        let c1 = s.get_char(from + 1);
        let c2 = s.get_char(from + 2);
        let c3 = s.get_char(from + 3);
        let c4 = s.get_char(from + 4);
        let c5 = s.get_char(from + 5);
        let c6 = s.get_char(from + 6);
        let c7 = s.get_char(from + 7);
        (c0 == 'i' || c0 == 'I') && (c1 == 'n' || c1 == 'N') && (c2 == 'f' || c2 == 'F') && (c3
            == 'i' || c3 == 'I') && (c4 == 'n' || c4 == 'N') && (c5 == 'i' || c5 == 'I') && (c6
            == 't' || c6 == 'T') && (c7 == 'y' || c7 == 'Y')
    } else {
        false
    }
}

/// The characters of `s` between `from` and `to` form a decimal number,
/// with or without an exponent.
fn check_number(s: &str, from: usize, to: usize) -> (b: bool)
    requires
        from <= to <= s@.len(),
    ensures
        b == spec_valid_number(s@.subrange(from as int, to as int)),
{
    let ghost sub = s@.subrange(from as int, to as int);
    proof {
        assert(forall|k: int| 0 <= k < sub.len() ==> sub[k] == s@[from + k]);
    }
    // find the first exponent mark, if any; `to` means none
    let mut exp_at = to;
    let mut i = from;
    while i < to
        invariant
            from <= i <= to <= s@.len(),
            exp_at == to ==> forall|k: int| from <= k < i ==> !spec_is_exp_char(s@[k]),
            exp_at != to ==> from <= exp_at < to && spec_is_exp_char(s@[exp_at as int])
                && forall|k: int| from <= k < exp_at ==> !spec_is_exp_char(s@[k]),
        decreases to - i,
    {
        if exp_at == to {
            let c = s.get_char(i);
            if c == 'e' || c == 'E' {
                exp_at = i;
            }
        }
        i += 1;
    }
    let i = exp_at;
    if i == to {
        // no exponent mark anywhere: only the bare-mantissa form can apply
        let b = check_mantissa(s, from, to);
        proof {
            if !b {
                assert forall|e: int| 0 <= e < sub.len() implies !spec_is_exp_char(sub[e]) by {
                    assert(sub[e] == s@[from + e]);
                }
            }
        }
        return b;
    }
    let mant = check_mantissa(s, from, i);
    let expo = if mant {
        check_int_range(s, i + 1, to)
    } else {
        false
    };
    proof {
        let e0 = i - from;
        assert(sub[e0] == s@[i as int]);
        assert(sub.subrange(0, e0) =~= s@.subrange(from as int, i as int));
        assert(sub.subrange(e0 + 1, sub.len() as int) =~= s@.subrange(i + 1, to as int));
        if mant && expo {
            assert(spec_valid_number(sub));
        } else {
            lemma_mantissa_no_exp(sub, e0);
            assert forall|e: int|
                0 <= e < sub.len() && spec_is_exp_char(sub[e]) implies !(spec_valid_mantissa(
                sub.subrange(0, e),
            ) && spec_valid_int(sub.subrange(e + 1, sub.len() as int))) by {
                if e == e0 {
                } else {
                    // the first exponent mark stands inside the mantissa part
                    assert(sub[e] == s@[from + e]);
                    assert(e > e0);
                    assert(sub.subrange(0, e)[e0] == sub[e0]);
                    lemma_mantissa_no_exp(sub.subrange(0, e), e0);
                }
            }
        }
    }
    mant && expo
}

/// Check a token against the floating point grammar `f64` reads.
///
/// True exactly when the token is an optionally signed `inf`, `infinity` or
/// `nan` in any letter case, or an optionally signed decimal number with an
/// optional exponent.
pub fn validate_float(s: &str) -> (b: bool)
    ensures
        b == spec_valid_float(s@),
{
    let n = s.unicode_len();
    if n == 0 {
        proof {
            assert(s@.subrange(0, 0) =~= s@);
        }
        return false;
    }
    let c0 = s.get_char(0);
    let from: usize = if c0 == '+' || c0 == '-' {
        1
    } else {
        0
    };
    proof {
        if from == 1 {
            assert(s@.subrange(1, n as int) =~= s@.skip(1));
        } else {
            assert(s@.subrange(0, n as int) =~= s@);
        }
    }
    if check_special(s, from, n) {
        return true;
    }
    check_number(s, from, n)
}

} // verus!
