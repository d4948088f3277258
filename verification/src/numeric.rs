//! The surface grammar of plain numeric literals.
//!
//! A placeholder head that is nothing but a number — an optional sign, then
//! either digits with an optional point and an optional exponent, or a
//! case-insensitive `inf`, `infinity` or `nan` — is left verbatim by the
//! classifier. This is the shape of text that the standard integer and float
//! parsers accept.

use vstd::prelude::*;

verus! {

pub open spec fn dec_digit(c: char) -> bool {
    48 <= c as u32 <= 57
}

pub(crate) fn is_dec_digit(c: char) -> (r: bool)
    ensures
        r == dec_digit(c),
{
    let u = c as u32;
    48 <= u && u <= 57
}

/// The first position at or after `i` that does not hold a digit.
pub open spec fn digits_end(s: Seq<char>, i: int) -> int
    decreases s.len() - i,
{
    if i < s.len() && dec_digit(s[i]) {
        digits_end(s, i + 1)
    } else {
        i
    }
}

pub(crate) fn scan_digits(s: &Vec<char>, from: usize) -> (r: usize)
    requires
        from <= s@.len(),
    ensures
        r as int == digits_end(s@, from as int),
        from <= r <= s@.len(),
{
    let n = s.len();
    let mut i: usize = from;
    while i < n && is_dec_digit(s[i])
        invariant
            from <= i <= n,
            n == s@.len(),
            digits_end(s@, from as int) == digits_end(s@, i as int),
        decreases n - i,
    {
        i = i + 1;
    }
    proof {
        assert(digits_end(s@, i as int) == i);
    }
    i
}

/// Case-insensitive match against a lowercase ASCII letter.
pub open spec fn ci_eq(c: char, l: char) -> bool {
    c == l || c as u32 + 32 == l as u32
}

pub(crate) fn is_ci_eq(c: char, l: char) -> (r: bool)
    ensures
        r == ci_eq(c, l),
{
    c == l || (c as u32) + 32 == (l as u32)
}

/// `inf`, `infinity` or `nan`, in any letter case.
pub open spec fn is_special_float(b: Seq<char>) -> bool {
    ||| (b.len() == 3 && ci_eq(b[0], 'i') && ci_eq(b[1], 'n') && ci_eq(b[2], 'f'))
    ||| (b.len() == 8 && ci_eq(b[0], 'i') && ci_eq(b[1], 'n') && ci_eq(b[2], 'f') && ci_eq(
        b[3],
        'i',
    ) && ci_eq(b[4], 'n') && ci_eq(b[5], 'i') && ci_eq(b[6], 't') && ci_eq(b[7], 'y'))
    ||| (b.len() == 3 && ci_eq(b[0], 'n') && ci_eq(b[1], 'a') && ci_eq(b[2], 'n'))
}

/// How many characters an optional leading sign occupies.
pub open spec fn sign_end(h: Seq<char>) -> int {
    if h.len() > 0 && (h[0] == '+' || h[0] == '-') {
        1
    } else {
        0
    }
}

/// End of the digits-and-optional-point part starting at `i`, or -1 when
/// there is no digit on either side of the point.
pub open spec fn mantissa_end(b: Seq<char>, i: int) -> int {
    let d1 = digits_end(b, i);
    if d1 < b.len() && b[d1] == '.' {
        let d2 = digits_end(b, d1 + 1);
        if d1 == i && d2 == d1 + 1 {
            -1
        } else {
            d2
        }
    } else {
        if d1 == i {
            -1
        } else {
            d1
        }
    }
}

/// From `i` to the end of `b` stands a well-formed exponent.
pub open spec fn exponent_ok(b: Seq<char>, i: int) -> bool {
    &&& i < b.len()
    &&& (b[i] == 'e' || b[i] == 'E')
    &&& {
        let j = if i + 1 < b.len() && (b[i + 1] == '+' || b[i + 1] == '-') {
            i + 2
        } else {
            i + 1
        };
        j < b.len() && digits_end(b, j) == b.len()
    }
}

/// From `i` to the end of `b` stands a number: mantissa, then an optional
/// exponent.
pub open spec fn is_number_from(b: Seq<char>, i: int) -> bool {
    let me = mantissa_end(b, i);
    me >= 0 && (me == b.len() || exponent_ok(b, me))
}

/// The whole head is a plain numeric literal.
pub open spec fn spec_numeric_literal(h: Seq<char>) -> bool {
    let i = sign_end(h);
    i < h.len() && (is_special_float(h.subrange(i, h.len() as int)) || is_number_from(h, i))
}

fn is_special_float_exec(s: &Vec<char>, from: usize) -> (r: bool)
    requires
        from <= s@.len(),
    ensures
        r == is_special_float(s@.subrange(from as int, s@.len() as int)),
{
    let n = s.len();
    let ghost b = s@.subrange(from as int, s@.len() as int);
    if n - from == 3 {
        let inf = is_ci_eq(s[from], 'i') && is_ci_eq(s[from + 1], 'n') && is_ci_eq(s[from + 2], 'f');
        let nan = is_ci_eq(s[from], 'n') && is_ci_eq(s[from + 1], 'a') && is_ci_eq(s[from + 2], 'n');
        proof {
            assert(b.len() == 3 && b[0] == s@[from as int] && b[1] == s@[from + 1] && b[2] == s@[
                from + 2
            ]);
        }
        inf || nan
    } else if n - from == 8 {
        proof {
            assert(b.len() == 8);
            assert(forall|k: int| 0 <= k < 8 ==> b[k] == s@[from + k]);
        }
        is_ci_eq(s[from], 'i') && is_ci_eq(s[from + 1], 'n') && is_ci_eq(s[from + 2], 'f')
            && is_ci_eq(s[from + 3], 'i') && is_ci_eq(s[from + 4], 'n') && is_ci_eq(s[from + 5], 'i')
            && is_ci_eq(s[from + 6], 't') && is_ci_eq(s[from + 7], 'y')
    } else {
        false
    }
}

/// Whether the head is a plain numeric literal.
pub fn is_numeric_literal(h: &Vec<char>) -> (r: bool)
    ensures
        r == spec_numeric_literal(h@),
{
    let n = h.len();
    let start: usize = if n > 0 && (h[0] == '+' || h[0] == '-') {
        1
    } else {
        0
    };
    proof {
        assert(start as int == sign_end(h@));
    }
    if start >= n {
        return false;
    }
    if is_special_float_exec(h, start) {
        return true;
    }
    // mantissa
    let d1 = scan_digits(h, start);
    let me: usize;
    let mut valid: bool = true;
    if d1 < n && h[d1] == '.' {
        let d2 = scan_digits(h, d1 + 1);
        if d1 == start && d2 == d1 + 1 {
            valid = false;
        }
        me = d2;
    } else {
        if d1 == start {
            valid = false;
        }
        me = d1;
    }
    if !valid {
        proof {
            assert(mantissa_end(h@, start as int) == -1);
        }
        return false;
    }
    proof {
        assert(mantissa_end(h@, start as int) == me as int);
    }
    if me == n {
        return true;
    }
    // exponent
    if !(h[me] == 'e' || h[me] == 'E') {
        return false;
    }
    let j: usize = if me + 1 < n && (h[me + 1] == '+' || h[me + 1] == '-') {
        me + 2
    } else {
        me + 1
    };
    if j >= n {
        return false;
    }
    let k = scan_digits(h, j);
    k == n
}

} // verus!
