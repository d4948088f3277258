//! Deciding whether a placeholder head is hoisted.
//!
//! A head that is a bare identifier or a plain numeric literal is left
//! verbatim. Anything that shows member access, paths, calls, indexing,
//! references, casts, the try operator, ranges, blocks, control expressions
//! or an operator token outside a string literal is hoisted.

use vstd::prelude::*;

use crate::numeric::is_numeric_literal;
use crate::numeric::spec_numeric_literal;
use crate::text::begins_with;
use crate::text::chars_of;
use crate::text::contains_char;
use crate::text::contains_sub;
use crate::text::has_char;
use crate::text::has_sub;
use crate::text::match_at;
use crate::text::starts_with;
use crate::text::sub_at;
use crate::unicode::char_alphanumeric;
use crate::unicode::is_word_char;
use crate::unicode::unicode_alphanumeric;
use crate::unicode::word_char;

verus! {

/// How many operator tokens the scan recognizes.
pub open spec fn op_count() -> int {
    24
}

/// The operator tokens, arithmetic, comparison, logical, bitwise and
/// assignment.
pub open spec fn op_token(k: int) -> Seq<char> {
    if k == 0 {
        seq!['+']
    } else if k == 1 {
        seq!['-']
    } else if k == 2 {
        seq!['*']
    } else if k == 3 {
        seq!['/']
    } else if k == 4 {
        seq!['%']
    } else if k == 5 {
        seq!['=', '=']
    } else if k == 6 {
        seq!['!', '=']
    } else if k == 7 {
        seq!['<']
    } else if k == 8 {
        seq!['>']
    } else if k == 9 {
        seq!['<', '=']
    } else if k == 10 {
        seq!['>', '=']
    } else if k == 11 {
        seq!['&', '&']
    } else if k == 12 {
        seq!['|', '|']
    } else if k == 13 {
        seq!['!']
    } else if k == 14 {
        seq!['&']
    } else if k == 15 {
        seq!['|']
    } else if k == 16 {
        seq!['^']
    } else if k == 17 {
        seq!['<', '<']
    } else if k == 18 {
        seq!['>', '>']
    } else if k == 19 {
        seq!['=']
    } else if k == 20 {
        seq!['+', '=']
    } else if k == 21 {
        seq!['-', '=']
    } else if k == 22 {
        seq!['*', '=']
    } else {
        seq!['/', '=']
    }
}

fn op_token_exec(k: usize) -> (v: Vec<char>)
    requires
        k < op_count(),
    ensures
        v@ == op_token(k as int),
{
    let mut v: Vec<char> = Vec::new();
    if k == 0 {
        v.push('+');
    } else if k == 1 {
        v.push('-');
    } else if k == 2 {
        v.push('*');
    } else if k == 3 {
        v.push('/');
    } else if k == 4 {
        v.push('%');
    } else if k == 5 {
        v.push('=');
        v.push('=');
    } else if k == 6 {
        v.push('!');
        v.push('=');
    } else if k == 7 {
        v.push('<');
    } else if k == 8 {
        v.push('>');
    } else if k == 9 {
        v.push('<');
        v.push('=');
    } else if k == 10 {
        v.push('>');
        v.push('=');
    } else if k == 11 {
        v.push('&');
        v.push('&');
    } else if k == 12 {
        v.push('|');
        v.push('|');
    } else if k == 13 {
        v.push('!');
    } else if k == 14 {
        v.push('&');
    } else if k == 15 {
        v.push('|');
    } else if k == 16 {
        v.push('^');
    } else if k == 17 {
        v.push('<');
        v.push('<');
    } else if k == 18 {
        v.push('>');
        v.push('>');
    } else if k == 19 {
        v.push('=');
    } else if k == 20 {
        v.push('+');
        v.push('=');
    } else if k == 21 {
        v.push('-');
        v.push('=');
    } else if k == 22 {
        v.push('*');
        v.push('=');
    } else {
        v.push('/');
        v.push('=');
    }
    proof {
        assert(v@ =~= op_token(k as int));
    }
    v
}

/// The string-literal state just before position `i`: whether the scan is
/// inside a double-quoted literal, and whether the previous character was a
/// backslash inside one.
pub open spec fn lit_state(h: Seq<char>, i: int) -> (bool, bool)
    decreases i,
{
    if i <= 0 {
        (false, false)
    } else {
        let prev = lit_state(h, i - 1);
        let c = h[i - 1];
        if prev.1 {
            (prev.0, false)
        } else if c == '\\' && prev.0 {
            (prev.0, true)
        } else if c == '"' {
            (!prev.0, false)
        } else {
            (prev.0, false)
        }
    }
}

/// Operator `k` stands at position `i` of `h`, not embedded in a longer
/// word: the characters before and after the token (if any) are not
/// alphanumeric.
pub open spec fn op_at(h: Seq<char>, i: int, k: int) -> bool {
    &&& sub_at(h, op_token(k), i)
    &&& (i == 0 || !unicode_alphanumeric(h[i - 1]))
    &&& (i + op_token(k).len() == h.len() || !unicode_alphanumeric(h[i + op_token(k).len()]))
}

/// Some operator token stands somewhere in `h`, outside any string literal.
pub open spec fn spec_is_complex(h: Seq<char>) -> bool {
    exists|i: int, k: int|
        0 <= i < h.len() && 0 <= k < op_count() && !lit_state(h, i).0 && !lit_state(h, i).1
            && op_at(h, i, k)
}

fn op_match(h: &Vec<char>, i: usize, k: usize) -> (r: bool)
    requires
        i < h@.len(),
        k < op_count(),
    ensures
        r == op_at(h@, i as int, k as int),
{
    let op = op_token_exec(k);
    let n = h.len();
    if op.len() > n - i {
        return false;
    }
    if !match_at(h, &op, i) {
        return false;
    }
    let before_ok = i == 0 || !char_alphanumeric(h[i - 1]);
    let after = i + op.len();
    let after_ok = after == n || !char_alphanumeric(h[after]);
    before_ok && after_ok
}

fn any_op_at(h: &Vec<char>, i: usize) -> (r: bool)
    requires
        i < h@.len(),
    ensures
        r == exists|k: int| 0 <= k < op_count() && op_at(h@, i as int, k),
{
    let mut k: usize = 0;
    while k < 24
        invariant
            k <= 24,
            i < h@.len(),
            forall|k2: int| 0 <= k2 < k ==> !op_at(h@, i as int, k2),
        decreases 24 - k,
    {
        if op_match(h, i, k) {
            return true;
        }
        k = k + 1;
    }
    false
}

pub(crate) fn is_complex_chars(h: &Vec<char>) -> (r: bool)
    ensures
        r == spec_is_complex(h@),
{
    let n = h.len();
    let mut i: usize = 0;
    let mut ins: bool = false;
    let mut esc: bool = false;
    while i < n
        invariant
            i <= n,
            n == h@.len(),
            ins == lit_state(h@, i as int).0,
            esc == lit_state(h@, i as int).1,
            forall|i2: int, k: int|
                0 <= i2 < i && 0 <= k < op_count() && !lit_state(h@, i2).0 && !lit_state(h@, i2).1
                    ==> !op_at(h@, i2, k),
        decreases n - i,
    {
        let c = h[i];
        if esc {
            esc = false;
        } else if c == '\\' && ins {
            esc = true;
        } else if c == '"' {
            proof {
                assert forall|k: int| 0 <= k < op_count() implies !op_at(h@, i as int, k) by {
                    if sub_at(h@, op_token(k), i as int) {
                        assert(h@.subrange(i as int, i + op_token(k).len() as int)[0] == h@[
                            i as int
                        ]);
                    }
                }
            }
            ins = !ins;
        } else if ins {
            // characters inside a string literal are never operator starts
        } else {
            if any_op_at(h, i) {
                return true;
            }
        }
        i = i + 1;
        proof {
            assert(lit_state(h@, i as int).0 == ins && lit_state(h@, i as int).1 == esc);
        }
    }
    false
}

/// Whether the head shows an operator token outside a string literal.
pub fn is_complex_expression(head: &str) -> (r: bool)
    ensures
        r == spec_is_complex(head@),
{
    let h = chars_of(head);
    is_complex_chars(&h)
}

/// Every character of `h` could belong to a bare identifier or number.
pub open spec fn all_word_chars(h: Seq<char>) -> bool {
    forall|i: int| 0 <= i < h.len() ==> word_char(h[i])
}

fn all_word_chars_exec(h: &Vec<char>) -> (r: bool)
    ensures
        r == all_word_chars(h@),
{
    let n = h.len();
    let mut i: usize = 0;
    while i < n
        invariant
            i <= n,
            n == h@.len(),
            forall|j: int| 0 <= j < i ==> word_char(h@[j]),
        decreases n - i,
    {
        if !is_word_char(h[i]) {
            return false;
        }
        i = i + 1;
    }
    true
}

/// The classifier: a head is hoisted iff it is not a bare word or plain
/// number and shows any expression-forming syntax.
pub open spec fn spec_should_extract(h: Seq<char>) -> bool {
    if all_word_chars(h) {
        false
    } else if spec_numeric_literal(h) {
        false
    } else {
        ||| has_char(h, '.')
        ||| has_sub(h, seq![':', ':'])
        ||| has_char(h, '(')
        ||| has_char(h, '[')
        ||| has_char(h, '<')
        ||| (h.len() > 0 && h[0] == '&')
        ||| begins_with(h, seq!['m', 'u', 't', ' '])
        ||| begins_with(h, seq!['&', 'm', 'u', 't', ' '])
        ||| (h.len() > 0 && h[0] == '*')
        ||| has_sub(h, seq![' ', 'a', 's', ' '])
        ||| has_char(h, '?')
        ||| has_sub(h, seq!['.', '.'])
        ||| has_char(h, '{')
        ||| has_sub(h, seq![' ', 'i', 'f', ' '])
        ||| has_sub(h, seq![' ', 'm', 'a', 't', 'c', 'h', ' '])
        ||| spec_is_complex(h)
    }
}

fn pat2(a: char, b: char) -> (v: Vec<char>)
    ensures
        v@ == seq![a, b],
{
    let mut v: Vec<char> = Vec::new();
    v.push(a);
    v.push(b);
    proof {
        assert(v@ =~= seq![a, b]);
    }
    v
}

fn pat4(a: char, b: char, c: char, d: char) -> (v: Vec<char>)
    ensures
        v@ == seq![a, b, c, d],
{
    let mut v = pat2(a, b);
    v.push(c);
    v.push(d);
    proof {
        assert(v@ =~= seq![a, b, c, d]);
    }
    v
}

pub(crate) fn should_extract_chars(h: &Vec<char>) -> (r: bool)
    ensures
        r == spec_should_extract(h@),
{
    if all_word_chars_exec(h) {
        return false;
    }
    if is_numeric_literal(h) {
        return false;
    }
    if contains_char(h, '.') || contains_char(h, '(') || contains_char(h, '[') || contains_char(
        h,
        '<',
    ) || contains_char(h, '?') || contains_char(h, '{') {
        return true;
    }
    if h.len() > 0 && (h[0] == '&' || h[0] == '*') {
        return true;
    }
    let path_sep = pat2(':', ':');
    let range_tok = pat2('.', '.');
    if contains_sub(h, &path_sep) || contains_sub(h, &range_tok) {
        return true;
    }
    let mut_prefix = pat4('m', 'u', 't', ' ');
    if starts_with(h, &mut_prefix) {
        return true;
    }
    let mut ref_mut_prefix = pat2('&', 'm');
    ref_mut_prefix.push('u');
    ref_mut_prefix.push('t');
    ref_mut_prefix.push(' ');
    proof {
        assert(ref_mut_prefix@ =~= seq!['&', 'm', 'u', 't', ' ']);
    }
    if starts_with(h, &ref_mut_prefix) {
        return true;
    }
    let as_tok = pat4(' ', 'a', 's', ' ');
    if contains_sub(h, &as_tok) {
        return true;
    }
    let if_tok = pat4(' ', 'i', 'f', ' ');
    if contains_sub(h, &if_tok) {
        return true;
    }
    let mut match_tok = pat4(' ', 'm', 'a', 't');
    match_tok.push('c');
    match_tok.push('h');
    match_tok.push(' ');
    proof {
        assert(match_tok@ =~= seq![' ', 'm', 'a', 't', 'c', 'h', ' ']);
    }
    if contains_sub(h, &match_tok) {
        return true;
    }
    is_complex_chars(h)
}

/// Whether a placeholder head should be hoisted out of the template.
pub fn should_extract_expression(head: &str) -> (r: bool)
    ensures
        r == spec_should_extract(head@),
{
    let h = chars_of(head);
    should_extract_chars(&h)
}

} // verus!
