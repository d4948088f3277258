//! Splitting a placeholder body into head and format spec.
//!
//! The body is scanned left to right, tracking parenthesis, bracket, brace
//! and generic-angle depth plus string/char-literal state. The first `:` met
//! at depth zero outside a literal that is not part of a `::` path separator
//! splits the body; if none is met, the whole body is the head.

use vstd::prelude::*;

use crate::text::chars_of;
use crate::text::has_sub;
use crate::text::string_of;
use crate::text::subvec;
use crate::unicode::char_alphabetic;
use crate::unicode::char_alphanumeric;
use crate::unicode::char_uppercase;
use crate::unicode::char_whitespace;
use crate::unicode::unicode_alphabetic;
use crate::unicode::unicode_alphanumeric;
use crate::unicode::unicode_uppercase;
use crate::unicode::unicode_whitespace;
use crate::unicode::word_char;

verus! {

/// End of `s[..i]` once trailing whitespace is dropped.
pub open spec fn trimmed_end(s: Seq<char>, i: int) -> int
    decreases i,
{
    if i <= 0 {
        0
    } else if unicode_whitespace(s[i - 1]) {
        trimmed_end(s, i - 1)
    } else {
        i
    }
}

/// Start of the maximal whitespace-free run ending at `t`.
pub open spec fn token_start(s: Seq<char>, t: int) -> int
    decreases t,
{
    if t <= 0 {
        0
    } else if unicode_whitespace(s[t - 1]) {
        t
    } else {
        token_start(s, t - 1)
    }
}

/// A character that may appear in the token before a generic bracket.
pub open spec fn token_char(c: char) -> bool {
    word_char(c) || c == ':'
}

/// Heuristic for `<` after whitespace: the last token before the whitespace
/// run is made of identifier characters and looks like a type name — it
/// holds a path separator, starts uppercase, ends in `_t`, or is longer than
/// one character.
pub open spec fn spec_generic_with_space(s: Seq<char>, idx: int) -> bool {
    let te = trimmed_end(s, idx);
    if te == 0 {
        false
    } else {
        let tok = s.subrange(token_start(s, te), te);
        (forall|i: int| 0 <= i < tok.len() ==> token_char(tok[i])) && {
            ||| has_sub(tok, seq![':', ':'])
            ||| unicode_uppercase(tok[0])
            ||| (tok.len() >= 2 && tok[tok.len() - 2] == '_' && tok[tok.len() - 1] == 't')
            ||| tok.len() > 1
        }
    }
}

/// Whether the `<` at `idx` opens a generic-parameter list rather than being
/// a comparison or shift operator, judged by the preceding character.
pub open spec fn spec_counts_as_generic(s: Seq<char>, idx: int) -> bool {
    if idx <= 0 || idx > s.len() {
        false
    } else {
        let p = s[idx - 1];
        if unicode_alphanumeric(p) || p == '_' {
            true
        } else if p == ':' {
            true
        } else if p == '>' {
            true
        } else if p == '=' || p == '!' || p == '<' {
            false
        } else if p == ' ' || p == '\t' || p == '\n' {
            spec_generic_with_space(s, idx)
        } else {
            false
        }
    }
}

/// The `'` at `i` marks a named lifetime rather than opening a char literal:
/// it follows `&`, a comma, a space or `<`, and an identifier character
/// follows it.
pub open spec fn is_lifetime_quote(s: Seq<char>, i: int) -> bool {
    &&& i > 0
    &&& (s[i - 1] == '&' || s[i - 1] == ',' || s[i - 1] == ' ' || s[i - 1] == '<')
    &&& i + 1 < s.len()
    &&& (unicode_alphabetic(s[i + 1]) || s[i + 1] == '_')
}

/// Position of the spec separator of `s`, scanning from `i` with the given
/// nesting depths and literal state; None when no separator is met.
pub open spec fn sep_from(
    s: Seq<char>,
    i: int,
    pd: int,
    bd: int,
    cd: int,
    ad: int,
    ins: bool,
    inc: bool,
    esc: bool,
) -> Option<int>
    decreases s.len() - i,
{
    if i < 0 || i >= s.len() {
        None
    } else {
        let c = s[i];
        if esc {
            sep_from(s, i + 1, pd, bd, cd, ad, ins, inc, false)
        } else if c == '\\' && (ins || inc) {
            sep_from(s, i + 1, pd, bd, cd, ad, ins, inc, true)
        } else if c == '"' && !inc {
            sep_from(s, i + 1, pd, bd, cd, ad, !ins, inc, false)
        } else if c == '\'' && !ins {
            if inc {
                sep_from(s, i + 1, pd, bd, cd, ad, ins, false, false)
            } else if is_lifetime_quote(s, i) {
                sep_from(s, i + 1, pd, bd, cd, ad, ins, inc, false)
            } else {
                sep_from(s, i + 1, pd, bd, cd, ad, ins, true, false)
            }
        } else if ins || inc {
            sep_from(s, i + 1, pd, bd, cd, ad, ins, inc, false)
        } else if c == '(' {
            sep_from(s, i + 1, pd + 1, bd, cd, ad, ins, inc, false)
        } else if c == ')' {
            sep_from(s, i + 1, pd - 1, bd, cd, ad, ins, inc, false)
        } else if c == '[' {
            sep_from(s, i + 1, pd, bd + 1, cd, ad, ins, inc, false)
        } else if c == ']' {
            sep_from(s, i + 1, pd, bd - 1, cd, ad, ins, inc, false)
        } else if c == '{' {
            sep_from(s, i + 1, pd, bd, cd + 1, ad, ins, inc, false)
        } else if c == '}' {
            sep_from(s, i + 1, pd, bd, cd - 1, ad, ins, inc, false)
        } else if c == '<' {
            if spec_counts_as_generic(s, i) {
                sep_from(s, i + 1, pd, bd, cd, ad + 1, ins, inc, false)
            } else {
                sep_from(s, i + 1, pd, bd, cd, ad, ins, inc, false)
            }
        } else if c == '>' {
            if ad > 0 {
                sep_from(s, i + 1, pd, bd, cd, ad - 1, ins, inc, false)
            } else {
                sep_from(s, i + 1, pd, bd, cd, ad, ins, inc, false)
            }
        } else if c == ':' && pd == 0 && bd == 0 && cd == 0 && ad == 0 {
            if i + 1 < s.len() && s[i + 1] == ':' {
                sep_from(s, i + 2, pd, bd, cd, ad, ins, inc, false)
            } else {
                Some(i)
            }
        } else {
            sep_from(s, i + 1, pd, bd, cd, ad, ins, inc, false)
        }
    }
}

/// The head and the (possibly empty) format spec of a placeholder body.
pub open spec fn split_body(s: Seq<char>) -> (Seq<char>, Seq<char>) {
    match sep_from(s, 0, 0, 0, 0, 0, false, false, false) {
        Some(ci) => (s.subrange(0, ci), s.subrange(ci + 1, s.len() as int)),
        None => (s, Seq::<char>::empty()),
    }
}

proof fn lemma_sep_bounds(
    s: Seq<char>,
    i: int,
    pd: int,
    bd: int,
    cd: int,
    ad: int,
    ins: bool,
    inc: bool,
    esc: bool,
)
    ensures
        match sep_from(s, i, pd, bd, cd, ad, ins, inc, esc) {
            Some(ci) => i <= ci < s.len() && s[ci] == ':',
            None => true,
        },
    decreases s.len() - i,
{
    if i < 0 || i >= s.len() {
    } else {
        let c = s[i];
        if esc {
            lemma_sep_bounds(s, i + 1, pd, bd, cd, ad, ins, inc, false);
        } else if c == '\\' && (ins || inc) {
            lemma_sep_bounds(s, i + 1, pd, bd, cd, ad, ins, inc, true);
        } else if c == '"' && !inc {
            lemma_sep_bounds(s, i + 1, pd, bd, cd, ad, !ins, inc, false);
        } else if c == '\'' && !ins {
            if inc {
                lemma_sep_bounds(s, i + 1, pd, bd, cd, ad, ins, false, false);
            } else if is_lifetime_quote(s, i) {
                lemma_sep_bounds(s, i + 1, pd, bd, cd, ad, ins, inc, false);
            } else {
                lemma_sep_bounds(s, i + 1, pd, bd, cd, ad, ins, true, false);
            }
        } else if ins || inc {
            lemma_sep_bounds(s, i + 1, pd, bd, cd, ad, ins, inc, false);
        } else if c == '(' {
            lemma_sep_bounds(s, i + 1, pd + 1, bd, cd, ad, ins, inc, false);
        } else if c == ')' {
            lemma_sep_bounds(s, i + 1, pd - 1, bd, cd, ad, ins, inc, false);
        } else if c == '[' {
            lemma_sep_bounds(s, i + 1, pd, bd + 1, cd, ad, ins, inc, false);
        } else if c == ']' {
            lemma_sep_bounds(s, i + 1, pd, bd - 1, cd, ad, ins, inc, false);
        } else if c == '{' {
            lemma_sep_bounds(s, i + 1, pd, bd, cd + 1, ad, ins, inc, false);
        } else if c == '}' {
            lemma_sep_bounds(s, i + 1, pd, bd, cd - 1, ad, ins, inc, false);
        } else if c == '<' {
            if spec_counts_as_generic(s, i) {
                lemma_sep_bounds(s, i + 1, pd, bd, cd, ad + 1, ins, inc, false);
            } else {
                lemma_sep_bounds(s, i + 1, pd, bd, cd, ad, ins, inc, false);
            }
        } else if c == '>' {
            if ad > 0 {
                lemma_sep_bounds(s, i + 1, pd, bd, cd, ad - 1, ins, inc, false);
            } else {
                lemma_sep_bounds(s, i + 1, pd, bd, cd, ad, ins, inc, false);
            }
        } else if c == ':' && pd == 0 && bd == 0 && cd == 0 && ad == 0 {
            if i + 1 < s.len() && s[i + 1] == ':' {
                lemma_sep_bounds(s, i + 2, pd, bd, cd, ad, ins, inc, false);
            }
        } else {
            lemma_sep_bounds(s, i + 1, pd, bd, cd, ad, ins, inc, false);
        }
    }
}

/// What the splitter takes apart it accounts for in full: either there is no
/// separator and the head is the whole body with an empty spec, or the body
/// is exactly the head, a colon, and the spec.
pub proof fn lemma_split_reassembles(body: Seq<char>)
    ensures
        ({
            let (h, sp) = split_body(body);
            (h == body && sp.len() == 0) || body == h + seq![':'] + sp
        }),
{
    lemma_sep_bounds(body, 0, 0, 0, 0, 0, false, false, false);
    match sep_from(body, 0, 0, 0, 0, 0, false, false, false) {
        Some(ci) => {
            assert(body =~= body.subrange(0, ci) + seq![':'] + body.subrange(
                ci + 1,
                body.len() as int,
            ));
        },
        None => {},
    }
}

fn generic_with_space_chars(s: &Vec<char>, idx: usize) -> (r: bool)
    requires
        idx <= s@.len(),
    ensures
        r == spec_generic_with_space(s@, idx as int),
{
    let mut te: usize = idx;
    while te > 0 && char_whitespace(s[te - 1])
        invariant
            te <= idx <= s@.len(),
            trimmed_end(s@, idx as int) == trimmed_end(s@, te as int),
        decreases te,
    {
        te = te - 1;
    }
    proof {
        assert(trimmed_end(s@, te as int) == te as int);
    }
    if te == 0 {
        return false;
    }
    let mut ts: usize = te;
    while ts > 0 && !char_whitespace(s[ts - 1])
        invariant
            ts <= te <= s@.len(),
            0 < te,
            !unicode_whitespace(s@[te - 1]),
            token_start(s@, te as int) == token_start(s@, ts as int),
        decreases ts,
    {
        ts = ts - 1;
    }
    proof {
        assert(token_start(s@, ts as int) == ts as int);
        assert(ts < te);
    }
    let tok = subvec(s, ts, te);
    let ghost tok_spec = s@.subrange(token_start(s@, te as int), te as int);
    proof {
        assert(tok@ == tok_spec);
    }
    let n = tok.len();
    let mut i: usize = 0;
    while i < n
        invariant
            i <= n,
            n == tok@.len(),
            0 < te <= s@.len(),
            te as int == trimmed_end(s@, idx as int),
            tok@ == s@.subrange(token_start(s@, te as int), te as int),
            forall|j: int| 0 <= j < i ==> token_char(tok@[j]),
        decreases n - i,
    {
        let c = tok[i];
        if !(char_alphanumeric(c) || c == '_' || c == ':') {
            return false;
        }
        i = i + 1;
    }
    if n > 1 {
        return true;
    }
    if char_uppercase(tok[0]) {
        return true;
    }
    // with a single-character token neither `::` nor `_t` can occur
    proof {
        assert(!has_sub(tok@, seq![':', ':'])) by {
            assert(forall|k: int| !crate::text::sub_at(tok@, seq![':', ':'], k));
        }
    }
    false
}

/// Whether the `<` at character position `idx` of `s` opens a
/// generic-parameter list.
pub fn should_count_as_generic(s: &str, idx: usize) -> (r: bool)
    ensures
        r == spec_counts_as_generic(s@, idx as int),
{
    let v = chars_of(s);
    counts_as_generic_chars(&v, idx)
}

pub(crate) fn counts_as_generic_chars(s: &Vec<char>, idx: usize) -> (r: bool)
    ensures
        r == spec_counts_as_generic(s@, idx as int),
{
    if idx == 0 || idx > s.len() {
        return false;
    }
    let p = s[idx - 1];
    if char_alphanumeric(p) || p == '_' {
        true
    } else if p == ':' || p == '>' {
        true
    } else if p == '=' || p == '!' || p == '<' {
        false
    } else if p == ' ' || p == '\t' || p == '\n' {
        generic_with_space_chars(s, idx)
    } else {
        false
    }
}

/// Whether the last whitespace-delimited token before position `idx` looks
/// like a type name that can take generic parameters.
pub fn is_likely_generic_with_space(s: &str, idx: usize) -> (r: bool)
    requires
        idx <= s@.len(),
    ensures
        r == spec_generic_with_space(s@, idx as int),
{
    let v = chars_of(s);
    generic_with_space_chars(&v, idx)
}

pub(crate) fn split_chars(s: &Vec<char>) -> (r: (Vec<char>, Vec<char>))
    ensures
        r.0@ == split_body(s@).0,
        r.1@ == split_body(s@).1,
{
    let n = s.len();
    let mut i: usize = 0;
    let mut pd: i128 = 0;
    let mut bd: i128 = 0;
    let mut cd: i128 = 0;
    let mut ad: i128 = 0;
    let mut ins: bool = false;
    let mut inc: bool = false;
    let mut esc: bool = false;
    loop
        invariant
            i <= n,
            n == s@.len(),
            -(i as int) <= pd <= i as int,
            -(i as int) <= bd <= i as int,
            -(i as int) <= cd <= i as int,
            0 <= ad <= i as int,
            sep_from(s@, 0, 0, 0, 0, 0, false, false, false) == sep_from(
                s@,
                i as int,
                pd as int,
                bd as int,
                cd as int,
                ad as int,
                ins,
                inc,
                esc,
            ),
        decreases n - i,
    {
        if i >= n {
            let head = subvec(s, 0, n);
            let tail: Vec<char> = Vec::new();
            proof {
                assert(head@ =~= s@);
            }
            return (head, tail);
        }
        let c = s[i];
        if esc {
            esc = false;
            i = i + 1;
        } else if c == '\\' && (ins || inc) {
            esc = true;
            i = i + 1;
        } else if c == '"' && !inc {
            ins = !ins;
            i = i + 1;
        } else if c == '\'' && !ins {
            if inc {
                inc = false;
            } else {
                let prev_marks = i > 0 && (s[i - 1] == '&' || s[i - 1] == ',' || s[i - 1] == ' '
                    || s[i - 1] == '<');
                let lifetime = prev_marks && i + 1 < n && (char_alphabetic(s[i + 1]) || s[i + 1]
                    == '_');
                proof {
                    assert(lifetime == is_lifetime_quote(s@, i as int));
                }
                if !lifetime {
                    inc = true;
                }
            }
            i = i + 1;
        } else if ins || inc {
            i = i + 1;
        } else if c == '(' {
            pd = pd + 1;
            i = i + 1;
        } else if c == ')' {
            pd = pd - 1;
            i = i + 1;
        } else if c == '[' {
            bd = bd + 1;
            i = i + 1;
        } else if c == ']' {
            bd = bd - 1;
            i = i + 1;
        } else if c == '{' {
            cd = cd + 1;
            i = i + 1;
        } else if c == '}' {
            cd = cd - 1;
            i = i + 1;
        } else if c == '<' {
            if counts_as_generic_chars(s, i) {
                ad = ad + 1;
            }
            i = i + 1;
        } else if c == '>' {
            if ad > 0 {
                ad = ad - 1;
            }
            i = i + 1;
        } else if c == ':' && pd == 0 && bd == 0 && cd == 0 && ad == 0 {
            if i + 1 < n && s[i + 1] == ':' {
                i = i + 2;
            } else {
                proof {
                    assert(sep_from(
                        s@,
                        i as int,
                        pd as int,
                        bd as int,
                        cd as int,
                        ad as int,
                        ins,
                        inc,
                        esc,
                    ) == Some(i as int));
                }
                let head = subvec(s, 0, i);
                let tail = subvec(s, i + 1, n);
                return (head, tail);
            }
        } else {
            i = i + 1;
        }
    }
}

/// Split a placeholder body into its head and its format spec; the spec is
/// empty when the body holds no separator.
pub fn split_head_spec(body: &str) -> (r: (String, String))
    ensures
        r.0@ == split_body(body@).0,
        r.1@ == split_body(body@).1,
{
    let v = chars_of(body);
    let (h, sp) = split_chars(&v);
    (string_of(&h), string_of(&sp))
}

} // verus!
