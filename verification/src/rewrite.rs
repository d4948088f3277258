//! Hoisting placeholder expressions out of a template.
//!
//! The template is scanned left to right. Escaped braces are copied; each
//! placeholder body is split into head and spec; a head that the classifier
//! marks and that parses as an expression is interned — the same text always
//! to the same index, a new text to the next index — and the placeholder is
//! replaced by `{index}` or `{index:spec}`. Everything else is copied
//! byte-identically. A head that the classifier marks but that does not
//! parse is tolerated: its placeholder is kept verbatim.

use vstd::prelude::*;

use crate::args::all_args_valid;
use crate::args::categorize;
use crate::args::filter_args;
use crate::classify::should_extract_chars;
use crate::classify::spec_should_extract;
use crate::errors::TemplateError;
use crate::expr_parse::expression_is_valid;
use crate::expr_parse::parses_as_expr;
use crate::scan::find_placeholder_end;
use crate::scan::lemma_placeholder_end_bounds;
use crate::scan::placeholder_end;
use crate::split::split_body;
use crate::split::split_chars;
use crate::text::chars_of;
use crate::text::string_of;
use crate::text::subvec;
use crate::text::chars_eq;

verus! {

/// The character for one decimal digit.
pub open spec fn digit_char(d: int) -> char {
    if d == 0 {
        '0'
    } else if d == 1 {
        '1'
    } else if d == 2 {
        '2'
    } else if d == 3 {
        '3'
    } else if d == 4 {
        '4'
    } else if d == 5 {
        '5'
    } else if d == 6 {
        '6'
    } else if d == 7 {
        '7'
    } else if d == 8 {
        '8'
    } else {
        '9'
    }
}

/// The decimal digits of `n`, most significant first.
pub open spec fn decimal_digits(n: int) -> Seq<char>
    decreases n,
{
    if n < 10 {
        seq![digit_char(n)]
    } else {
        decimal_digits(n / 10).push(digit_char(n % 10))
    }
}

fn digit_char_exec(d: usize) -> (c: char)
    requires
        d < 10,
    ensures
        c == digit_char(d as int),
{
    if d == 0 {
        '0'
    } else if d == 1 {
        '1'
    } else if d == 2 {
        '2'
    } else if d == 3 {
        '3'
    } else if d == 4 {
        '4'
    } else if d == 5 {
        '5'
    } else if d == 6 {
        '6'
    } else if d == 7 {
        '7'
    } else if d == 8 {
        '8'
    } else {
        '9'
    }
}

fn decimal_of(n: usize) -> (v: Vec<char>)
    ensures
        v@ == decimal_digits(n as int),
    decreases n,
{
    if n < 10 {
        let mut v: Vec<char> = Vec::new();
        v.push(digit_char_exec(n));
        proof {
            assert(v@ =~= decimal_digits(n as int));
        }
        v
    } else {
        let mut v = decimal_of(n / 10);
        v.push(digit_char_exec(n % 10));
        proof {
            assert(v@ =~= decimal_digits(n as int));
        }
        v
    }
}

/// Some interned key equals `k`.
pub open spec fn has_key(keys: Seq<Seq<char>>, k: Seq<char>) -> bool {
    exists|i: int| 0 <= i < keys.len() && keys[i] == k
}

/// The index of the first interned key equal to `k`; the length when none
/// is.
pub open spec fn key_index(keys: Seq<Seq<char>>, k: Seq<char>) -> int
    decreases keys.len(),
{
    if keys.len() == 0 {
        0
    } else if keys[0] == k {
        0
    } else {
        1 + key_index(keys.drop_first(), k)
    }
}

proof fn lemma_key_index_first(keys: Seq<Seq<char>>, k: Seq<char>, i: int)
    requires
        0 <= i < keys.len(),
        keys[i] == k,
        forall|j: int| 0 <= j < i ==> keys[j] != k,
    ensures
        key_index(keys, k) == i,
    decreases i,
{
    if i == 0 {
    } else {
        assert(keys[0] != k);
        let rest = keys.drop_first();
        assert(rest[i - 1] == keys[i]);
        assert(forall|j: int| 0 <= j < i - 1 ==> rest[j] == keys[j + 1] && rest[j] != k);
        lemma_key_index_first(rest, k, i - 1);
    }
}

fn find_key(keys: &Vec<Vec<char>>, k: &Vec<char>) -> (r: Option<usize>)
    ensures
        match r {
            Some(ix) => has_key(keys.deep_view(), k@) && ix as int == key_index(
                keys.deep_view(),
                k@,
            ) && ix < keys.deep_view().len(),
            None => !has_key(keys.deep_view(), k@),
        },
{
    let n = keys.len();
    let mut i: usize = 0;
    while i < n
        invariant
            i <= n,
            n == keys@.len(),
            forall|j: int| 0 <= j < i ==> keys.deep_view()[j] != k@,
        decreases n - i,
    {
        if chars_eq(&keys[i], k) {
            proof {
                assert(keys.deep_view()[i as int] =~= k@);
                lemma_key_index_first(keys.deep_view(), k@, i as int);
            }
            return Some(i);
        }
        proof {
            assert(keys.deep_view()[i as int] =~= keys@[i as int]@);
        }
        i = i + 1;
    }
    proof {
        assert(!has_key(keys.deep_view(), k@)) by {
            if has_key(keys.deep_view(), k@) {
                let j = choose|j: int|
                    0 <= j < keys.deep_view().len() && keys.deep_view()[j] == k@;
                assert(keys.deep_view()[j] != k@);
            }
        }
    }
    None
}

/// A placeholder body whose head is hoisted: the classifier marks the head
/// and the head parses as an expression.
pub open spec fn hoisted(piece: Seq<char>) -> bool {
    let head = split_body(piece).0;
    spec_should_extract(head) && parses_as_expr(head)
}

/// The text that replaces a hoisted placeholder: the index, keeping a
/// non-empty spec.
pub open spec fn indexed_placeholder(idx: int, sp: Seq<char>) -> Seq<char> {
    seq!['{'] + decimal_digits(idx) + (if sp.len() > 0 {
        seq![':'] + sp
    } else {
        Seq::<char>::empty()
    }) + seq!['}']
}

/// The rewriting of `s` from position `i` on, with `out` the text already
/// emitted and `keys` the heads already interned in first-occurrence order;
/// None when an unmatched `{` is met.
pub open spec fn rewrite_from(
    s: Seq<char>,
    i: int,
    out: Seq<char>,
    keys: Seq<Seq<char>>,
) -> Option<(Seq<char>, Seq<Seq<char>>)>
    decreases s.len() - i,
    via rewrite_from_dec
{
    if i < 0 {
        None
    } else if i >= s.len() {
        Some((out, keys))
    } else if s[i] == '{' && i + 1 < s.len() && s[i + 1] == '{' {
        rewrite_from(s, i + 2, out + seq!['{', '{'], keys)
    } else if s[i] == '}' && i + 1 < s.len() && s[i + 1] == '}' {
        rewrite_from(s, i + 2, out + seq!['}', '}'], keys)
    } else if s[i] == '{' {
        match placeholder_end(s, i + 1, 1, false, false, false) {
            None => None,
            Some(j) => {
                let piece = s.subrange(i + 1, j - 1);
                if hoisted(piece) {
                    let head = split_body(piece).0;
                    let sp = split_body(piece).1;
                    let idx = if has_key(keys, head) {
                        key_index(keys, head)
                    } else {
                        keys.len() as int
                    };
                    let keys2 = if has_key(keys, head) {
                        keys
                    } else {
                        keys.push(head)
                    };
                    rewrite_from(s, j, out + indexed_placeholder(idx, sp), keys2)
                } else {
                    rewrite_from(s, j, out + seq!['{'] + piece + seq!['}'], keys)
                }
            },
        }
    } else {
        rewrite_from(s, i + 1, out.push(s[i]), keys)
    }
}

#[via_fn]
proof fn rewrite_from_dec(s: Seq<char>, i: int, out: Seq<char>, keys: Seq<Seq<char>>) {
    if 0 <= i < s.len() {
        lemma_placeholder_end_bounds(s, i + 1, 1, false, false, false);
    }
}

/// The rewriting of a whole template: the output text and the hoisted heads
/// in first-occurrence order; None when the template is malformed.
pub open spec fn rewrite_template(t: Seq<char>) -> Option<(Seq<char>, Seq<Seq<char>>)> {
    rewrite_from(t, 0, Seq::<char>::empty(), Seq::<Seq<char>>::empty())
}

fn rewrite_chars(s: &Vec<char>) -> (r: Result<(Vec<char>, Vec<Vec<char>>), TemplateError>)
    ensures
        match r {
            Ok(p) => rewrite_template(s@) == Some((p.0@, p.1.deep_view())),
            Err(e) => rewrite_template(s@) is None && e == TemplateError::MalformedTemplate,
        },
{
    let n = s.len();
    let mut out: Vec<char> = Vec::new();
    let mut keys: Vec<Vec<char>> = Vec::new();
    let mut i: usize = 0;
    proof {
        assert(keys.deep_view() =~= Seq::<Seq<char>>::empty());
    }
    while i < n
        invariant
            i <= n,
            n == s@.len(),
            rewrite_template(s@) == rewrite_from(s@, i as int, out@, keys.deep_view()),
        decreases n - i,
    {
        let ghost out0 = out@;
        let ghost keys0 = keys.deep_view();
        let ghost i0 = i as int;
        let c = s[i];
        if c == '{' && i + 1 < n && s[i + 1] == '{' {
            out.push('{');
            out.push('{');
            i = i + 2;
            proof {
                assert(out@ =~= out0 + seq!['{', '{']);
            }
        } else if c == '}' && i + 1 < n && s[i + 1] == '}' {
            out.push('}');
            out.push('}');
            i = i + 2;
            proof {
                assert(out@ =~= out0 + seq!['}', '}']);
            }
        } else if c == '{' {
            match find_placeholder_end(s, i + 1) {
                None => {
                    return Err(TemplateError::MalformedTemplate);
                },
                Some(j) => {
                    let piece = subvec(s, i + 1, j - 1);
                    let ghost pv = piece@;
                    let (head, sp) = split_chars(&piece);
                    let ghost hv = head@;
                    let ghost spv = sp@;
                    let head_text = string_of(&head);
                    let hoist = should_extract_chars(&head) && expression_is_valid(
                        head_text.as_str(),
                    );
                    proof {
                        assert(hoist == hoisted(pv));
                    }
                    if hoist {
                        let idx: usize;
                        match find_key(&keys, &head) {
                            Some(ix) => {
                                idx = ix;
                            },
                            None => {
                                idx = keys.len();
                                keys.push(head);
                                proof {
                                    assert(keys.deep_view() =~~= keys0.push(hv));
                                }
                            },
                        }
                        out.push('{');
                        let mut digits = decimal_of(idx);
                        out.append(&mut digits);
                        if sp.len() > 0 {
                            out.push(':');
                            let mut spm = sp;
                            out.append(&mut spm);
                        }
                        out.push('}');
                        i = j;
                        proof {
                            assert(out@ =~= out0 + indexed_placeholder(idx as int, spv));
                        }
                    } else {
                        out.push('{');
                        let mut pm = piece;
                        out.append(&mut pm);
                        out.push('}');
                        i = j;
                        proof {
                            assert(out@ =~= out0 + seq!['{'] + pv + seq!['}']);
                        }
                    }
                    proof {
                        assert(rewrite_from(s@, i0, out0, keys0) == rewrite_from(
                            s@,
                            i as int,
                            out@,
                            keys.deep_view(),
                        ));
                    }
                },
            }
        } else {
            out.push(c);
            i = i + 1;
            proof {
                assert(out@ =~= out0.push(s@[i0]));
            }
        }
    }
    Ok((out, keys))
}

fn strings_of(keys: &Vec<Vec<char>>) -> (r: Vec<String>)
    ensures
        r.deep_view() == keys.deep_view(),
{
    let n = keys.len();
    let mut r: Vec<String> = Vec::new();
    let mut i: usize = 0;
    while i < n
        invariant
            i <= n,
            n == keys@.len(),
            r@.len() == i,
            forall|j: int| 0 <= j < i ==> r.deep_view()[j] == keys.deep_view()[j],
        decreases n - i,
    {
        let text = string_of(&keys[i]);
        r.push(text);
        i = i + 1;
        proof {
            assert(r.deep_view()[i - 1] =~= keys.deep_view()[i - 1]);
        }
    }
    proof {
        assert(r.deep_view() =~= keys.deep_view());
    }
    r
}

/// Process a template: the rewritten text and the hoisted expression texts
/// by index. Fails iff an opening brace never closes.
pub fn formati_args(template: &str) -> (r: Result<(String, Vec<String>), TemplateError>)
    ensures
        match r {
            Ok(p) => rewrite_template(template@) == Some((p.0@, p.1.deep_view())),
            Err(e) => rewrite_template(template@) is None && e
                == TemplateError::MalformedTemplate,
        },
{
    let v = chars_of(template);
    match rewrite_chars(&v) {
        Ok((out, keys)) => Ok((string_of(&out), strings_of(&keys))),
        Err(e) => Err(e),
    }
}

/// A processed template with its categorized arguments.
#[derive(Debug)]
pub struct RewrittenOutput {
    /// The rewritten template.
    pub template: String,
    /// The named arguments, in input order.
    pub named: Vec<String>,
    /// The hoisted expression texts, by index.
    pub extracted: Vec<String>,
    /// The positional arguments, in input order.
    pub positional: Vec<String>,
}

impl RewrittenOutput {
    /// The argument lists in the order they are forwarded to the sink:
    /// named, then extracted, then positional.
    pub fn forwarded_args(&self) -> (r: Vec<String>)
        ensures
            r.deep_view() == self.named.deep_view() + self.extracted.deep_view()
                + self.positional.deep_view(),
    {
        let mut r: Vec<String> = Vec::new();
        append_strings(&mut r, &self.named);
        append_strings(&mut r, &self.extracted);
        append_strings(&mut r, &self.positional);
        proof {
            assert(r.deep_view() =~= self.named.deep_view() + self.extracted.deep_view()
                + self.positional.deep_view());
        }
        r
    }
}

fn append_strings(dst: &mut Vec<String>, src: &Vec<String>)
    ensures
        final(dst).deep_view() == old(dst).deep_view() + src.deep_view(),
{
    let n = src.len();
    let ghost base = old(dst)@.len();
    let mut i: usize = 0;
    while i < n
        invariant
            i <= n,
            n == src@.len(),
            base == old(dst)@.len(),
            dst@.len() == base + i,
            forall|j: int| 0 <= j < base ==> dst.deep_view()[j] == old(dst).deep_view()[j],
            forall|j: int| 0 <= j < i ==> dst.deep_view()[base + j] == src.deep_view()[j],
        decreases n - i,
    {
        dst.push(src[i].clone());
        i = i + 1;
        proof {
            assert(dst.deep_view()[base + i - 1] == src.deep_view()[i - 1]);
        }
    }
    proof {
        assert(dst.deep_view() =~= old(dst).deep_view() + src.deep_view());
    }
}

/// Process a template together with its trailing arguments. Arguments that
/// do not parse are reported first, as the host parser would; then an
/// unmatched brace.
pub fn wrap(template: &str, args: &Vec<String>) -> (r: Result<RewrittenOutput, TemplateError>)
    ensures
        match r {
            Ok(o) => {
                &&& all_args_valid(args.deep_view())
                &&& rewrite_template(template@) == Some((o.template@, o.extracted.deep_view()))
                &&& o.named.deep_view() == filter_args(args.deep_view(), true)
                &&& o.positional.deep_view() == filter_args(args.deep_view(), false)
            },
            Err(e) => match e {
                TemplateError::InvalidArgumentExpression => !all_args_valid(args.deep_view()),
                TemplateError::MalformedTemplate => all_args_valid(args.deep_view())
                    && rewrite_template(template@) is None,
                TemplateError::MissingTemplateLiteral => false,
            },
        },
{
    let (named, positional) = match categorize(args) {
        Ok(p) => p,
        Err(e) => {
            return Err(e);
        },
    };
    let (template, extracted) = match formati_args(template) {
        Ok(p) => p,
        Err(e) => {
            return Err(e);
        },
    };
    Ok(RewrittenOutput { template, named, extracted, positional })
}

/// Once interned, never renumbered: whatever is interned when processing
/// starts is still there, in place, when it ends; new expressions are only
/// appended. Extraction indices are therefore assigned in strict
/// first-occurrence order.
pub proof fn lemma_extraction_appends(
    s: Seq<char>,
    i: int,
    out: Seq<char>,
    keys: Seq<Seq<char>>,
    o: Seq<char>,
    ks: Seq<Seq<char>>,
)
    requires
        rewrite_from(s, i, out, keys) == Some((o, ks)),
    ensures
        keys.len() <= ks.len(),
        keys == ks.subrange(0, keys.len() as int),
    decreases s.len() - i,
{
    if i < 0 {
    } else if i >= s.len() {
        assert(keys =~= ks.subrange(0, keys.len() as int));
    } else if s[i] == '{' && i + 1 < s.len() && s[i + 1] == '{' {
        lemma_extraction_appends(s, i + 2, out + seq!['{', '{'], keys, o, ks);
    } else if s[i] == '}' && i + 1 < s.len() && s[i + 1] == '}' {
        lemma_extraction_appends(s, i + 2, out + seq!['}', '}'], keys, o, ks);
    } else if s[i] == '{' {
        lemma_placeholder_end_bounds(s, i + 1, 1, false, false, false);
        match placeholder_end(s, i + 1, 1, false, false, false) {
            None => {},
            Some(j) => {
                let piece = s.subrange(i + 1, j - 1);
                if hoisted(piece) {
                    let head = split_body(piece).0;
                    let sp = split_body(piece).1;
                    if has_key(keys, head) {
                        lemma_extraction_appends(
                            s,
                            j,
                            out + indexed_placeholder(key_index(keys, head), sp),
                            keys,
                            o,
                            ks,
                        );
                    } else {
                        let keys2 = keys.push(head);
                        lemma_extraction_appends(
                            s,
                            j,
                            out + indexed_placeholder(keys.len() as int, sp),
                            keys2,
                            o,
                            ks,
                        );
                        assert(keys =~= ks.subrange(0, keys.len() as int));
                    }
                } else {
                    lemma_extraction_appends(s, j, out + seq!['{'] + piece + seq!['}'], keys, o, ks);
                }
            },
        }
    } else {
        lemma_extraction_appends(s, i + 1, out.push(s[i]), keys, o, ks);
    }
}

/// An index never moves: if the intern table only grows at the end — as
/// `lemma_extraction_appends` shows it does — a text already interned keeps
/// resolving to the index it was first given, so every later occurrence of
/// the same head is rewritten to that same index.
pub proof fn lemma_index_stability(keys: Seq<Seq<char>>, ks: Seq<Seq<char>>, k: Seq<char>)
    requires
        keys.len() <= ks.len(),
        keys == ks.subrange(0, keys.len() as int),
        has_key(keys, k),
    ensures
        has_key(ks, k),
        key_index(ks, k) == key_index(keys, k),
    decreases keys.len(),
{
    let w = choose|w: int| 0 <= w < keys.len() && keys[w] == k;
    assert(ks[w] == k);
    if keys[0] == k {
        assert(ks[0] == k);
    } else {
        let keys1 = keys.drop_first();
        let ks1 = ks.drop_first();
        assert(keys1 =~= ks1.subrange(0, keys1.len() as int));
        assert(keys1[w - 1] == k);
        assert(has_key(keys1, k));
        lemma_index_stability(keys1, ks1, k);
        assert(ks[0] == keys[0]);
    }
}

/// No expression is interned twice: the extracted texts of a processed
/// template are pairwise distinct, so repeats of the same head share one
/// index.
pub proof fn lemma_deduplication(t: Seq<char>, o: Seq<char>, exs: Seq<Seq<char>>)
    requires
        rewrite_template(t) == Some((o, exs)),
    ensures
        forall|a: int, b: int| 0 <= a < b < exs.len() ==> exs[a] != exs[b],
{
    lemma_dedup_from(t, 0, Seq::<char>::empty(), Seq::<Seq<char>>::empty(), o, exs);
}

proof fn lemma_dedup_from(
    s: Seq<char>,
    i: int,
    out: Seq<char>,
    keys: Seq<Seq<char>>,
    o: Seq<char>,
    ks: Seq<Seq<char>>,
)
    requires
        rewrite_from(s, i, out, keys) == Some((o, ks)),
        forall|a: int, b: int| 0 <= a < b < keys.len() ==> keys[a] != keys[b],
    ensures
        forall|a: int, b: int| 0 <= a < b < ks.len() ==> ks[a] != ks[b],
    decreases s.len() - i,
{
    if i < 0 {
    } else if i >= s.len() {
    } else if s[i] == '{' && i + 1 < s.len() && s[i + 1] == '{' {
        lemma_dedup_from(s, i + 2, out + seq!['{', '{'], keys, o, ks);
    } else if s[i] == '}' && i + 1 < s.len() && s[i + 1] == '}' {
        lemma_dedup_from(s, i + 2, out + seq!['}', '}'], keys, o, ks);
    } else if s[i] == '{' {
        lemma_placeholder_end_bounds(s, i + 1, 1, false, false, false);
        match placeholder_end(s, i + 1, 1, false, false, false) {
            None => {},
            Some(j) => {
                let piece = s.subrange(i + 1, j - 1);
                if hoisted(piece) {
                    let head = split_body(piece).0;
                    let sp = split_body(piece).1;
                    if has_key(keys, head) {
                        lemma_dedup_from(
                            s,
                            j,
                            out + indexed_placeholder(key_index(keys, head), sp),
                            keys,
                            o,
                            ks,
                        );
                    } else {
                        let keys2 = keys.push(head);
                        assert(forall|a: int, b: int|
                            0 <= a < b < keys2.len() ==> keys2[a] != keys2[b]);
                        lemma_dedup_from(
                            s,
                            j,
                            out + indexed_placeholder(keys.len() as int, sp),
                            keys2,
                            o,
                            ks,
                        );
                    }
                } else {
                    lemma_dedup_from(s, j, out + seq!['{'] + piece + seq!['}'], keys, o, ks);
                }
            },
        }
    } else {
        lemma_dedup_from(s, i + 1, out.push(s[i]), keys, o, ks);
    }
}

/// A template out of which nothing was hoisted is returned exactly as it
/// came in.
pub proof fn lemma_verbatim_preservation(t: Seq<char>, o: Seq<char>, exs: Seq<Seq<char>>)
    requires
        rewrite_template(t) == Some((o, exs)),
        exs.len() == 0,
    ensures
        o == t,
{
    assert(exs =~= Seq::<Seq<char>>::empty());
    lemma_verbatim_from(t, 0, Seq::<char>::empty(), o);
    assert(t.subrange(0, t.len() as int) =~= t);
    assert(o =~= Seq::<char>::empty() + t);
}

proof fn lemma_verbatim_from(s: Seq<char>, i: int, out: Seq<char>, o: Seq<char>)
    requires
        0 <= i <= s.len(),
        rewrite_from(s, i, out, Seq::<Seq<char>>::empty()) == Some(
            (o, Seq::<Seq<char>>::empty()),
        ),
    ensures
        o == out + s.subrange(i, s.len() as int),
    decreases s.len() - i,
{
    let ghost no_keys = Seq::<Seq<char>>::empty();
    if i >= s.len() {
        assert(o =~= out + s.subrange(i, s.len() as int));
    } else if s[i] == '{' && i + 1 < s.len() && s[i + 1] == '{' {
        lemma_verbatim_from(s, i + 2, out + seq!['{', '{'], o);
        assert(out + seq!['{', '{'] + s.subrange(i + 2, s.len() as int) =~= out + s.subrange(
            i,
            s.len() as int,
        ));
    } else if s[i] == '}' && i + 1 < s.len() && s[i + 1] == '}' {
        lemma_verbatim_from(s, i + 2, out + seq!['}', '}'], o);
        assert(out + seq!['}', '}'] + s.subrange(i + 2, s.len() as int) =~= out + s.subrange(
            i,
            s.len() as int,
        ));
    } else if s[i] == '{' {
        lemma_placeholder_end_bounds(s, i + 1, 1, false, false, false);
        match placeholder_end(s, i + 1, 1, false, false, false) {
            None => {},
            Some(j) => {
                let piece = s.subrange(i + 1, j - 1);
                if hoisted(piece) {
                    // hoisting from an empty intern table would leave at
                    // least one key behind
                    let head = split_body(piece).0;
                    let sp = split_body(piece).1;
                    assert(!has_key(no_keys, head));
                    let keys2 = no_keys.push(head);
                    lemma_extraction_appends(
                        s,
                        j,
                        out + indexed_placeholder(0, sp),
                        keys2,
                        o,
                        no_keys,
                    );
                } else {
                    lemma_verbatim_from(s, j, out + seq!['{'] + piece + seq!['}'], o);
                    assert(out + seq!['{'] + piece + seq!['}'] + s.subrange(j, s.len() as int)
                        =~= out + s.subrange(i, s.len() as int));
                }
            },
        }
    } else {
        lemma_verbatim_from(s, i + 1, out.push(s[i]), o);
        assert(out.push(s[i]) + s.subrange(i + 1, s.len() as int) =~= out + s.subrange(
            i,
            s.len() as int,
        ));
    }
}

} // verus!
