//! Structured calls: leading metadata segments before the template.
//!
//! A structured call is a flat, top-level-comma-separated sequence of
//! segments that may carry leading `key: value` metadata before its template
//! literal and extra argument expressions after it. The last segment that is
//! a bare string literal is the template; what precedes it passes through
//! untouched, what follows it is categorized into named and positional
//! arguments.

use vstd::prelude::*;

use crate::args::all_args_valid;
use crate::args::categorize;
use crate::args::filter_args;
use crate::errors::TemplateError;
use crate::expr_parse::parse_segment;
use crate::expr_parse::spec_is_literal_segment;
use crate::expr_parse::str_lit_value;
use crate::expr_parse::SegmentKind;
use crate::rewrite::formati_args;
use crate::rewrite::rewrite_template;
use crate::split::is_lifetime_quote;
use crate::text::chars_of;
use crate::text::string_of;
use crate::unicode::char_whitespace;
use crate::unicode::unicode_whitespace;

verus! {

/// The segments of `s` from position `i` on: characters are appended to the
/// current segment `cur`, a comma at depth zero outside literals closes it,
/// and the end of the text closes the last one.
pub open spec fn segments_from(
    s: Seq<char>,
    i: int,
    pd: int,
    bd: int,
    cd: int,
    ins: bool,
    inc: bool,
    esc: bool,
    cur: Seq<char>,
    acc: Seq<Seq<char>>,
) -> Seq<Seq<char>>
    decreases s.len() - i,
{
    if i < 0 || i >= s.len() {
        acc.push(cur)
    } else {
        let c = s[i];
        if esc {
            segments_from(s, i + 1, pd, bd, cd, ins, inc, false, cur.push(c), acc)
        } else if c == '\\' && (ins || inc) {
            segments_from(s, i + 1, pd, bd, cd, ins, inc, true, cur.push(c), acc)
        } else if c == '"' && !inc {
            segments_from(s, i + 1, pd, bd, cd, !ins, inc, false, cur.push(c), acc)
        } else if c == '\'' && !ins {
            if inc {
                segments_from(s, i + 1, pd, bd, cd, ins, false, false, cur.push(c), acc)
            } else if is_lifetime_quote(s, i) {
                segments_from(s, i + 1, pd, bd, cd, ins, inc, false, cur.push(c), acc)
            } else {
                segments_from(s, i + 1, pd, bd, cd, ins, true, false, cur.push(c), acc)
            }
        } else if ins || inc {
            segments_from(s, i + 1, pd, bd, cd, ins, inc, false, cur.push(c), acc)
        } else if c == '(' {
            segments_from(s, i + 1, pd + 1, bd, cd, ins, inc, false, cur.push(c), acc)
        } else if c == ')' {
            segments_from(s, i + 1, pd - 1, bd, cd, ins, inc, false, cur.push(c), acc)
        } else if c == '[' {
            segments_from(s, i + 1, pd, bd + 1, cd, ins, inc, false, cur.push(c), acc)
        } else if c == ']' {
            segments_from(s, i + 1, pd, bd - 1, cd, ins, inc, false, cur.push(c), acc)
        } else if c == '{' {
            segments_from(s, i + 1, pd, bd, cd + 1, ins, inc, false, cur.push(c), acc)
        } else if c == '}' {
            segments_from(s, i + 1, pd, bd, cd - 1, ins, inc, false, cur.push(c), acc)
        } else if c == ',' && pd == 0 && bd == 0 && cd == 0 {
            segments_from(s, i + 1, pd, bd, cd, ins, inc, false, Seq::<char>::empty(), acc.push(cur))
        } else {
            segments_from(s, i + 1, pd, bd, cd, ins, inc, false, cur.push(c), acc)
        }
    }
}

/// The top-level-comma-separated segments of the text; always at least one.
pub open spec fn top_level_segments(s: Seq<char>) -> Seq<Seq<char>> {
    segments_from(s, 0, 0, 0, 0, false, false, false, Seq::<char>::empty(), Seq::<Seq<char>>::empty())
}

/// Split on top-level commas: commas inside parentheses, brackets, braces or
/// string/char literals do not separate segments.
pub fn split_top_level(input: &str) -> (r: Vec<String>)
    ensures
        r.deep_view() == top_level_segments(input@),
{
    let s = chars_of(input);
    let n = s.len();
    let mut i: usize = 0;
    let mut pd: i128 = 0;
    let mut bd: i128 = 0;
    let mut cd: i128 = 0;
    let mut ins: bool = false;
    let mut inc: bool = false;
    let mut esc: bool = false;
    let mut cur: Vec<char> = Vec::new();
    let mut acc: Vec<String> = Vec::new();
    let ghost segs = top_level_segments(input@);
    proof {
        assert(acc.deep_view() =~= Seq::<Seq<char>>::empty());
    }
    while i < n
        invariant
            i <= n,
            n == s@.len(),
            s@ == input@,
            -(i as int) <= pd <= i as int,
            -(i as int) <= bd <= i as int,
            -(i as int) <= cd <= i as int,
            segs == top_level_segments(input@),
            segs == segments_from(
                s@,
                i as int,
                pd as int,
                bd as int,
                cd as int,
                ins,
                inc,
                esc,
                cur@,
                acc.deep_view(),
            ),
        decreases n - i,
    {
        let ghost cur0 = cur@;
        let ghost acc0 = acc.deep_view();
        let c = s[i];
        if esc {
            esc = false;
            cur.push(c);
        } else if c == '\\' && (ins || inc) {
            esc = true;
            cur.push(c);
        } else if c == '"' && !inc {
            ins = !ins;
            cur.push(c);
        } else if c == '\'' && !ins {
            if inc {
                inc = false;
            } else {
                let prev_marks = i > 0 && (s[i - 1] == '&' || s[i - 1] == ',' || s[i - 1] == ' '
                    || s[i - 1] == '<');
                let lifetime = prev_marks && i + 1 < n && (crate::unicode::char_alphabetic(
                    s[i + 1],
                ) || s[i + 1] == '_');
                proof {
                    assert(lifetime == is_lifetime_quote(s@, i as int));
                }
                if !lifetime {
                    inc = true;
                }
            }
            cur.push(c);
        } else if ins || inc {
            cur.push(c);
        } else if c == '(' {
            pd = pd + 1;
            cur.push(c);
        } else if c == ')' {
            pd = pd - 1;
            cur.push(c);
        } else if c == '[' {
            bd = bd + 1;
            cur.push(c);
        } else if c == ']' {
            bd = bd - 1;
            cur.push(c);
        } else if c == '{' {
            cd = cd + 1;
            cur.push(c);
        } else if c == '}' {
            cd = cd - 1;
            cur.push(c);
        } else if c == ',' && pd == 0 && bd == 0 && cd == 0 {
            let seg = string_of(&cur);
            acc.push(seg);
            cur = Vec::new();
            proof {
                assert(acc.deep_view() =~~= acc0.push(cur0));
            }
        } else {
            cur.push(c);
        }
        i = i + 1;
    }
    let seg = string_of(&cur);
    acc.push(seg);
    proof {
        assert(acc.deep_view() =~~= segs);
    }
    acc
}

/// The index of the last segment that is a bare string literal; -1 when
/// none is.
pub open spec fn last_literal_index(segs: Seq<Seq<char>>) -> int
    decreases segs.len(),
{
    if segs.len() == 0 {
        -1
    } else if spec_is_literal_segment(segs.last()) {
        segs.len() - 1
    } else {
        last_literal_index(segs.drop_last())
    }
}

proof fn lemma_last_literal_at(segs: Seq<Seq<char>>, t: int)
    requires
        0 <= t < segs.len(),
        spec_is_literal_segment(segs[t]),
        forall|j: int| t < j < segs.len() ==> !spec_is_literal_segment(segs[j]),
    ensures
        last_literal_index(segs) == t,
    decreases segs.len(),
{
    if t == segs.len() - 1 {
    } else {
        assert(!spec_is_literal_segment(segs.last()));
        lemma_last_literal_at(segs.drop_last(), t);
    }
}

proof fn lemma_last_literal_none(segs: Seq<Seq<char>>)
    requires
        forall|j: int| 0 <= j < segs.len() ==> !spec_is_literal_segment(segs[j]),
    ensures
        last_literal_index(segs) == -1,
    decreases segs.len(),
{
    if segs.len() == 0 {
    } else {
        lemma_last_literal_none(segs.drop_last());
    }
}

/// Find the template segment: the last bare string literal, with its
/// unescaped value.
fn find_template(segs: &Vec<String>) -> (r: Option<(usize, String)>)
    ensures
        match r {
            Some(p) => {
                &&& p.0 < segs@.len()
                &&& last_literal_index(segs.deep_view()) == p.0 as int
                &&& p.1@ == str_lit_value(segs.deep_view()[p.0 as int])
            },
            None => last_literal_index(segs.deep_view()) == -1,
        },
{
    let n = segs.len();
    let mut i: usize = n;
    while i > 0
        invariant
            i <= n,
            n == segs@.len(),
            forall|j: int|
                i <= j < n ==> !spec_is_literal_segment(segs.deep_view()[j]),
        decreases i,
    {
        i = i - 1;
        match parse_segment(segs[i].as_str()) {
            SegmentKind::StrLiteral(v) => {
                proof {
                    assert(segs.deep_view()[i as int] == segs@[i as int]@);
                    lemma_last_literal_at(segs.deep_view(), i as int);
                }
                return Some((i, v));
            },
            _ => {
                proof {
                    assert(segs.deep_view()[i as int] == segs@[i as int]@);
                }
            },
        }
    }
    proof {
        lemma_last_literal_none(segs.deep_view());
    }
    None
}

/// The whole text of the segment is whitespace (or it is empty); such
/// segments, left by trailing commas, carry no argument.
pub open spec fn is_blank(s: Seq<char>) -> bool {
    forall|i: int| 0 <= i < s.len() ==> unicode_whitespace(s[i])
}

fn is_blank_exec(s: &String) -> (r: bool)
    ensures
        r == is_blank(s@),
{
    let v = chars_of(s.as_str());
    let n = v.len();
    let mut i: usize = 0;
    while i < n
        invariant
            i <= n,
            n == v@.len(),
            v@ == s@,
            forall|j: int| 0 <= j < i ==> unicode_whitespace(s@[j]),
        decreases n - i,
    {
        if !char_whitespace(v[i]) {
            return false;
        }
        i = i + 1;
    }
    true
}

/// The segments that are not blank, in order.
pub open spec fn non_blank(segs: Seq<Seq<char>>) -> Seq<Seq<char>>
    decreases segs.len(),
{
    if segs.len() == 0 {
        Seq::<Seq<char>>::empty()
    } else {
        (if is_blank(segs[0]) {
            Seq::<Seq<char>>::empty()
        } else {
            seq![segs[0]]
        }) + non_blank(segs.drop_first())
    }
}

proof fn lemma_non_blank_push(segs: Seq<Seq<char>>, a: Seq<char>)
    ensures
        non_blank(segs.push(a)) == non_blank(segs) + (if is_blank(a) {
            Seq::<Seq<char>>::empty()
        } else {
            seq![a]
        }),
    decreases segs.len(),
{
    if segs.len() == 0 {
        assert(segs.push(a).drop_first() =~= segs);
        assert(non_blank(segs.push(a)) =~= non_blank(segs) + (if is_blank(a) {
            Seq::<Seq<char>>::empty()
        } else {
            seq![a]
        }));
    } else {
        assert(segs.push(a).drop_first() =~= segs.drop_first().push(a));
        lemma_non_blank_push(segs.drop_first(), a);
        assert(non_blank(segs.push(a)) =~= non_blank(segs) + (if is_blank(a) {
            Seq::<Seq<char>>::empty()
        } else {
            seq![a]
        }));
    }
}

/// A processed structured call.
#[derive(Debug)]
pub struct StructuredOutput {
    /// The untouched segments before the template, in order.
    pub front: Vec<String>,
    /// The rewritten template.
    pub template: String,
    /// The named arguments after the template, in input order.
    pub named: Vec<String>,
    /// The hoisted expression texts, by index.
    pub extracted: Vec<String>,
    /// The positional arguments after the template, in input order.
    pub positional: Vec<String>,
}

/// Process a structured call: split on top-level commas, take the last bare
/// string literal as the template, pass everything before it through
/// untouched, rewrite the template, and categorize what follows it.
pub fn wrap(input: &str) -> (r: Result<StructuredOutput, TemplateError>)
    ensures
        ({
            let segs = top_level_segments(input@);
            let t = last_literal_index(segs);
            match r {
                Ok(o) => {
                    &&& t >= 0
                    &&& o.front.deep_view() == segs.take(t)
                    &&& rewrite_template(str_lit_value(segs[t])) == Some(
                        (o.template@, o.extracted.deep_view()),
                    )
                    &&& {
                        let back = non_blank(segs.skip(t + 1));
                        &&& all_args_valid(back)
                        &&& o.named.deep_view() == filter_args(back, true)
                        &&& o.positional.deep_view() == filter_args(back, false)
                    }
                },
                Err(e) => match e {
                    TemplateError::MissingTemplateLiteral => t < 0,
                    TemplateError::MalformedTemplate => t >= 0 && rewrite_template(
                        str_lit_value(segs[t]),
                    ) is None,
                    TemplateError::InvalidArgumentExpression => t >= 0 && rewrite_template(
                        str_lit_value(segs[t]),
                    ) is Some && !all_args_valid(non_blank(segs.skip(t + 1))),
                },
            }
        }),
{
    let segs = split_top_level(input);
    let ghost sdv = segs.deep_view();
    let (t, lit_value) = match find_template(&segs) {
        Some(p) => p,
        None => {
            return Err(TemplateError::MissingTemplateLiteral);
        },
    };
    let (template, extracted) = match formati_args(lit_value.as_str()) {
        Ok(p) => p,
        Err(_) => {
            return Err(TemplateError::MalformedTemplate);
        },
    };
    // the untouched front
    let mut front: Vec<String> = Vec::new();
    let mut i: usize = 0;
    while i < t
        invariant
            i <= t < segs@.len(),
            sdv == segs.deep_view(),
            front@.len() == i,
            forall|j: int| 0 <= j < i ==> front.deep_view()[j] == sdv[j],
        decreases t - i,
    {
        front.push(segs[i].clone());
        i = i + 1;
        proof {
            assert(front.deep_view()[i - 1] == segs.deep_view()[i - 1]);
        }
    }
    proof {
        assert(front.deep_view() =~= sdv.take(t as int));
    }
    // the arguments after the template, trailing blanks dropped
    let n = segs.len();
    let mut back: Vec<String> = Vec::new();
    let mut j: usize = t + 1;
    proof {
        assert(sdv.subrange(t + 1, t + 1) =~= Seq::<Seq<char>>::empty());
        assert(back.deep_view() =~= non_blank(sdv.subrange(t + 1, t + 1)));
    }
    while j < n
        invariant
            t < j <= n,
            n == segs@.len(),
            sdv == segs.deep_view(),
            back.deep_view() == non_blank(sdv.subrange(t + 1, j as int)),
        decreases n - j,
    {
        let ghost pre = sdv.subrange(t + 1, j as int);
        proof {
            assert(sdv.subrange(t + 1, j + 1) =~= pre.push(sdv[j as int]));
            lemma_non_blank_push(pre, sdv[j as int]);
        }
        if !is_blank_exec(&segs[j]) {
            back.push(segs[j].clone());
            proof {
                assert(back.deep_view() =~~= non_blank(sdv.subrange(t + 1, j + 1)));
            }
        }
        j = j + 1;
    }
    proof {
        assert(sdv.subrange(t + 1, n as int) =~= sdv.skip(t + 1));
    }
    let (named, positional) = match categorize(&back) {
        Ok(p) => p,
        Err(e) => {
            return Err(e);
        },
    };
    Ok(StructuredOutput { front, template, named, extracted, positional })
}

} // verus!
