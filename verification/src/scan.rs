//! Locating the end of a brace-delimited placeholder.
//!
//! After an unescaped `{`, the scanner walks forward with a brace-depth
//! counter, suspending the count inside double-quoted string literals and
//! single-quoted char literals (both with backslash escapes). The
//! placeholder ends where the depth returns to zero; a template that runs
//! out first is malformed.

use vstd::prelude::*;

verus! {

/// One past the closing brace of the placeholder whose body starts at `i`
/// with the given depth and literal state; None when the text ends first.
pub open spec fn placeholder_end(
    s: Seq<char>,
    i: int,
    depth: int,
    ins: bool,
    inc: bool,
    esc: bool,
) -> Option<int>
    decreases s.len() - i,
{
    if i < 0 || i >= s.len() {
        None
    } else {
        let c = s[i];
        if esc {
            placeholder_end(s, i + 1, depth, ins, inc, false)
        } else if c == '\\' && (ins || inc) {
            placeholder_end(s, i + 1, depth, ins, inc, true)
        } else if c == '"' && !inc {
            placeholder_end(s, i + 1, depth, !ins, inc, false)
        } else if c == '\'' && !ins {
            placeholder_end(s, i + 1, depth, ins, !inc, false)
        } else if c == '{' && !ins && !inc {
            placeholder_end(s, i + 1, depth + 1, ins, inc, false)
        } else if c == '}' && !ins && !inc {
            if depth == 1 {
                Some(i + 1)
            } else {
                placeholder_end(s, i + 1, depth - 1, ins, inc, false)
            }
        } else {
            placeholder_end(s, i + 1, depth, ins, inc, false)
        }
    }
}

/// A found placeholder end lies past its start, within the text, and the
/// character before it is the closing brace.
pub proof fn lemma_placeholder_end_bounds(
    s: Seq<char>,
    i: int,
    depth: int,
    ins: bool,
    inc: bool,
    esc: bool,
)
    ensures
        match placeholder_end(s, i, depth, ins, inc, esc) {
            Some(j) => i < j <= s.len() && s[j - 1] == '}',
            None => true,
        },
    decreases s.len() - i,
{
    if i < 0 || i >= s.len() {
    } else {
        let c = s[i];
        if esc {
            lemma_placeholder_end_bounds(s, i + 1, depth, ins, inc, false);
        } else if c == '\\' && (ins || inc) {
            lemma_placeholder_end_bounds(s, i + 1, depth, ins, inc, true);
        } else if c == '"' && !inc {
            lemma_placeholder_end_bounds(s, i + 1, depth, !ins, inc, false);
        } else if c == '\'' && !ins {
            lemma_placeholder_end_bounds(s, i + 1, depth, ins, !inc, false);
        } else if c == '{' && !ins && !inc {
            lemma_placeholder_end_bounds(s, i + 1, depth + 1, ins, inc, false);
        } else if c == '}' && !ins && !inc {
            if depth == 1 {
            } else {
                lemma_placeholder_end_bounds(s, i + 1, depth - 1, ins, inc, false);
            }
        } else {
            lemma_placeholder_end_bounds(s, i + 1, depth, ins, inc, false);
        }
    }
}

/// Find one past the closing brace of the placeholder whose body starts at
/// `start`.
pub(crate) fn find_placeholder_end(s: &Vec<char>, start: usize) -> (r: Option<usize>)
    requires
        start <= s@.len(),
    ensures
        match r {
            Some(j) => placeholder_end(s@, start as int, 1, false, false, false) == Some(
                j as int,
            ) && start < j <= s@.len(),
            None => placeholder_end(s@, start as int, 1, false, false, false) is None,
        },
{
    let n = s.len();
    let mut i: usize = start;
    let mut depth: u128 = 1;
    let mut ins: bool = false;
    let mut inc: bool = false;
    let mut esc: bool = false;
    loop
        invariant
            start <= i <= n,
            n == s@.len(),
            1 <= depth <= 1 + (i - start),
            placeholder_end(s@, start as int, 1, false, false, false) == placeholder_end(
                s@,
                i as int,
                depth as int,
                ins,
                inc,
                esc,
            ),
        decreases n - i,
    {
        if i >= n {
            return None;
        }
        let c = s[i];
        if esc {
            esc = false;
        } else if c == '\\' && (ins || inc) {
            esc = true;
        } else if c == '"' && !inc {
            ins = !ins;
        } else if c == '\'' && !ins {
            inc = !inc;
        } else if c == '{' && !ins && !inc {
            depth = depth + 1;
        } else if c == '}' && !ins && !inc {
            if depth == 1 {
                return Some(i + 1);
            }
            depth = depth - 1;
        }
        i = i + 1;
    }
}

} // verus!
