//! Character-vector plumbing shared by the scanners.
//!
//! The scanners work on `Vec<char>`, whose view is the same `Seq<char>` that
//! a `&str` views to, so every contract in this crate speaks of one model.

use vstd::prelude::*;
use vstd::string::StrSliceExecFns;

verus! {

/// The characters of a string slice, in order.
pub fn chars_of(s: &str) -> (v: Vec<char>)
    ensures
        v@ == s@,
{
    let n = s.unicode_len();
    let mut v: Vec<char> = Vec::new();
    let mut i: usize = 0;
    while i < n
        invariant
            i <= n,
            n == s@.len(),
            v@ == s@.subrange(0, i as int),
        decreases n - i,
    {
        let c = s.get_char(i);
        v.push(c);
        i = i + 1;
        proof {
            assert(v@ =~= s@.subrange(0, i as int));
        }
    }
    proof {
        assert(v@ =~= s@);
    }
    v
}

/// Relies on String's FromIterator: collecting characters yields the string
/// of exactly those characters, in order.
#[verifier::external_body]
pub(crate) fn string_of(v: &Vec<char>) -> (s: String)
    ensures
        s@ == v@,
{
    v.iter().collect()
}

/// A copy of `s[from..to]`.
pub fn subvec(s: &Vec<char>, from: usize, to: usize) -> (v: Vec<char>)
    requires
        from <= to <= s@.len(),
    ensures
        v@ == s@.subrange(from as int, to as int),
{
    let mut v: Vec<char> = Vec::new();
    let mut i: usize = from;
    while i < to
        invariant
            from <= i <= to <= s@.len(),
            v@ == s@.subrange(from as int, i as int),
        decreases to - i,
    {
        let c = s[i];
        v.push(c);
        i = i + 1;
        proof {
            assert(v@ =~= s@.subrange(from as int, i as int));
        }
    }
    v
}

/// Whether two character vectors hold the same text.
pub fn chars_eq(a: &Vec<char>, b: &Vec<char>) -> (r: bool)
    ensures
        r == (a@ == b@),
{
    if a.len() != b.len() {
        proof {
            assert(a@ != b@);
        }
        return false;
    }
    let n = a.len();
    let mut i: usize = 0;
    while i < n
        invariant
            i <= n,
            n == a@.len() == b@.len(),
            forall|j: int| 0 <= j < i ==> a@[j] == b@[j],
        decreases n - i,
    {
        if a[i] != b[i] {
            return false;
        }
        i = i + 1;
    }
    proof {
        assert(a@ =~= b@);
    }
    true
}

/// The pattern `p` occurs in `s` starting at position `i`.
pub open spec fn sub_at(s: Seq<char>, p: Seq<char>, i: int) -> bool {
    0 <= i && i + p.len() <= s.len() && s.subrange(i, i + p.len() as int) == p
}

/// The pattern `p` occurs somewhere in `s`.
pub open spec fn has_sub(s: Seq<char>, p: Seq<char>) -> bool {
    exists|i: int| sub_at(s, p, i)
}

/// Some position of `s` holds the character `c`.
pub open spec fn has_char(s: Seq<char>, c: char) -> bool {
    exists|i: int| 0 <= i < s.len() && s[i] == c
}

pub fn contains_char(s: &Vec<char>, c: char) -> (r: bool)
    ensures
        r == has_char(s@, c),
{
    let n = s.len();
    let mut i: usize = 0;
    while i < n
        invariant
            i <= n,
            n == s@.len(),
            forall|j: int| 0 <= j < i ==> s@[j] != c,
        decreases n - i,
    {
        if s[i] == c {
            return true;
        }
        i = i + 1;
    }
    false
}

pub(crate) fn match_at(s: &Vec<char>, p: &Vec<char>, i: usize) -> (r: bool)
    requires
        i + p@.len() <= s@.len(),
    ensures
        r == sub_at(s@, p@, i as int),
{
    let m = p.len();
    let n = s.len();
    let mut j: usize = 0;
    while j < m
        invariant
            j <= m,
            m == p@.len(),
            n == s@.len(),
            i + m <= n,
            forall|k: int| 0 <= k < j ==> s@[i + k] == p@[k],
        decreases m - j,
    {
        if s[i + j] != p[j] {
            proof {
                assert(s@.subrange(i as int, i + p@.len() as int)[j as int] == s@[i + j]);
            }
            return false;
        }
        j = j + 1;
    }
    proof {
        assert(s@.subrange(i as int, i + p@.len() as int) =~= p@);
    }
    true
}

pub fn contains_sub(s: &Vec<char>, p: &Vec<char>) -> (r: bool)
    ensures
        r == has_sub(s@, p@),
{
    if p.len() > s.len() {
        proof {
            assert(forall|i: int| !sub_at(s@, p@, i));
        }
        return false;
    }
    if p.len() == 0 {
        proof {
            assert(s@.subrange(0, 0) =~= p@);
            assert(sub_at(s@, p@, 0));
        }
        return true;
    }
    let last = s.len() - p.len();
    let mut i: usize = 0;
    loop
        invariant
            i <= last + 1,
            last == s@.len() - p@.len(),
            1 <= p@.len() <= s@.len(),
            s@.len() <= usize::MAX,
            forall|k: int| 0 <= k < i ==> !sub_at(s@, p@, k),
        decreases last + 1 - i,
    {
        if i > last {
            proof {
                assert(forall|k: int| sub_at(s@, p@, k) ==> 0 <= k <= last);
            }
            return false;
        }
        if match_at(s, p, i) {
            return true;
        }
        i = i + 1;
    }
}

/// `s` begins with the pattern `p`.
pub open spec fn begins_with(s: Seq<char>, p: Seq<char>) -> bool {
    sub_at(s, p, 0)
}

pub fn starts_with(s: &Vec<char>, p: &Vec<char>) -> (r: bool)
    ensures
        r == begins_with(s@, p@),
{
    if p.len() > s.len() {
        return false;
    }
    match_at(s, p, 0)
}

} // verus!
