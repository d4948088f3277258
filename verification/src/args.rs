//! Partitioning the trailing argument list.
//!
//! An argument is named iff its top-level syntactic form is an assignment;
//! everything else is positional. The partition is stable: relative order
//! within each group matches the input order.

use vstd::prelude::*;

use crate::errors::TemplateError;
use crate::expr_parse::parse_segment;
use crate::expr_parse::parses_as_expr;
use crate::expr_parse::spec_is_named;
use crate::expr_parse::SegmentKind;

verus! {

/// Every argument parses as an expression.
pub open spec fn all_args_valid(args: Seq<Seq<char>>) -> bool {
    forall|i: int| 0 <= i < args.len() ==> parses_as_expr(args[i])
}

/// The arguments whose namedness equals `named`, in input order.
pub open spec fn filter_args(args: Seq<Seq<char>>, named: bool) -> Seq<Seq<char>>
    decreases args.len(),
{
    if args.len() == 0 {
        Seq::<Seq<char>>::empty()
    } else {
        (if spec_is_named(args[0]) == named {
            seq![args[0]]
        } else {
            Seq::<Seq<char>>::empty()
        }) + filter_args(args.drop_first(), named)
    }
}

proof fn lemma_filter_args_push(args: Seq<Seq<char>>, a: Seq<char>, named: bool)
    ensures
        filter_args(args.push(a), named) == filter_args(args, named) + (if spec_is_named(a)
            == named {
            seq![a]
        } else {
            Seq::<Seq<char>>::empty()
        }),
    decreases args.len(),
{
    if args.len() == 0 {
        assert(args.push(a).drop_first() =~= args);
        assert(filter_args(args.push(a), named) =~= filter_args(args, named) + (
        if spec_is_named(a) == named {
            seq![a]
        } else {
            Seq::<Seq<char>>::empty()
        }));
    } else {
        assert(args.push(a).drop_first() =~= args.drop_first().push(a));
        lemma_filter_args_push(args.drop_first(), a, named);
        assert(filter_args(args.push(a), named) =~= filter_args(args, named) + (
        if spec_is_named(a) == named {
            seq![a]
        } else {
            Seq::<Seq<char>>::empty()
        }));
    }
}

/// Split the argument list into its named and positional groups, both in
/// input order; fails iff some argument is not an expression.
pub fn categorize(args: &Vec<String>) -> (r: Result<(Vec<String>, Vec<String>), TemplateError>)
    ensures
        match r {
            Ok(p) => {
                &&& all_args_valid(args.deep_view())
                &&& p.0.deep_view() == filter_args(args.deep_view(), true)
                &&& p.1.deep_view() == filter_args(args.deep_view(), false)
            },
            Err(e) => {
                &&& e == TemplateError::InvalidArgumentExpression
                &&& !all_args_valid(args.deep_view())
            },
        },
{
    let n = args.len();
    let mut named: Vec<String> = Vec::new();
    let mut positional: Vec<String> = Vec::new();
    let mut i: usize = 0;
    while i < n
        invariant
            i <= n,
            n == args@.len(),
            named.deep_view() == filter_args(args.deep_view().take(i as int), true),
            positional.deep_view() == filter_args(args.deep_view().take(i as int), false),
            forall|j: int| 0 <= j < i ==> parses_as_expr(args.deep_view()[j]),
        decreases n - i,
    {
        let ghost pre = args.deep_view().take(i as int);
        let a = &args[i];
        proof {
            assert(args.deep_view().take(i + 1) =~= pre.push(a@));
            lemma_filter_args_push(pre, a@, true);
            lemma_filter_args_push(pre, a@, false);
        }
        match parse_segment(a.as_str()) {
            SegmentKind::Invalid => {
                proof {
                    assert(args.deep_view()[i as int] == a@);
                    assert(!all_args_valid(args.deep_view()));
                }
                return Err(TemplateError::InvalidArgumentExpression);
            },
            SegmentKind::Assign => {
                named.push(a.clone());
                proof {
                    assert(named.deep_view() =~= filter_args(
                        args.deep_view().take(i + 1),
                        true,
                    ));
                }
            },
            _ => {
                positional.push(a.clone());
                proof {
                    assert(positional.deep_view() =~= filter_args(
                        args.deep_view().take(i + 1),
                        false,
                    ));
                }
            },
        }
        i = i + 1;
    }
    proof {
        assert(args.deep_view().take(n as int) =~= args.deep_view());
    }
    Ok((named, positional))
}

} // verus!
