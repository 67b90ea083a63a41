use vstd::prelude::*;

use crate::semantics::{
    alphanumeric, alt_spans, class_accepts, lemma_spans_bounds, numeric, plus_spans, plus_split,
    seq_split, single_accepts, spans,
};
use crate::syntax::{Ast, Brackets, Expr, Paren, Single};

verus! {

/// Relies on `char::is_numeric`: whether a character is numeric depends on the
/// character alone.
#[verifier::external_body]
fn is_numeric(c: char) -> (r: bool)
    ensures
        r == numeric(c),
{
    c.is_numeric()
}

/// Relies on `char::is_alphanumeric`: whether a character is alphanumeric
/// depends on the character alone.
#[verifier::external_body]
fn is_alphanumeric(c: char) -> (r: bool)
    ensures
        r == alphanumeric(c),
{
    c.is_alphanumeric()
}

/// Whether the test `s` accepts the character at `pos`.
fn match_single(t: &Vec<char>, s: &Single, pos: usize) -> (r: bool)
    requires
        pos < t.len(),
    ensures
        r == single_accepts(*s, t@[pos as int]),
{
    let c = t[pos];
    match s {
        Single::DOT => true,
        Single::DIGIT => is_numeric(c),
        Single::WORD => is_alphanumeric(c) || c == '_',
        Single::LIT(n) => c == *n,
    }
}

/// Whether the bracket expression `b` accepts the character at `pos`.
fn match_brackets(t: &Vec<char>, b: &Brackets, pos: usize) -> (r: bool)
    requires
        pos < t.len(),
    ensures
        b@ matches Ast::Class(neg, items) && r == class_accepts(neg, items, t@[pos as int]),
{
    let (neg, items) = match b {
        Brackets::POS(v) => (false, v),
        Brackets::NEG(v) => (true, v),
    };
    let mut k: usize = 0;
    while k < items.len()
        invariant
            k <= items@.len(),
            b@ == Ast::Class(neg, items@),
            pos < t.len(),
            forall|q: int| 0 <= q < k ==> !single_accepts(#[trigger] items@[q], t@[pos as int]),
        decreases items.len() - k,
    {
        if match_single(t, &items[k], pos) {
            return !neg;
        }
        k = k + 1;
    }
    neg
}

/// A table over the positions `0..=n` that holds `b` at `p` and `false`
/// elsewhere.
fn ends_only(n: usize, p: usize, b: bool) -> (r: Vec<bool>)
    requires
        n < usize::MAX,
    ensures
        r@.len() == n + 1,
        forall|j: int| 0 <= j <= n ==> r@[j] == (b && j == p),
{
    let mut r: Vec<bool> = Vec::new();
    let mut j: usize = 0;
    while j <= n
        invariant
            j <= n + 1,
            n < usize::MAX,
            r@.len() == j,
            forall|q: int| 0 <= q < j ==> r@[q] == (b && q == p),
        decreases n + 1 - j,
    {
        r.push(b && j == p);
        j = j + 1;
    }
    r
}

/// Adds to `acc` the positions from `lo` on that `more` holds.
fn merge_from(acc: &mut Vec<bool>, more: &Vec<bool>, lo: usize)
    requires
        old(acc)@.len() == more@.len(),
    ensures
        final(acc)@.len() == old(acc)@.len(),
        forall|j: int|
            0 <= j < more@.len() ==> #[trigger] final(acc)@[j] == (old(acc)@[j] || (lo <= j
                && more@[j])),
{
    let ghost init = acc@;
    let mut j: usize = lo;
    while j < acc.len()
        invariant
            lo <= j,
            init == old(acc)@,
            acc@.len() == init.len(),
            acc@.len() == more@.len(),
            forall|q: int|
                0 <= q < more@.len() ==> acc@[q] == (init[q] || (lo <= q && q < j
                    && more@[q])),
        decreases acc.len() - j,
    {
        let ghost before = acc@;
        if more[j] {
            acc.set(j, true);
        }
        assert forall|q: int| 0 <= q < more@.len() implies #[trigger] acc@[q] == (init[q] || (
        lo <= q && q < j + 1 && more@[q])) by {
            if q != j {
                assert(acc@[q] == before[q]);
            }
        }
        j = j + 1;
    }
}

/// The positions `j` for which `e` derives `t[pos..j]`.
pub fn match_expr(t: &Vec<char>, e: &Expr, pos: usize) -> (r: Vec<bool>)
    requires
        pos <= t.len() < usize::MAX,
    ensures
        r@.len() == t.len() + 1,
        forall|j: int| 0 <= j <= t.len() ==> r@[j] == spans(t@, e@, pos as int, j),
    decreases e, 2int,
{
    let n = t.len();
    match e {
        Expr::BLANK => ends_only(n, pos, true),
        Expr::START => ends_only(n, pos, pos == 0),
        Expr::END => ends_only(n, pos, pos == n),
        Expr::SINGLE(s) => ends_only(n, pos + 1, pos < n && match_single(t, s, pos)),
        Expr::BRACKET(b) => ends_only(n, pos + 1, pos < n && match_brackets(t, b, pos)),
        Expr::PAREN(p) => match_paren(t, p, pos),
        Expr::SEQUENCE(_, _) => match_sequence(t, e, pos),
        Expr::PLUS(x) => match_plus(t, x, pos),
        Expr::QMARK(x) => match_qmark(t, x, pos),
    }
}

/// The positions `j` for which `x` derives `t[pos..j]`, and `pos` itself.
fn match_qmark(t: &Vec<char>, x: &Expr, pos: usize) -> (r: Vec<bool>)
    requires
        pos <= t.len() < usize::MAX,
    ensures
        r@.len() == t.len() + 1,
        forall|j: int|
            0 <= j <= t.len() ==> r@[j] == spans(t@, Ast::Optional(Box::new(x@)), pos as int, j),
    decreases x, 3int,
{
    let mut r = match_expr(t, x, pos);
    r.set(pos, true);
    r
}

/// The positions `j` for which some branch of `p` derives `t[pos..j]`.
fn match_paren(t: &Vec<char>, p: &Paren, pos: usize) -> (r: Vec<bool>)
    requires
        pos <= t.len() < usize::MAX,
    ensures
        r@.len() == t.len() + 1,
        forall|j: int| 0 <= j <= t.len() ==> r@[j] == alt_spans(t@, p@, pos as int, j),
    decreases p, 2int,
{
    match p {
        Paren::NIL => {
            assert(p@ == crate::syntax::Alts::Nil);
            ends_only(t.len(), pos, false)
        },
        Paren::CONS(hd, tl) => {
            let mut r = match_expr(t, hd, pos);
            let rest = match_paren(t, tl, pos);
            merge_from(&mut r, &rest, 0);
            r
        },
    }
}

/// The positions `j` for which the sequence `e` derives `t[pos..j]`: its
/// left part is tried at `pos`, and its right part from each position that
/// the left part reaches.
fn match_sequence(t: &Vec<char>, e: &Expr, pos: usize) -> (r: Vec<bool>)
    requires
        pos <= t.len() < usize::MAX,
        e is SEQUENCE,
    ensures
        r@.len() == t.len() + 1,
        forall|j: int| 0 <= j <= t.len() ==> r@[j] == spans(t@, e@, pos as int, j),
    decreases e, 1int,
{
    let n = t.len();
    match e {
        Expr::SEQUENCE(l, r) => {
            let lends = match_expr(t, l, pos);
            let mut acc = ends_only(n, pos, false);
            let mut m = pos;
            while m <= n
                invariant
                    pos <= m <= n + 1,
                    n == t.len() < usize::MAX,
                    *e == Expr::SEQUENCE(*l, *r),
                    e@ == Ast::Sequence(Box::new(l@), Box::new(r@)),
                    lends@.len() == n + 1,
                    forall|q: int| 0 <= q <= n ==> lends@[q] == spans(t@, l@, pos as int, q),
                    acc@.len() == n + 1,
                    forall|j: int|
                        0 <= j <= n ==> ((pos <= j && seq_split(
                            t@,
                            e@,
                            pos as int,
                            j,
                            pos as int,
                        )) == (acc@[j] || seq_split(t@, e@, pos as int, j, m as int))),
                decreases n + 1 - m,
            {
                let ghost before = acc@;
                let ghost next: int = m + 1;
                if lends[m] {
                    let rends = match_expr(t, r, m);
                    merge_from(&mut acc, &rends, m);
                    proof {
                        assert forall|j: int| 0 <= j <= n implies ((pos <= j && seq_split(
                            t@,
                            e@,
                            pos as int,
                            j,
                            pos as int,
                        )) == (#[trigger] acc@[j] || seq_split(t@, e@, pos as int, j, next))) by {
                            assert(acc@[j] == (before[j] || (m <= j && rends@[j])));
                            assert(rends@[j] == spans(t@, r@, m as int, j));
                            assert(lends@[m as int] == spans(t@, l@, pos as int, m as int));
                            assert((pos <= j && seq_split(t@, e@, pos as int, j, pos as int)) == (
                            before[j] || seq_split(t@, e@, pos as int, j, m as int)));
                            if rends@[j] && j < m {
                                lemma_spans_bounds(t@, r@, m as int, j);
                            }
                            assert(seq_split(t@, e@, pos as int, j, m as int) == (m <= j && ((
                            spans(t@, l@, pos as int, m as int) && spans(t@, r@, m as int, j))
                                || seq_split(t@, e@, pos as int, j, next))));
                            if j < m + 1 {
                                assert(!seq_split(t@, e@, pos as int, j, next));
                            }
                        }
                    }
                } else {
                    proof {
                        assert forall|j: int| 0 <= j <= n implies ((pos <= j && seq_split(
                            t@,
                            e@,
                            pos as int,
                            j,
                            pos as int,
                        )) == (#[trigger] acc@[j] || seq_split(t@, e@, pos as int, j, next))) by {
                            assert(acc@[j] == before[j]);
                            assert(lends@[m as int] == spans(t@, l@, pos as int, m as int));
                            assert((pos <= j && seq_split(t@, e@, pos as int, j, pos as int)) == (
                            before[j] || seq_split(t@, e@, pos as int, j, m as int)));
                            assert(seq_split(t@, e@, pos as int, j, m as int) == (m <= j && ((
                            spans(t@, l@, pos as int, m as int) && spans(t@, r@, m as int, j))
                                || seq_split(t@, e@, pos as int, j, next))));
                            if j < m + 1 {
                                assert(!seq_split(t@, e@, pos as int, j, next));
                            }
                        }
                    }
                }
                m = m + 1;
                assert(m == next);
                assert forall|j: int| 0 <= j <= n implies ((pos <= j && seq_split(
                    t@,
                    e@,
                    pos as int,
                    j,
                    pos as int,
                )) == (acc@[j] || seq_split(t@, e@, pos as int, j, m as int))) by {
                    assert(((pos <= j && seq_split(t@, e@, pos as int, j, pos as int)) == (acc@[j]
                        || seq_split(t@, e@, pos as int, j, next))));
                }
            }
            proof {
                assert forall|j: int| 0 <= j <= n implies !seq_split(t@, e@, pos as int, j, m as int) by {}
            }
            acc
        },
        _ => ends_only(n, pos, false),
    }
}

/// The positions `j` for which one or more repetitions of `x` derive
/// `t[pos..j]`. Positions are settled in increasing order: a further
/// repetition is tried from each one reached, and takes at least one
/// character.
fn match_plus(t: &Vec<char>, x: &Expr, pos: usize) -> (r: Vec<bool>)
    requires
        pos <= t.len() < usize::MAX,
    ensures
        r@.len() == t.len() + 1,
        forall|j: int| 0 <= j <= t.len() ==> r@[j] == plus_spans(t@, x@, pos as int, j),
    decreases x, 3int,
{
    let n = t.len();
    let mut reach = match_expr(t, x, pos);
    proof {
        assert forall|j: int| 0 <= j < pos implies !#[trigger] reach@[j] by {
            if reach@[j] {
                lemma_spans_bounds(t@, x@, pos as int, j);
            }
        }
    }
    let mut m = pos + 1;
    while m <= n
        invariant
            pos < m <= n + 1,
            n == t.len() < usize::MAX,
            reach@.len() == n + 1,
            forall|j: int|
                0 <= j <= n ==> plus_spans(t@, x@, pos as int, j) == (reach@[j] || plus_split(
                    t@,
                    x@,
                    pos as int,
                    j,
                    m as int,
                )),
        decreases n + 1 - m,
    {
        let ghost before = reach@;
        let ghost next: int = m + 1;
        assert(!plus_split(t@, x@, pos as int, m as int, m as int));
        assert(plus_spans(t@, x@, pos as int, m as int) == before[m as int]);
        let settled = reach[m];
        if settled {
            let more = match_expr(t, x, m);
            merge_from(&mut reach, &more, m + 1);
            proof {
                assert forall|j: int| 0 <= j <= n implies plus_spans(t@, x@, pos as int, j) == (
                #[trigger] reach@[j] || plus_split(t@, x@, pos as int, j, next)) by {
                    assert(reach@[j] == (before[j] || (m + 1 <= j && more@[j])));
                    assert(more@[j] == spans(t@, x@, m as int, j));
                    assert(plus_spans(t@, x@, pos as int, j) == (before[j] || plus_split(
                        t@,
                        x@,
                        pos as int,
                        j,
                        m as int,
                    )));
                    assert(plus_split(t@, x@, pos as int, j, m as int) == (pos < m < j && ((
                    plus_spans(t@, x@, pos as int, m as int) && spans(t@, x@, m as int, j))
                        || plus_split(t@, x@, pos as int, j, next))));
                    if j <= m {
                        assert(!plus_split(t@, x@, pos as int, j, next));
                    }
                }
            }
        } else {
            proof {
                assert forall|j: int| 0 <= j <= n implies plus_spans(t@, x@, pos as int, j) == (
                #[trigger] reach@[j] || plus_split(t@, x@, pos as int, j, next)) by {
                    assert(reach@[j] == before[j]);
                    assert(plus_spans(t@, x@, pos as int, j) == (before[j] || plus_split(
                        t@,
                        x@,
                        pos as int,
                        j,
                        m as int,
                    )));
                    assert(plus_split(t@, x@, pos as int, j, m as int) == (pos < m < j && ((
                    plus_spans(t@, x@, pos as int, m as int) && spans(t@, x@, m as int, j))
                        || plus_split(t@, x@, pos as int, j, next))));
                    if j <= m {
                        assert(!plus_split(t@, x@, pos as int, j, next));
                    }
                }
            }
        }
        m = m + 1;
        assert(m == next);
        assert forall|j: int| 0 <= j <= n implies plus_spans(t@, x@, pos as int, j) == (reach@[j]
            || plus_split(t@, x@, pos as int, j, m as int)) by {
            assert(plus_spans(t@, x@, pos as int, j) == (reach@[j] || plus_split(
                t@,
                x@,
                pos as int,
                j,
                next,
            )));
        }
    }
    proof {
        assert forall|j: int| 0 <= j <= n implies !plus_split(t@, x@, pos as int, j, m as int) by {}
    }
    reach
}

} // verus!
