use vstd::prelude::*;

use crate::syntax::{Alts, Ast, Single};

verus! {

/// Whether `char::is_numeric` holds of `c`.
pub uninterp spec fn numeric(c: char) -> bool;

/// Whether `char::is_alphanumeric` holds of `c`.
pub uninterp spec fn alphanumeric(c: char) -> bool;

/// Whether the test `s` accepts the character `c`.
pub open spec fn single_accepts(s: Single, c: char) -> bool {
    match s {
        Single::LIT(x) => c == x,
        Single::DOT => true,
        Single::DIGIT => numeric(c),
        Single::WORD => alphanumeric(c) || c == '_',
    }
}

/// Whether a bracket expression accepts `c`: some test accepts it, or, when
/// negated, none does.
pub open spec fn class_accepts(neg: bool, items: Seq<Single>, c: char) -> bool {
    neg != (exists|k: int| 0 <= k < items.len() && single_accepts(#[trigger] items[k], c))
}

/// Whether `a` derives the stretch `t[i..j]` of the text `t`. Anchors are
/// tested against the positions in the whole text.
pub open spec fn spans(t: Seq<char>, a: Ast, i: int, j: int) -> bool
    decreases a, 0int, j - i + 2,
{
    match a {
        Ast::Empty => i == j,
        Ast::Start => i == j && i == 0,
        Ast::End => i == j && j == t.len(),
        Ast::Char(s) => 0 <= i < t.len() && j == i + 1 && single_accepts(s, t[i]),
        Ast::Class(neg, items) => 0 <= i < t.len() && j == i + 1 && class_accepts(neg, items, t[i]),
        Ast::Optional(x) => i == j || spans(t, *x, i, j),
        Ast::Plus(x) => plus_spans(t, *x, i, j),
        Ast::Group(alts) => alt_spans(t, alts, i, j),
        Ast::Sequence(_, _) => i <= j && seq_split(t, a, i, j, i),
    }
}

/// For a sequence `a`: whether some split point `m` with `k <= m <= j` has
/// its left part derive `t[i..m]` and its right part `t[m..j]`.
pub open spec fn seq_split(t: Seq<char>, a: Ast, i: int, j: int, k: int) -> bool
    decreases a, 0int, j - k + 1,
{
    match a {
        Ast::Sequence(l, r) => k <= j && ((spans(t, *l, i, k) && spans(t, *r, k, j)) || seq_split(
            t,
            a,
            i,
            j,
            k + 1,
        )),
        _ => false,
    }
}

/// Whether one or more repetitions of `x` derive `t[i..j]`; a repetition
/// after the first takes at least one character.
pub open spec fn plus_spans(t: Seq<char>, x: Ast, i: int, j: int) -> bool
    decreases x, j - i, j - i + 3,
{
    i <= j && (spans(t, x, i, j) || plus_split(t, x, i, j, i + 1))
}

/// Whether some `m` with `k <= m < j` has repetitions of `x` derive `t[i..m]`
/// and one more repetition derive `t[m..j]`.
pub open spec fn plus_split(t: Seq<char>, x: Ast, i: int, j: int, k: int) -> bool
    decreases x, j - i, j - k + 1,
{
    i < k < j && ((plus_spans(t, x, i, k) && spans(t, x, k, j)) || plus_split(t, x, i, j, k + 1))
}

/// Whether some branch derives `t[i..j]`.
pub open spec fn alt_spans(t: Seq<char>, alts: Alts, i: int, j: int) -> bool
    decreases alts, 0int, 0int,
{
    match alts {
        Alts::Nil => false,
        Alts::Cons(b, rest) => spans(t, *b, i, j) || alt_spans(t, *rest, i, j),
    }
}

/// Whether `a` derives some stretch of `t`.
pub open spec fn matched(t: Seq<char>, a: Ast) -> bool {
    exists|i: int, j: int| 0 <= i <= t.len() && #[trigger] spans(t, a, i, j)
}

/// A derived stretch lies inside the text and does not run backwards.
pub proof fn lemma_spans_bounds(t: Seq<char>, a: Ast, i: int, j: int)
    requires
        0 <= i <= t.len(),
        spans(t, a, i, j),
    ensures
        i <= j <= t.len(),
    decreases a, 0int, j - i + 2,
{
    match a {
        Ast::Optional(x) => {
            if i != j {
                lemma_spans_bounds(t, *x, i, j);
            }
        },
        Ast::Plus(x) => {
            lemma_plus_bounds(t, *x, i, j);
        },
        Ast::Group(alts) => {
            lemma_alt_bounds(t, alts, i, j);
        },
        Ast::Sequence(_, _) => {
            lemma_split_bounds(t, a, i, j, i);
        },
        _ => {},
    }
}

proof fn lemma_split_bounds(t: Seq<char>, a: Ast, i: int, j: int, k: int)
    requires
        0 <= i <= k,
        i <= t.len(),
        seq_split(t, a, i, j, k),
    ensures
        j <= t.len(),
    decreases a, 0int, j - k + 1,
{
    if let Ast::Sequence(l, r) = a {
        if spans(t, *l, i, k) && spans(t, *r, k, j) {
            lemma_spans_bounds(t, *l, i, k);
            lemma_spans_bounds(t, *r, k, j);
        } else {
            lemma_split_bounds(t, a, i, j, k + 1);
        }
    }
}

proof fn lemma_plus_bounds(t: Seq<char>, x: Ast, i: int, j: int)
    requires
        0 <= i <= t.len(),
        plus_spans(t, x, i, j),
    ensures
        i <= j <= t.len(),
    decreases x, j - i, j - i + 3,
{
    if spans(t, x, i, j) {
        lemma_spans_bounds(t, x, i, j);
    } else {
        lemma_plus_split_bounds(t, x, i, j, i + 1);
    }
}

proof fn lemma_plus_split_bounds(t: Seq<char>, x: Ast, i: int, j: int, k: int)
    requires
        0 <= i <= t.len(),
        plus_split(t, x, i, j, k),
    ensures
        j <= t.len(),
    decreases x, j - i, j - k + 1,
{
    if plus_spans(t, x, i, k) && spans(t, x, k, j) {
        lemma_plus_bounds(t, x, i, k);
        lemma_spans_bounds(t, x, k, j);
    } else {
        lemma_plus_split_bounds(t, x, i, j, k + 1);
    }
}

proof fn lemma_alt_bounds(t: Seq<char>, alts: Alts, i: int, j: int)
    requires
        0 <= i <= t.len(),
        alt_spans(t, alts, i, j),
    ensures
        i <= j <= t.len(),
    decreases alts, 0int, 0int,
{
    match alts {
        Alts::Nil => {},
        Alts::Cons(b, rest) => {
            if spans(t, *b, i, j) {
                lemma_spans_bounds(t, *b, i, j);
            } else {
                lemma_alt_bounds(t, *rest, i, j);
            }
        },
    }
}

/// Whether `a` can derive a stretch of no characters at the start of an
/// empty text: anchors and `?` can, a character test cannot.
pub open spec fn nullable(a: Ast) -> bool
    decreases a, 0int,
{
    match a {
        Ast::Empty | Ast::Start | Ast::End | Ast::Optional(_) => true,
        Ast::Char(_) | Ast::Class(_, _) => false,
        Ast::Plus(x) => nullable(*x),
        Ast::Group(alts) => alts_nullable(alts),
        Ast::Sequence(l, r) => nullable(*l) && nullable(*r),
    }
}

/// Whether some branch is nullable.
pub open spec fn alts_nullable(alts: Alts) -> bool
    decreases alts, 0int,
{
    match alts {
        Alts::Nil => false,
        Alts::Cons(b, rest) => nullable(*b) || alts_nullable(*rest),
    }
}

proof fn lemma_spans_empty_text(a: Ast)
    ensures
        spans(seq![], a, 0, 0) == nullable(a),
    decreases a, 0int,
{
    let t: Seq<char> = seq![];
    assert(t.len() == 0);
    match a {
        Ast::Plus(x) => {
            lemma_spans_empty_text(*x);
            assert(!plus_split(t, *x, 0, 0, 1));
            assert(plus_spans(t, *x, 0, 0) == spans(t, *x, 0, 0));
        },
        Ast::Group(alts) => {
            lemma_alts_empty_text(alts);
            assert(spans(t, a, 0, 0) == nullable(a));
        },
        Ast::Sequence(l, r) => {
            lemma_spans_empty_text(*l);
            lemma_spans_empty_text(*r);
            assert(!seq_split(t, a, 0, 0, 1));
            assert(seq_split(t, a, 0, 0, 0) == (spans(t, *l, 0, 0) && spans(t, *r, 0, 0)));
            assert(spans(t, a, 0, 0) == nullable(a));
        },
        _ => {
            assert(spans(t, a, 0, 0) == nullable(a));
        },
    }
    assert(spans(t, a, 0, 0) == nullable(a));
}

proof fn lemma_alts_empty_text(alts: Alts)
    ensures
        alt_spans(seq![], alts, 0, 0) == alts_nullable(alts),
    decreases alts, 0int,
{
    if let Alts::Cons(b, rest) = alts {
        lemma_spans_empty_text(*b);
        lemma_alts_empty_text(*rest);
    }
}

/// The empty text is matched exactly by the nullable expressions.
pub proof fn lemma_empty_text_matched(a: Ast)
    ensures
        matched(seq![], a) == nullable(a),
{
    let t: Seq<char> = seq![];
    lemma_spans_empty_text(a);
    if matched(t, a) {
        let (i, j) = choose|i: int, j: int| 0 <= i <= t.len() && #[trigger] spans(t, a, i, j);
        lemma_spans_bounds(t, a, i, j);
    }
    if nullable(a) {
        assert(spans(t, a, 0, 0));
    }
}

/// The empty expression matches every text.
pub proof fn lemma_empty_matched(t: Seq<char>)
    ensures
        matched(t, Ast::Empty),
{
    assert(spans(t, Ast::Empty, 0, 0));
}

proof fn lemma_group_split(t: Seq<char>, b: Ast, rest: Alts, k: Ast, i: int, j: int, m: int)
    ensures
        seq_split(
            t,
            Ast::Sequence(
                Box::new(Ast::Group(Alts::Cons(Box::new(b), Box::new(rest)))),
                Box::new(k),
            ),
            i,
            j,
            m,
        ) == (seq_split(t, Ast::Sequence(Box::new(b), Box::new(k)), i, j, m) || seq_split(
            t,
            Ast::Sequence(Box::new(Ast::Group(rest)), Box::new(k)),
            i,
            j,
            m,
        )),
    decreases j - m + 1,
{
    if m <= j {
        lemma_group_split(t, b, rest, k, i, j, m + 1);
        assert(alt_spans(t, Alts::Cons(Box::new(b), Box::new(rest)), i, m) == (spans(t, b, i, m)
            || alt_spans(t, rest, i, m)));
        assert(spans(t, Ast::Group(Alts::Cons(Box::new(b), Box::new(rest))), i, m) == (spans(
            t,
            b,
            i,
            m,
        ) || spans(t, Ast::Group(rest), i, m)));
    }
}

/// A group followed by a continuation derives a stretch exactly when its
/// first branch followed by the continuation does, or the group of the
/// remaining branches followed by the continuation does: each branch is
/// tried against the whole of what follows it.
pub proof fn lemma_group_continuation(t: Seq<char>, b: Ast, rest: Alts, k: Ast, i: int, j: int)
    ensures
        spans(
            t,
            Ast::Sequence(
                Box::new(Ast::Group(Alts::Cons(Box::new(b), Box::new(rest)))),
                Box::new(k),
            ),
            i,
            j,
        ) == (spans(t, Ast::Sequence(Box::new(b), Box::new(k)), i, j) || spans(
            t,
            Ast::Sequence(Box::new(Ast::Group(rest)), Box::new(k)),
            i,
            j,
        )),
{
    lemma_group_split(t, b, rest, k, i, j, i);
}

} // verus!
