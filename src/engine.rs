use vstd::prelude::*;

use crate::matcher::match_expr;
use crate::parser::parse;
use crate::semantics::{
    lemma_empty_matched, lemma_empty_text_matched, lemma_spans_bounds, matched, nullable, seq_split,
    spans,
};
use crate::syntax::{compiled, Ast, Expr, PatternError};
use crate::text::chars_of;

verus! {

/// Whether some entry of `v` is `true`.
fn any_true(v: &Vec<bool>) -> (r: bool)
    ensures
        r == exists|j: int| 0 <= j < v@.len() && v@[j],
{
    let mut k: usize = 0;
    while k < v.len()
        invariant
            k <= v@.len(),
            forall|q: int| 0 <= q < k ==> !v@[q],
        decreases v.len() - k,
    {
        if v[k] {
            return true;
        }
        k = k + 1;
    }
    false
}

/// A sequence that starts with `^` derives nothing from a position past the
/// first.
proof fn lemma_anchored_split(t: Seq<char>, a: Ast, i: int, j: int, k: int)
    requires
        a matches Ast::Sequence(l, _) && *l == Ast::Start,
        i != 0,
    ensures
        !seq_split(t, a, i, j, k),
    decreases j - k + 1,
{
    if let Ast::Sequence(l, _) = a {
        assert(!spans(t, *l, i, k));
    }
    if k <= j {
        lemma_anchored_split(t, a, i, j, k + 1);
    }
}

/// Whether `e` derives some stretch of `t`. Start positions are tried in
/// increasing order, the first success wins; a pattern that begins with `^`
/// is tried at position 0 alone.
pub fn search(t: &Vec<char>, e: &Expr) -> (r: bool)
    requires
        t.len() < usize::MAX,
    ensures
        r == matched(t@, e@),
{
    let n = t.len();
    if let Expr::BLANK = e {
        assert(spans(t@, e@, 0, 0));
        return true;
    }
    let anchored = match e {
        Expr::SEQUENCE(l, _) => match **l {
            Expr::START => true,
            _ => false,
        },
        _ => false,
    };
    let last = if anchored {
        0
    } else {
        n
    };
    let mut i: usize = 0;
    while i <= last
        invariant
            last <= n == t.len() < usize::MAX,
            anchored ==> (*e matches Expr::SEQUENCE(l, _) && *l == Expr::START),
            !anchored ==> last == n,
            forall|k: int, j: int| 0 <= k < i && 0 <= j <= n ==> !#[trigger] spans(t@, e@, k, j),
        decreases last + 1 - i,
    {
        let ends = match_expr(t, e, i);
        if any_true(&ends) {
            proof {
                let j = choose|j: int| 0 <= j < ends@.len() && ends@[j];
                assert(spans(t@, e@, i as int, j));
            }
            return true;
        }
        assert forall|j: int| 0 <= j <= n implies !#[trigger] spans(t@, e@, i as int, j) by {
            assert(!ends@[j]);
        }
        i = i + 1;
    }
    proof {
        assert forall|k: int, j: int| 0 <= k <= n implies !#[trigger] spans(t@, e@, k, j) by {
            if spans(t@, e@, k, j) {
                lemma_spans_bounds(t@, e@, k, j);
                if anchored && k > 0 {
                    if let Expr::SEQUENCE(l, _) = e {
                        assert(l@ == Ast::Start);
                    }
                    lemma_anchored_split(t@, e@, k, j, k);
                }
            }
        }
    }
    false
}

/// Whether the text `input_line` matches `pattern`: some stretch of the text
/// is derived by what the pattern compiles to. A pattern that does not
/// compile gives its error.
pub fn match_pattern(input_line: &str, pattern: &str) -> (r: Result<bool, PatternError>)
    requires
        input_line@.len() < usize::MAX,
    ensures
        match compiled(pattern@) {
            Ok(a) => r == Ok::<bool, PatternError>(matched(input_line@, a)),
            Err(x) => r == Err::<bool, PatternError>(x),
        },
{
    let p = pattern.to_owned();
    match parse(&p) {
        Ok(e) => {
            let t = chars_of(input_line);
            Ok(search(&t, &e))
        },
        Err(x) => Err(x),
    }
}

/// A pattern that compiles to the empty expression matches every text, the
/// empty one included.
pub proof fn lemma_blank_pattern_matches_all(p: Seq<char>, t: Seq<char>)
    requires
        compiled(p) == Ok::<Ast, PatternError>(Ast::Empty),
    ensures
        matched(t, Ast::Empty),
{
    lemma_empty_matched(t);
}

/// The empty text matches a pattern exactly when the pattern compiles to an
/// expression that can derive zero characters.
pub proof fn lemma_empty_text_iff_nullable(p: Seq<char>)
    requires
        compiled(p) is Ok,
    ensures
        matched(seq![], compiled(p)->Ok_0) == nullable(compiled(p)->Ok_0),
{
    lemma_empty_text_matched(compiled(p)->Ok_0);
}

} // verus!
