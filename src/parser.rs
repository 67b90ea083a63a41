use vstd::prelude::*;

use crate::syntax::{
    alts_at, atom_at, bracket_at, class_at, compiled, quantified, seq_at, single_at, Alts, Ast, Brackets,
    Expr, Paren, PatternError, Single,
};
use crate::text::chars_of;

verus! {

/// `items` put in front of what a bracket's remaining tests parse to, `used`
/// characters earlier.
pub open spec fn after_items(
    items: Seq<Single>,
    used: int,
    r: Result<(Seq<Single>, nat), PatternError>,
) -> Result<(Seq<Single>, nat), PatternError> {
    match r {
        Ok((rest, n)) => Ok((items + rest, (used + n) as nat)),
        Err(e) => Err(e),
    }
}

/// Compiles a pattern.
pub fn parse(pattern: &String) -> (r: Result<Expr, PatternError>)
    ensures
        match r {
            Ok(e) => compiled(pattern@) == Ok::<Ast, PatternError>(e@),
            Err(x) => compiled(pattern@) == Err::<Ast, PatternError>(x),
        },
{
    let cs = chars_of(pattern.as_str());
    match parse_expr(&cs, 0, false) {
        Ok((e, _)) => Ok(e),
        Err(x) => Err(x),
    }
}

/// Parses the sequence of atoms from `i` on; inside a group (`g`) it stops
/// before a `|` or `)`.
fn parse_expr(cs: &Vec<char>, i: usize, g: bool) -> (r: Result<(Expr, usize), PatternError>)
    requires
        i <= cs.len(),
    ensures
        match r {
            Ok((e, k)) => i <= k <= cs.len() && seq_at(cs@, i as int, g) == Ok::<(Ast, nat), PatternError>((e@, (k - i) as nat)),
            Err(x) => seq_at(cs@, i as int, g) == Err::<(Ast, nat), PatternError>(x),
        },
    decreases cs.len() - i, 1int,
{
    if i >= cs.len() || (g && (cs[i] == '|' || cs[i] == ')')) {
        return Ok((Expr::BLANK, i));
    }
    let c = cs[i];
    let (atom, j) = if c == '^' {
        (Expr::START, i + 1)
    } else if c == '$' {
        (Expr::END, i + 1)
    } else if c == '?' {
        let e = Expr::QMARK(Box::new(Expr::BLANK));
        assert(Expr::BLANK@ == Ast::Empty);
        assert(e@ == Ast::Optional(Box::new(Ast::Empty)));
        (e, i + 1)
    } else if c == '+' {
        let e = Expr::PLUS(Box::new(Expr::BLANK));
        assert(Expr::BLANK@ == Ast::Empty);
        assert(e@ == Ast::Plus(Box::new(Ast::Empty)));
        (e, i + 1)
    } else if c == '(' {
        match parse_paren(cs, i + 1) {
            Ok((p, k)) => (Expr::PAREN(Box::new(p)), k),
            Err(x) => {
                assert(atom_at(cs@, i as int) == Err::<(Ast, nat), PatternError>(x));
                return Err(x);
            },
        }
    } else if c == '[' {
        match parse_bracket(cs, i + 1) {
            Ok((b, k)) => (Expr::BRACKET(b), k),
            Err(x) => {
                assert(atom_at(cs@, i as int) == Err::<(Ast, nat), PatternError>(x));
                return Err(x);
            },
        }
    } else {
        let (s, k) = parse_single(cs, i);
        (Expr::SINGLE(s), k)
    };
    assert(j > i && j <= cs.len());
    assert(atom_at(cs@, i as int) == Ok::<(Ast, nat), PatternError>((atom@, (j - i - 1) as nat)));
    let (q, k) = parse_quantifiers(cs, atom, j);
    match parse_expr(cs, k, g) {
        Ok((rest, m)) => {
            assert(seq_at(cs@, i as int, g) == Ok::<(Ast, nat), PatternError>((Ast::Sequence(Box::new(q@), Box::new(rest@)), (m - i) as nat)));
            Ok((Expr::SEQUENCE(Box::new(q), Box::new(rest)), m))
        },
        Err(x) => Err(x),
    }
}

/// Wraps `atom` in each `?` or `+` that follows from `i` on.
fn parse_quantifiers(cs: &Vec<char>, atom: Expr, i: usize) -> (r: (Expr, usize))
    requires
        i <= cs.len(),
    ensures
        i <= r.1 <= cs.len(),
        quantified(cs@, atom@, i as int) == (r.0@, (r.1 - i) as nat),
{
    let mut cur = atom;
    let mut j = i;
    while j < cs.len() && (cs[j] == '?' || cs[j] == '+')
        invariant
            i <= j <= cs.len(),
            quantified(cs@, atom@, i as int) == (quantified(cs@, cur@, j as int).0, (
            quantified(cs@, cur@, j as int).1 + (j - i)) as nat),
        decreases cs.len() - j,
    {
        if cs[j] == '?' {
            cur = Expr::QMARK(Box::new(cur));
        } else {
            cur = Expr::PLUS(Box::new(cur));
        }
        j = j + 1;
    }
    (cur, j)
}

/// Parses the branches of a group whose `(` stands just before `i`, through
/// its closing `)`.
fn parse_paren(cs: &Vec<char>, i: usize) -> (r: Result<(Paren, usize), PatternError>)
    requires
        i <= cs.len(),
    ensures
        match r {
            Ok((p, k)) => i <= k <= cs.len() && alts_at(cs@, i as int) == Ok::<(Alts, nat), PatternError>((p@, (k - i) as nat)),
            Err(x) => alts_at(cs@, i as int) == Err::<(Alts, nat), PatternError>(x),
        },
    decreases cs.len() - i, 2int,
{
    match parse_expr(cs, i, true) {
        Err(x) => Err(x),
        Ok((b, k)) => {
            if k >= cs.len() {
                Err(PatternError::UnterminatedGroup)
            } else if cs[k] == ')' {
                Ok((Paren::CONS(b, Box::new(Paren::NIL)), k + 1))
            } else {
                match parse_paren(cs, k + 1) {
                    Err(x) => Err(x),
                    Ok((bs, m)) => Ok((Paren::CONS(b, Box::new(bs)), m)),
                }
            }
        },
    }
}

/// Parses a bracket expression whose `[` stands just before `i`, through its
/// closing `]`.
fn parse_bracket(cs: &Vec<char>, i: usize) -> (r: Result<(Brackets, usize), PatternError>)
    requires
        i <= cs.len(),
    ensures
        match r {
            Ok((b, k)) => i <= k <= cs.len() && bracket_at(cs@, i as int) == Ok::<(Ast, nat), PatternError>((b@, (k - i) as nat)),
            Err(x) => bracket_at(cs@, i as int) == Err::<(Ast, nat), PatternError>(x),
        },
{
    let neg = i < cs.len() && cs[i] == '^';
    let start = if neg {
        i + 1
    } else {
        i
    };
    let mut items: Vec<Single> = Vec::new();
    let mut j = start;
    loop
        invariant
            start <= j <= cs.len(),
            start == if neg { i + 1 } else { i as int },
            neg == (i < cs.len() && cs@[i as int] == '^'),
            class_at(cs@, start as int) == after_items(items@, j - start, class_at(cs@, j as int)),
        decreases cs.len() - j,
    {
        if j >= cs.len() {
            return Err(PatternError::UnterminatedBracket);
        }
        if cs[j] == ']' {
            assert(items@ + seq![] == items@);
            if neg {
                return Ok((Brackets::NEG(items), j + 1));
            } else {
                return Ok((Brackets::POS(items), j + 1));
            }
        }
        let (c, k) = parse_single(cs, j);
        proof {
            let ghost old_items = items@;
            match class_at(cs@, k as int) {
                Ok((rest, n)) => {
                    assert(old_items + (seq![c] + rest) == old_items.push(c) + rest);
                },
                Err(e) => {},
            }
        }
        items.push(c);
        j = k;
    }
}

/// Parses the character test at `i`.
fn parse_single(cs: &Vec<char>, i: usize) -> (r: (Single, usize))
    requires
        i < cs.len(),
    ensures
        r.0 == single_at(cs@, i as int).0,
        r.1 == i + single_at(cs@, i as int).1,
{
    if cs[i] == '.' {
        (Single::DOT, i + 1)
    } else if cs[i] == '\\' && i + 1 < cs.len() && cs[i + 1] == 'd' {
        (Single::DIGIT, i + 2)
    } else if cs[i] == '\\' && i + 1 < cs.len() && cs[i + 1] == 'w' {
        (Single::WORD, i + 2)
    } else {
        (Single::LIT(cs[i]), i + 1)
    }
}

} // verus!
