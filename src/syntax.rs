use vstd::prelude::*;

verus! {

/// A test on one character.
#[derive(Clone, Copy, Debug, PartialEq, Eq, Structural)]
pub enum Single {
    LIT(char),
    DOT,
    DIGIT,
    WORD,
}

/// A bracket expression: `POS` matches a character that one of its tests
/// accepts, `NEG` one that none of them accepts.
#[derive(Clone, Debug, PartialEq, Eq)]
pub enum Brackets {
    POS(Vec<Single>),
    NEG(Vec<Single>),
}

/// The branches of a group, in the order in which they were written.
#[derive(Debug, PartialEq, Eq)]
pub enum Paren {
    NIL,
    CONS(Expr, Box<Paren>),
}

/// A compiled pattern.
#[derive(Debug, PartialEq, Eq)]
pub enum Expr {
    START,
    END,
    BRACKET(Brackets),
    PLUS(Box<Expr>),
    QMARK(Box<Expr>),
    PAREN(Box<Paren>),
    SEQUENCE(Box<Expr>, Box<Expr>),
    SINGLE(Single),
    BLANK,
}

/// Why a pattern does not compile.
#[derive(Clone, Copy, Debug, PartialEq, Eq, Structural)]
pub enum PatternError {
    UnterminatedBracket,
    UnterminatedGroup,
}

/// The mathematical form of a compiled pattern.
pub enum Ast {
    Start,
    End,
    /// A bracket expression: whether it is negated, and its tests.
    Class(bool, Seq<Single>),
    Plus(Box<Ast>),
    Optional(Box<Ast>),
    Group(Alts),
    Sequence(Box<Ast>, Box<Ast>),
    Char(Single),
    Empty,
}

/// The branches of a group.
pub enum Alts {
    Nil,
    Cons(Box<Ast>, Box<Alts>),
}

impl Brackets {
    pub open spec fn view(&self) -> Ast {
        match self {
            Brackets::POS(v) => Ast::Class(false, v@),
            Brackets::NEG(v) => Ast::Class(true, v@),
        }
    }
}

impl Paren {
    pub open spec fn view(&self) -> Alts
        decreases self,
    {
        match self {
            Paren::NIL => Alts::Nil,
            Paren::CONS(hd, tl) => Alts::Cons(Box::new(hd.view()), Box::new(tl.view())),
        }
    }
}

impl Expr {
    pub open spec fn view(&self) -> Ast
        decreases self,
    {
        match self {
            Expr::START => Ast::Start,
            Expr::END => Ast::End,
            Expr::BRACKET(b) => b.view(),
            Expr::PLUS(e) => Ast::Plus(Box::new(e.view())),
            Expr::QMARK(e) => Ast::Optional(Box::new(e.view())),
            Expr::PAREN(p) => Ast::Group(p.view()),
            Expr::SEQUENCE(l, r) => Ast::Sequence(Box::new(l.view()), Box::new(r.view())),
            Expr::SINGLE(s) => Ast::Char(*s),
            Expr::BLANK => Ast::Empty,
        }
    }
}

/// How many characters of `s` lie at or after `i`.
pub open spec fn rest_len(s: Seq<char>, i: int) -> nat {
    if i < s.len() {
        (s.len() - i) as nat
    } else {
        0
    }
}

// The grammar of patterns. Each function reads `s` from position `i` and
// returns what it recognised with the number of characters it took.

/// The character test at `i` and its width: `.` is the wildcard, `\d` and
/// `\w` the digit and word classes; any other backslash stands for itself.
pub open spec fn single_at(s: Seq<char>, i: int) -> (Single, int) {
    if s[i] == '.' {
        (Single::DOT, 1)
    } else if s[i] == '\\' && i + 1 < s.len() && s[i + 1] == 'd' {
        (Single::DIGIT, 2)
    } else if s[i] == '\\' && i + 1 < s.len() && s[i + 1] == 'w' {
        (Single::WORD, 2)
    } else {
        (Single::LIT(s[i]), 1)
    }
}

/// The tests of a bracket expression from `i` through its closing `]`.
pub open spec fn class_at(s: Seq<char>, i: int) -> Result<(Seq<Single>, nat), PatternError>
    decreases s.len() - i,
{
    if i < 0 || i >= s.len() {
        Err(PatternError::UnterminatedBracket)
    } else if s[i] == ']' {
        Ok((seq![], 1nat))
    } else {
        let (c, w) = single_at(s, i);
        match class_at(s, i + w) {
            Ok((rest, n)) => Ok((seq![c] + rest, (w + n) as nat)),
            Err(e) => Err(e),
        }
    }
}

/// A bracket expression whose `[` stands just before `i`: a leading `^`
/// negates it.
pub open spec fn bracket_at(s: Seq<char>, i: int) -> Result<(Ast, nat), PatternError> {
    if 0 <= i < s.len() && s[i] == '^' {
        match class_at(s, i + 1) {
            Ok((items, n)) => Ok((Ast::Class(true, items), n + 1)),
            Err(e) => Err(e),
        }
    } else {
        match class_at(s, i) {
            Ok((items, n)) => Ok((Ast::Class(false, items), n)),
            Err(e) => Err(e),
        }
    }
}

/// `a` wrapped by each `?` or `+` that follows from `i` on.
pub open spec fn quantified(s: Seq<char>, a: Ast, i: int) -> (Ast, nat)
    decreases s.len() - i,
{
    if 0 <= i < s.len() && s[i] == '?' {
        let (q, n) = quantified(s, Ast::Optional(Box::new(a)), i + 1);
        (q, n + 1)
    } else if 0 <= i < s.len() && s[i] == '+' {
        let (q, n) = quantified(s, Ast::Plus(Box::new(a)), i + 1);
        (q, n + 1)
    } else {
        (a, 0nat)
    }
}

/// The atom that starts at `i`, with the number of characters it takes
/// after its first one. A quantifier where an atom is expected applies to
/// the empty expression.
pub open spec fn atom_at(s: Seq<char>, i: int) -> Result<(Ast, nat), PatternError>
    decreases rest_len(s, i), 0int,
{
    if i < 0 || i >= s.len() {
        Ok((Ast::Empty, 0nat))
    } else if s[i] == '^' {
        Ok((Ast::Start, 0nat))
    } else if s[i] == '$' {
        Ok((Ast::End, 0nat))
    } else if s[i] == '?' {
        Ok((Ast::Optional(Box::new(Ast::Empty)), 0nat))
    } else if s[i] == '+' {
        Ok((Ast::Plus(Box::new(Ast::Empty)), 0nat))
    } else if s[i] == '(' {
        match alts_at(s, i + 1) {
            Ok((b, n)) => Ok((Ast::Group(b), n)),
            Err(e) => Err(e),
        }
    } else if s[i] == '[' {
        bracket_at(s, i + 1)
    } else {
        let (c, w) = single_at(s, i);
        Ok((Ast::Char(c), (w - 1) as nat))
    }
}

/// The sequence of atoms from `i` on, ending in `Empty`. It ends at the end of
/// `s` or, inside a group (`g`), before a `|` or `)`.
pub open spec fn seq_at(s: Seq<char>, i: int, g: bool) -> Result<(Ast, nat), PatternError>
    decreases rest_len(s, i), 1int,
{
    if i < 0 || i >= s.len() || (g && (s[i] == '|' || s[i] == ')')) {
        Ok((Ast::Empty, 0nat))
    } else {
        match atom_at(s, i) {
            Err(e) => Err(e),
            Ok((a, extra)) => {
                let (q, m) = quantified(s, a, i + 1 + extra);
                match seq_at(s, i + 1 + extra + m, g) {
                    Err(e) => Err(e),
                    Ok((rest, n)) => Ok(
                        (Ast::Sequence(Box::new(q), Box::new(rest)), 1 + extra + m + n),
                    ),
                }
            },
        }
    }
}

/// The branches of a group from `i` through its closing `)`.
pub open spec fn alts_at(s: Seq<char>, i: int) -> Result<(Alts, nat), PatternError>
    decreases rest_len(s, i), 2int,
{
    match seq_at(s, i, true) {
        Err(e) => Err(e),
        Ok((b, n)) => {
            let k = i + n;
            if k < 0 || k >= s.len() {
                Err(PatternError::UnterminatedGroup)
            } else if s[k] == ')' {
                Ok((Alts::Cons(Box::new(b), Box::new(Alts::Nil)), n + 1))
            } else {
                match alts_at(s, k + 1) {
                    Err(e) => Err(e),
                    Ok((bs, m)) => Ok((Alts::Cons(Box::new(b), Box::new(bs)), n + 1 + m)),
                }
            }
        },
    }
}

/// What the pattern `p` compiles to.
pub open spec fn compiled(p: Seq<char>) -> Result<Ast, PatternError> {
    match seq_at(p, 0, false) {
        Ok((a, _)) => Ok(a),
        Err(e) => Err(e),
    }
}

} // verus!
