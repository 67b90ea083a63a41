use vstd::prelude::*;

use crate::text::chars_of;

verus! {

/// One lexical unit of a pattern.
#[derive(Clone, Copy, Debug, PartialEq, Eq, Structural)]
pub enum Token {
    CHAR(char),
    DOT,
    LBRACKET,
    RBRACKET,
    STAR,
    QUESTIONMARK,
    DIGIT,
    WORD,
    LPAREN,
    RPAREN,
    PLUS,
    OR,
    CARET,
    CASH,
}

/// The token that a character stands for on its own.
pub open spec fn token_of(c: char) -> Token {
    if c == '[' {
        Token::LBRACKET
    } else if c == ']' {
        Token::RBRACKET
    } else if c == '(' {
        Token::LPAREN
    } else if c == ')' {
        Token::RPAREN
    } else if c == '*' {
        Token::STAR
    } else if c == '?' {
        Token::QUESTIONMARK
    } else if c == '+' {
        Token::PLUS
    } else if c == '.' {
        Token::DOT
    } else if c == '|' {
        Token::OR
    } else if c == '^' {
        Token::CARET
    } else if c == '$' {
        Token::CASH
    } else {
        Token::CHAR(c)
    }
}

/// The tokens of `s`, read left to right: a `d` or `w` right after a
/// backslash replaces the backslash's token by `DIGIT` or `WORD`.
pub open spec fn lexed(s: Seq<char>) -> Seq<Token>
    decreases s.len(),
{
    if s.len() == 0 {
        seq![]
    } else {
        let p = s.drop_last();
        let c = s.last();
        if p.len() > 0 && p.last() == '\\' && (c == 'd' || c == 'w') {
            lexed(p).drop_last().push(if c == 'd' { Token::DIGIT } else { Token::WORD })
        } else {
            lexed(p).push(token_of(c))
        }
    }
}

proof fn lemma_lexed_nonempty(s: Seq<char>)
    requires
        s.len() > 0,
    ensures
        lexed(s).len() > 0,
        s.last() == '\\' ==> lexed(s).last() == Token::CHAR('\\'),
    decreases s.len(),
{
    let p = s.drop_last();
    if p.len() > 0 && p.last() == '\\' && (s.last() == 'd' || s.last() == 'w') {
        lemma_lexed_nonempty(p);
    }
}

fn token_for(c: char) -> (t: Token)
    ensures
        t == token_of(c),
{
    match c {
        '[' => Token::LBRACKET,
        ']' => Token::RBRACKET,
        '(' => Token::LPAREN,
        ')' => Token::RPAREN,
        '*' => Token::STAR,
        '?' => Token::QUESTIONMARK,
        '+' => Token::PLUS,
        '.' => Token::DOT,
        '|' => Token::OR,
        '^' => Token::CARET,
        '$' => Token::CASH,
        _ => Token::CHAR(c),
    }
}

/// Splits a pattern into tokens.
pub fn tokenize(pattern: &str) -> (r: Vec<Token>)
    ensures
        r@ == lexed(pattern@),
{
    let cs = chars_of(pattern);
    let mut tokens: Vec<Token> = Vec::new();
    let mut i: usize = 0;
    while i < cs.len()
        invariant
            i <= cs@.len(),
            cs@ == pattern@,
            tokens@ == lexed(cs@.take(i as int)),
        decreases cs.len() - i,
    {
        let c = cs[i];
        assert(cs@.take(i as int + 1).drop_last() == cs@.take(i as int));
        if i > 0 && cs[i - 1] == '\\' && (c == 'd' || c == 'w') {
            proof {
                lemma_lexed_nonempty(cs@.take(i as int));
            }
            tokens.pop();
            tokens.push(if c == 'd' { Token::DIGIT } else { Token::WORD });
        } else {
            tokens.push(token_for(c));
        }
        i = i + 1;
    }
    assert(cs@.take(i as int) == cs@);
    tokens
}

} // verus!
