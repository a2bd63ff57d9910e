use vstd::prelude::*;

use super::parser::Precedence;
use super::token::TokenType;

verus! {

/// The parsing routines that a rule can name.
#[derive(Debug, Clone, Copy, PartialEq, Eq, Structural)]
pub enum ParseFn {
    Grouping,
    Call,
    Unary,
    Binary,
    Variable,
    String,
    Number,
    Literal,
    And,
    Or,
}

/// How a token takes part in an expression: the routine that parses it at the start of
/// an expression, the routine that parses it after a left operand, and its precedence
/// as an infix operator.
#[derive(Debug, Clone, Copy, PartialEq, Eq, Structural)]
pub struct ParseRule {
    pub prefix: Option<ParseFn>,
    pub infix: Option<ParseFn>,
    pub precedence: Precedence,
}

/// The number of token kinds.
pub const TOKEN_KINDS: usize = 40;

impl TokenType {
    /// The place of a kind in the order of declaration.
    pub open spec fn spec_index(self) -> usize {
        match self {
            TokenType::LeftParen => 0,
            TokenType::RightParen => 1,
            TokenType::LeftBrace => 2,
            TokenType::RightBrace => 3,
            TokenType::Comma => 4,
            TokenType::Dot => 5,
            TokenType::Minus => 6,
            TokenType::Plus => 7,
            TokenType::Semicolon => 8,
            TokenType::Slash => 9,
            TokenType::Star => 10,
            TokenType::Bang => 11,
            TokenType::BangEqual => 12,
            TokenType::Equal => 13,
            TokenType::EqualEqual => 14,
            TokenType::Greater => 15,
            TokenType::GreaterEqual => 16,
            TokenType::Less => 17,
            TokenType::LessEqual => 18,
            TokenType::Identifier => 19,
            TokenType::String => 20,
            TokenType::Number => 21,
            TokenType::And => 22,
            TokenType::Class => 23,
            TokenType::Else => 24,
            TokenType::False => 25,
            TokenType::For => 26,
            TokenType::Fun => 27,
            TokenType::If => 28,
            TokenType::Nil => 29,
            TokenType::Or => 30,
            TokenType::Print => 31,
            TokenType::Return => 32,
            TokenType::Super => 33,
            TokenType::This => 34,
            TokenType::True => 35,
            TokenType::Var => 36,
            TokenType::While => 37,
            TokenType::Error => 38,
            TokenType::EOF => 39,
        }
    }

    /// The place of a kind in the order of declaration.
    #[verifier::when_used_as_spec(spec_index)]
    pub fn index(self) -> (r: usize)
        ensures
            r == self.spec_index(),
            r < 40,
    {
        match self {
            TokenType::LeftParen => 0,
            TokenType::RightParen => 1,
            TokenType::LeftBrace => 2,
            TokenType::RightBrace => 3,
            TokenType::Comma => 4,
            TokenType::Dot => 5,
            TokenType::Minus => 6,
            TokenType::Plus => 7,
            TokenType::Semicolon => 8,
            TokenType::Slash => 9,
            TokenType::Star => 10,
            TokenType::Bang => 11,
            TokenType::BangEqual => 12,
            TokenType::Equal => 13,
            TokenType::EqualEqual => 14,
            TokenType::Greater => 15,
            TokenType::GreaterEqual => 16,
            TokenType::Less => 17,
            TokenType::LessEqual => 18,
            TokenType::Identifier => 19,
            TokenType::String => 20,
            TokenType::Number => 21,
            TokenType::And => 22,
            TokenType::Class => 23,
            TokenType::Else => 24,
            TokenType::False => 25,
            TokenType::For => 26,
            TokenType::Fun => 27,
            TokenType::If => 28,
            TokenType::Nil => 29,
            TokenType::Or => 30,
            TokenType::Print => 31,
            TokenType::Return => 32,
            TokenType::Super => 33,
            TokenType::This => 34,
            TokenType::True => 35,
            TokenType::Var => 36,
            TokenType::While => 37,
            TokenType::Error => 38,
            TokenType::EOF => 39,
        }
    }
}

/// A rule with the given parts.
pub open spec fn rule(prefix: Option<ParseFn>, infix: Option<ParseFn>, precedence: Precedence) -> ParseRule {
    ParseRule { prefix, infix, precedence }
}

/// The rule of each kind of token.
pub open spec fn rule_for(kind: TokenType) -> ParseRule {
    match kind {
        TokenType::LeftParen => rule(Some(ParseFn::Grouping), Some(ParseFn::Call), Precedence::Call),
        TokenType::Minus => rule(Some(ParseFn::Unary), Some(ParseFn::Binary), Precedence::Term),
        TokenType::Plus => rule(None, Some(ParseFn::Binary), Precedence::Term),
        TokenType::Slash => rule(None, Some(ParseFn::Binary), Precedence::Factor),
        TokenType::Star => rule(None, Some(ParseFn::Binary), Precedence::Factor),
        TokenType::Bang => rule(Some(ParseFn::Unary), None, Precedence::Lowest),
        TokenType::BangEqual => rule(None, Some(ParseFn::Binary), Precedence::Equality),
        TokenType::EqualEqual => rule(None, Some(ParseFn::Binary), Precedence::Equality),
        TokenType::Greater => rule(None, Some(ParseFn::Binary), Precedence::Comparison),
        TokenType::GreaterEqual => rule(None, Some(ParseFn::Binary), Precedence::Comparison),
        TokenType::Less => rule(None, Some(ParseFn::Binary), Precedence::Comparison),
        TokenType::LessEqual => rule(None, Some(ParseFn::Binary), Precedence::Comparison),
        TokenType::Identifier => rule(Some(ParseFn::Variable), None, Precedence::Lowest),
        TokenType::String => rule(Some(ParseFn::String), None, Precedence::Lowest),
        TokenType::Number => rule(Some(ParseFn::Number), None, Precedence::Lowest),
        TokenType::And => rule(None, Some(ParseFn::And), Precedence::And),
        TokenType::False => rule(Some(ParseFn::Literal), None, Precedence::Lowest),
        TokenType::Nil => rule(Some(ParseFn::Literal), None, Precedence::Lowest),
        TokenType::Or => rule(None, Some(ParseFn::Or), Precedence::Or),
        TokenType::True => rule(Some(ParseFn::Literal), None, Precedence::Lowest),
        _ => rule(None, None, Precedence::Lowest),
    }
}

/// Whether `rules` holds the rule of every kind of token at the index of the kind.
pub open spec fn rules_table(rules: Seq<ParseRule>) -> bool {
    &&& rules.len() == 40
    &&& forall|kind: TokenType| #[trigger] rules[kind.spec_index() as int] == rule_for(kind)
}

/// The rule of one kind of token.
pub fn get_rule(kind: TokenType) -> (r: ParseRule)
    ensures
        r == rule_for(kind),
{
    let none = ParseRule { prefix: None, infix: None, precedence: Precedence::Lowest };
    match kind {
        TokenType::LeftParen => ParseRule {
            prefix: Some(ParseFn::Grouping),
            infix: Some(ParseFn::Call),
            precedence: Precedence::Call,
        },
        TokenType::Minus => ParseRule {
            prefix: Some(ParseFn::Unary),
            infix: Some(ParseFn::Binary),
            precedence: Precedence::Term,
        },
        TokenType::Plus => ParseRule {
            prefix: None,
            infix: Some(ParseFn::Binary),
            precedence: Precedence::Term,
        },
        TokenType::Slash => ParseRule {
            prefix: None,
            infix: Some(ParseFn::Binary),
            precedence: Precedence::Factor,
        },
        TokenType::Star => ParseRule {
            prefix: None,
            infix: Some(ParseFn::Binary),
            precedence: Precedence::Factor,
        },
        TokenType::Bang => ParseRule {
            prefix: Some(ParseFn::Unary),
            infix: None,
            precedence: Precedence::Lowest,
        },
        TokenType::BangEqual => ParseRule {
            prefix: None,
            infix: Some(ParseFn::Binary),
            precedence: Precedence::Equality,
        },
        TokenType::EqualEqual => ParseRule {
            prefix: None,
            infix: Some(ParseFn::Binary),
            precedence: Precedence::Equality,
        },
        TokenType::Greater => ParseRule {
            prefix: None,
            infix: Some(ParseFn::Binary),
            precedence: Precedence::Comparison,
        },
        TokenType::GreaterEqual => ParseRule {
            prefix: None,
            infix: Some(ParseFn::Binary),
            precedence: Precedence::Comparison,
        },
        TokenType::Less => ParseRule {
            prefix: None,
            infix: Some(ParseFn::Binary),
            precedence: Precedence::Comparison,
        },
        TokenType::LessEqual => ParseRule {
            prefix: None,
            infix: Some(ParseFn::Binary),
            precedence: Precedence::Comparison,
        },
        TokenType::Identifier => ParseRule {
            prefix: Some(ParseFn::Variable),
            infix: None,
            precedence: Precedence::Lowest,
        },
        TokenType::String => ParseRule {
            prefix: Some(ParseFn::String),
            infix: None,
            precedence: Precedence::Lowest,
        },
        TokenType::Number => ParseRule {
            prefix: Some(ParseFn::Number),
            infix: None,
            precedence: Precedence::Lowest,
        },
        TokenType::And => ParseRule {
            prefix: None,
            infix: Some(ParseFn::And),
            precedence: Precedence::And,
        },
        TokenType::False => ParseRule {
            prefix: Some(ParseFn::Literal),
            infix: None,
            precedence: Precedence::Lowest,
        },
        TokenType::Nil => ParseRule {
            prefix: Some(ParseFn::Literal),
            infix: None,
            precedence: Precedence::Lowest,
        },
        TokenType::Or => ParseRule {
            prefix: None,
            infix: Some(ParseFn::Or),
            precedence: Precedence::Or,
        },
        TokenType::True => ParseRule {
            prefix: Some(ParseFn::Literal),
            infix: None,
            precedence: Precedence::Lowest,
        },
        _ => none,
    }
}

/// The kind of token at a place in the order of declaration.
pub fn kind_at(index: usize) -> (r: TokenType)
    requires
        index < 40,
    ensures
        r.spec_index() == index,
{
    match index {
        0 => TokenType::LeftParen,
        1 => TokenType::RightParen,
        2 => TokenType::LeftBrace,
        3 => TokenType::RightBrace,
        4 => TokenType::Comma,
        5 => TokenType::Dot,
        6 => TokenType::Minus,
        7 => TokenType::Plus,
        8 => TokenType::Semicolon,
        9 => TokenType::Slash,
        10 => TokenType::Star,
        11 => TokenType::Bang,
        12 => TokenType::BangEqual,
        13 => TokenType::Equal,
        14 => TokenType::EqualEqual,
        15 => TokenType::Greater,
        16 => TokenType::GreaterEqual,
        17 => TokenType::Less,
        18 => TokenType::LessEqual,
        19 => TokenType::Identifier,
        20 => TokenType::String,
        21 => TokenType::Number,
        22 => TokenType::And,
        23 => TokenType::Class,
        24 => TokenType::Else,
        25 => TokenType::False,
        26 => TokenType::For,
        27 => TokenType::Fun,
        28 => TokenType::If,
        29 => TokenType::Nil,
        30 => TokenType::Or,
        31 => TokenType::Print,
        32 => TokenType::Return,
        33 => TokenType::Super,
        34 => TokenType::This,
        35 => TokenType::True,
        36 => TokenType::Var,
        37 => TokenType::While,
        38 => TokenType::Error,
        _ => TokenType::EOF,
    }
}

/// The table of rules, one for each kind of token, at the index of the kind.
pub fn get_rules() -> (rules: Vec<ParseRule>)
    ensures
        rules_table(rules@),
{
    let mut rules: Vec<ParseRule> = Vec::new();
    let mut i: usize = 0;
    while i < 40
        invariant
            i <= 40,
            rules@.len() == i,
            forall|kind: TokenType|
                kind.spec_index() < i ==> #[trigger] rules@[kind.spec_index() as int] == rule_for(
                    kind,
                ),
        decreases 40 - i,
    {
        let kind = kind_at(i);
        let r = get_rule(kind);
        rules.push(r);
        proof {
            assert forall|k: TokenType| k.spec_index() < i + 1 implies #[trigger] rules@[k.spec_index() as int]
                == rule_for(k) by {
                if k.spec_index() == i {
                    assert(k == kind);
                }
            }
        }
        i += 1;
    }
    rules
}

} // verus!
