use vstd::prelude::*;

verus! {

/// The operator spellings that the lexer recognises. Whether an operator is
/// read as a prefix or as an infix operator is decided by the parser.
#[derive(Clone, Copy, PartialEq, Eq, Structural, Debug)]
pub enum Op {
    Not,
    Plus,
    Minus,
    Multiply,
    Divide,
    Modulo,
    Exponent,
    And,
    Or,
    Equal,
    NotEqual,
    LessThan,
    LessThanOrEqual,
    GreaterThan,
    GreaterThanOrEqual,
    Dot,
}

/// A numeric literal as written: the digits before the first point, and,
/// when there is a point, the characters after it (digits, and any further
/// points; possibly none). A literal without a point is an integer literal.
#[derive(Clone, Debug, PartialEq)]
pub struct Number {
    pub whole: u64,
    pub fraction: Option<String>,
}

/// What a `Number` holds, as plain values.
pub struct NumberModel {
    pub whole: u64,
    pub fraction: Option<Seq<char>>,
}

impl View for Number {
    type V = NumberModel;

    open spec fn view(&self) -> NumberModel {
        NumberModel {
            whole: self.whole,
            fraction: match self.fraction {
                Some(f) => Some(f@),
                None => None,
            },
        }
    }
}

impl Number {
    /// An integer literal.
    pub fn whole(n: u64) -> (r: Number)
        ensures
            r@ == (NumberModel { whole: n, fraction: None }),
    {
        Number { whole: n, fraction: None }
    }

    /// A copy of this literal.
    pub fn duplicate(&self) -> (r: Number)
        ensures
            r@ == self@,
    {
        let fraction = match &self.fraction {
            Some(f) => Some(f.clone()),
            None => None,
        };
        Number { whole: self.whole, fraction }
    }
}

/// A lexical token.
#[derive(Clone, Debug, PartialEq)]
pub enum Token {
    Bool(bool),
    Number(Number),
    Symbol(String),
    Op(Op),
    LeftParen,
    RightParen,
    Comma,
}

/// What a `Token` holds, as plain values.
pub enum TokenModel {
    Bool(bool),
    Number(NumberModel),
    Symbol(Seq<char>),
    Op(Op),
    LeftParen,
    RightParen,
    Comma,
}

impl View for Token {
    type V = TokenModel;

    open spec fn view(&self) -> TokenModel {
        match self {
            Token::Bool(b) => TokenModel::Bool(*b),
            Token::Number(n) => TokenModel::Number(n@),
            Token::Symbol(s) => TokenModel::Symbol(s@),
            Token::Op(op) => TokenModel::Op(*op),
            Token::LeftParen => TokenModel::LeftParen,
            Token::RightParen => TokenModel::RightParen,
            Token::Comma => TokenModel::Comma,
        }
    }
}

} // verus!
