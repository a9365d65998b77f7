use vstd::prelude::*;

use crate::error::{ErrorModel, MathlineError};
use crate::expression::{
    infix_op_of, infix_precedence, prefix_op_of, prefix_precedence, ExprModel, Expression,
    FnExpression, lemma_call_model, models, InfixExpression, InfixOp, PrefixExpression, PrefixOp, ValueExpression,
};
use crate::lexer::{is_space, lex, lex_from, scan, Lexer};
use crate::token::{Token, TokenModel};

verus! {

/// The tokens of a text, and the error that ends them, if any.
pub type Stream = (Seq<TokenModel>, Option<ErrorModel>);

/// The token at position `i`: `None` past the end, the lexing error past the
/// last token when lexing failed.
pub open spec fn token_at(st: Stream, i: int) -> Result<Option<TokenModel>, ErrorModel> {
    if 0 <= i < st.0.len() {
        Ok(Some(st.0[i]))
    } else {
        match st.1 {
            Some(e) => Err(e),
            None => Ok(None),
        }
    }
}

/// The operand that starts at position `i`, which holds a token: a
/// literal, a variable, a call, a parenthesised expression or a prefix
/// operator with its operand; and the position after it.
pub open spec fn primary_at(st: Stream, i: int) -> Result<(ExprModel, int), ErrorModel>
    decreases st.0.len() - i, 0int,
{
    if i < 0 || i >= st.0.len() {
        Err(ErrorModel::InvalidEOF)
    } else {
        match st.0[i] {
            TokenModel::Symbol(name) => match token_at(st, i + 1) {
                Err(e) => Err(e),
                Ok(Some(TokenModel::LeftParen)) => match token_at(st, i + 2) {
                    Err(e) => Err(e),
                    Ok(Some(TokenModel::RightParen)) => Ok((ExprModel::Call(name, seq![]), i + 3)),
                    _ => parse_args_at(st, i + 2, name, seq![]),
                },
                _ => Ok((ExprModel::Variable(name), i + 1)),
            },
            TokenModel::Bool(b) => Ok((ExprModel::Bool(b), i + 1)),
            TokenModel::Number(n) => Ok((ExprModel::Number(n), i + 1)),
            TokenModel::LeftParen => match parse_expr_at(st, i + 1, 0) {
                Ok((e, j)) => match token_at(st, j) {
                    Err(err) => Err(err),
                    Ok(Some(TokenModel::RightParen)) => Ok((e, j + 1)),
                    Ok(None) => Err(ErrorModel::InvalidEOF),
                    _ => Err(ErrorModel::InvalidSyntax),
                },
                Err(err) => Err(err),
            },
            TokenModel::Op(op) => match prefix_op_of(op) {
                Some(p) => match parse_expr_at(st, i + 1, prefix_precedence(p)) {
                    Ok((e, j)) => Ok((ExprModel::Prefix(p, Box::new(e)), j)),
                    Err(err) => Err(err),
                },
                None => Err(ErrorModel::InvalidSyntax),
            },
            _ => Err(ErrorModel::InvalidSyntax),
        }
    }
}

/// One expression read from position `i`, taking only infix operators whose
/// left binding strength is at least `min`, and the position after it.
pub open spec fn parse_expr_at(st: Stream, i: int, min: u8) -> Result<(ExprModel, int), ErrorModel>
    decreases st.0.len() - i, 1int,
{
    if i < 0 || i >= st.0.len() {
        match st.1 {
            Some(e) => Err(e),
            None => Err(ErrorModel::InvalidEOF),
        }
    } else {
        match primary_at(st, i) {
            Ok((lhs, j)) => if i < j <= st.0.len() {
                parse_infix_at(st, lhs, j, min)
            } else {
                Err(ErrorModel::InvalidSyntax)
            },
            Err(e) => Err(e),
        }
    }
}

/// Folds infix operators into `lhs`, from position `i` on, while their left
/// binding strength is at least `min`.
pub open spec fn parse_infix_at(st: Stream, lhs: ExprModel, i: int, min: u8) -> Result<
    (ExprModel, int),
    ErrorModel,
>
    decreases st.0.len() - i, 1int,
{
    match token_at(st, i) {
        Err(e) => Err(e),
        Ok(Some(TokenModel::Op(op))) => match infix_op_of(op) {
            None => Err(ErrorModel::InvalidSyntax),
            Some(io) => if infix_precedence(io).0 < min {
                Ok((lhs, i))
            } else {
                match parse_expr_at(st, i + 1, infix_precedence(io).1) {
                    Ok((rhs, j)) => if i < j <= st.0.len() {
                        parse_infix_at(st, ExprModel::Infix(io, Box::new(lhs), Box::new(rhs)), j, min)
                    } else {
                        Err(ErrorModel::InvalidSyntax)
                    },
                    Err(e) => Err(e),
                }
            },
        },
        _ => Ok((lhs, i)),
    }
}

/// The arguments of a call from position `i` on, after those in `done`, up
/// to and including the closing parenthesis.
pub open spec fn parse_args_at(st: Stream, i: int, name: Seq<char>, done: Seq<ExprModel>) -> Result<
    (ExprModel, int),
    ErrorModel,
>
    decreases st.0.len() - i, 2int,
{
    if i < 0 || i > st.0.len() {
        Err(ErrorModel::InvalidSyntax)
    } else {
        match parse_expr_at(st, i, 0) {
            Ok((arg, j)) => match token_at(st, j) {
                Err(e) => Err(e),
                Ok(None) => Err(ErrorModel::InvalidEOF),
                Ok(Some(TokenModel::RightParen)) => Ok((ExprModel::Call(name, done.push(arg)), j + 1)),
                Ok(Some(TokenModel::Comma)) => if i < j < st.0.len() {
                    parse_args_at(st, j + 1, name, done.push(arg))
                } else {
                    Err(ErrorModel::InvalidSyntax)
                },
                _ => Err(ErrorModel::InvalidSyntax),
            },
            Err(e) => Err(e),
        }
    }
}

/// The next top-level expression from position `i` on, if any token is left.
pub open spec fn next_expr_at(st: Stream, i: int) -> Result<Option<(ExprModel, int)>, ErrorModel> {
    match token_at(st, i) {
        Err(e) => Err(e),
        Ok(None) => Ok(None),
        Ok(Some(_)) => match parse_expr_at(st, i, 0) {
            Ok((e, j)) => Ok(Some((e, j))),
            Err(e) => Err(e),
        },
    }
}

/// All top-level expressions from position `i` on, or the first error.
pub open spec fn parse_all_at(st: Stream, i: int) -> Result<Seq<ExprModel>, ErrorModel>
    decreases st.0.len() - i,
{
    match next_expr_at(st, i) {
        Err(e) => Err(e),
        Ok(None) => Ok(seq![]),
        Ok(Some((e, j))) => if i < j <= st.0.len() {
            match parse_all_at(st, j) {
                Ok(es) => Ok(seq![e] + es),
                Err(err) => Err(err),
            }
        } else {
            Err(ErrorModel::InvalidSyntax)
        },
    }
}

/// The expressions of a text, one after another, or the first error.
pub open spec fn parse_text(s: Seq<char>) -> Result<Seq<ExprModel>, ErrorModel> {
    parse_all_at(lex(s), 0)
}

/// Whether a lexing error is one that the lexer can report.
pub open spec fn is_lex_error(e: ErrorModel) -> bool {
    e is InvalidChar || e is InvalidSyntax
}

pub open spec fn token_models(ts: Seq<Token>) -> Seq<TokenModel> {
    Seq::new(ts.len(), |k: int| ts[k]@)
}

pub proof fn lemma_lex_errors(s: Seq<char>, i: int)
    ensures
        lex_from(s, i).1 is Some ==> is_lex_error(lex_from(s, i).1->Some_0),
    decreases s.len() - i,
{
    if 0 <= i < s.len() {
        if is_space(s[i]) {
            lemma_lex_errors(s, i + 1);
        } else {
            match scan(s, i) {
                Ok((ts, j)) => if i < j <= s.len() {
                    lemma_lex_errors(s, j);
                },
                Err(e) => {},
            }
        }
    }
}

/// Reads the expressions of a text one at a time, one token ahead.
pub struct Parser {
    tokens: Vec<Token>,
    error: Option<MathlineError>,
    pos: usize,
}

impl Parser {
    pub closed spec fn wf(&self) -> bool {
        &&& self.pos <= self.tokens.len()
        &&& self.error is Some ==> is_lex_error(self.error->Some_0@)
    }

    /// The tokens of the text, and the lexing error after them, if any.
    pub closed spec fn stream(&self) -> Stream {
        (
            token_models(self.tokens@),
            match self.error {
                Some(e) => Some(e@),
                None => None,
            },
        )
    }

    /// How many tokens have been read.
    pub closed spec fn position(&self) -> int {
        self.pos as int
    }

    /// A parser over the whole input.
    pub fn new(input: &str) -> (r: Parser)
        ensures
            r.wf(),
            r.stream() == lex(input@),
            r.position() == 0,
    {
        let ghost all = lex(input@);
        let mut lexer = Lexer::new(input);
        let mut tokens: Vec<Token> = Vec::new();
        let mut error: Option<MathlineError> = None;
        let mut done = false;
        proof {
            lemma_lex_errors(input@, 0);
        }
        while !done
            invariant
                lexer.wf(),
                !done ==> token_models(tokens@) + lexer.remaining().0 == all.0,
                !done ==> lexer.remaining().1 == all.1,
                !done ==> error is None,
                done ==> token_models(tokens@) == all.0,
                done ==> all.1 == match error {
                    Some(e) => Some(e@),
                    None => None::<ErrorModel>,
                },
                all.1 is Some ==> is_lex_error(all.1->Some_0),
            decreases if done { 0 } else { lexer.remaining().0.len() + 1 },
        {
            let ghost before = lexer.remaining();
            match lexer.next() {
                Ok(Some(t)) => {
                    proof {
                        assert(token_models(tokens@.push(t)) =~= token_models(tokens@).push(t@));
                        assert(before.0 =~= seq![t@] + before.0.drop_first());
                    }
                    tokens.push(t);
                },
                Ok(None) => {
                    assert(token_models(tokens@) + before.0 =~= token_models(tokens@));
                    done = true;
                },
                Err(e) => {
                    assert(token_models(tokens@) + before.0 =~= token_models(tokens@));
                    error = Some(e);
                    done = true;
                },
            }
        }
        Parser { tokens, error, pos: 0 }
    }

    fn lex_error(&self) -> (r: MathlineError)
        requires
            self.wf(),
            self.error is Some,
        ensures
            r@ == self.error->Some_0@,
    {
        match &self.error {
            Some(MathlineError::InvalidChar(c)) => MathlineError::InvalidChar(*c),
            _ => MathlineError::InvalidSyntax,
        }
    }

    fn peek(&self, i: usize) -> (r: Result<Option<&Token>, MathlineError>)
        requires
            self.wf(),
        ensures
            match token_at(self.stream(), i as int) {
                Ok(Some(t)) => r is Ok && r->Ok_0 is Some && r->Ok_0->Some_0@ == t,
                Ok(None) => r is Ok && r->Ok_0 is None,
                Err(e) => r is Err && r->Err_0@ == e,
            },
    {
        if i < self.tokens.len() {
            Ok(Some(&self.tokens[i]))
        } else if self.error.is_some() {
            Err(self.lex_error())
        } else {
            Ok(None)
        }
    }

    /// The next top-level expression, or `None` when no token is left.
    pub fn next(&mut self) -> (r: Result<Option<Expression>, MathlineError>)
        requires
            old(self).wf(),
        ensures
            final(self).wf(),
            final(self).stream() == old(self).stream(),
            match next_expr_at(old(self).stream(), old(self).position()) {
                Ok(Some((e, j))) => {
                    &&& r is Ok && r->Ok_0 is Some && r->Ok_0->Some_0@ == e
                    &&& final(self).position() == j
                    &&& old(self).position() < j <= old(self).stream().0.len()
                },
                Ok(None) => r is Ok && r->Ok_0 is None && final(self).position() == old(self).position(),
                Err(e) => r is Err && r->Err_0@ == e,
            },
    {
        match self.peek(self.pos) {
            Err(e) => return Err(e),
            Ok(None) => return Ok(None),
            Ok(Some(_)) => {},
        }
        match self.parse_expr(0) {
            Ok(e) => Ok(Some(e)),
            Err(e) => Err(e),
        }
    }

    /// One expression, taking only infix operators whose left binding
    /// strength is at least `min`.
    fn parse_expr(&mut self, min: u8) -> (r: Result<Expression, MathlineError>)
        requires
            old(self).wf(),
        ensures
            final(self).wf(),
            final(self).stream() == old(self).stream(),
            match parse_expr_at(old(self).stream(), old(self).position(), min) {
                Ok((e, j)) => {
                    &&& r is Ok && r->Ok_0@ == e
                    &&& final(self).position() == j
                    &&& old(self).position() < j <= old(self).stream().0.len()
                },
                Err(e) => r is Err && r->Err_0@ == e,
            },
        decreases self.tokens.len() - self.pos, 1int,
    {
        let ghost st = self.stream();
        let i = self.pos;
        let n = self.tokens.len();
        if i >= n {
            if self.error.is_some() {
                return Err(self.lex_error());
            }
            return Err(MathlineError::InvalidEOF);
        }
        let lhs = if let Token::Symbol(name) = &self.tokens[i] {
            let name = name.clone();
            let is_call = match self.peek(i + 1) {
                Err(e) => return Err(e),
                Ok(Some(Token::LeftParen)) => true,
                _ => false,
            };
            if is_call {
                let closes = match self.peek(i + 2) {
                    Err(e) => return Err(e),
                    Ok(Some(Token::RightParen)) => true,
                    _ => false,
                };
                if closes {
                    self.pos = i + 3;
                    let parameters: Vec<Expression> = Vec::new();
                    assert(models(parameters@) =~= Seq::<ExprModel>::empty());
                    let e = Expression::Fn(FnExpression { name, parameters });
                    proof {
                        lemma_call_model(e->Fn_0);
                    }
                    assert(primary_at(st, i as int) == Ok::<(ExprModel, int), ErrorModel>((e@, self.pos as int)));
                    e
                } else {
                    self.pos = i + 2;
                    let e = match self.parse_args(name) {
                        Ok(e) => e,
                        Err(e) => return Err(e),
                    };
                    assert(primary_at(st, i as int) == Ok::<(ExprModel, int), ErrorModel>((e@, self.pos as int)));
                    e
                }
            } else {
                self.pos = i + 1;
                let e = Expression::Value(ValueExpression::Variable(name));
                assert(primary_at(st, i as int) == Ok::<(ExprModel, int), ErrorModel>((e@, self.pos as int)));
                e
            }
        } else if let Token::Bool(b) = &self.tokens[i] {
            let b = *b;
            self.pos = i + 1;
            let e = Expression::Value(ValueExpression::Bool(b));
            assert(primary_at(st, i as int) == Ok::<(ExprModel, int), ErrorModel>((e@, self.pos as int)));
            e
        } else if let Token::Number(num) = &self.tokens[i] {
            let num = num.duplicate();
            self.pos = i + 1;
            let e = Expression::Value(ValueExpression::Number(num));
            assert(primary_at(st, i as int) == Ok::<(ExprModel, int), ErrorModel>((e@, self.pos as int)));
            e
        } else if let Token::LeftParen = &self.tokens[i] {
            self.pos = i + 1;
            let inner = match self.parse_expr(0) {
                Ok(e) => e,
                Err(e) => return Err(e),
            };
            let closes = match self.peek(self.pos) {
                Err(e) => return Err(e),
                Ok(None) => return Err(MathlineError::InvalidEOF),
                Ok(Some(Token::RightParen)) => true,
                _ => false,
            };
            if !closes {
                return Err(MathlineError::InvalidSyntax);
            }
            self.pos = self.pos + 1;
            assert(primary_at(st, i as int) == Ok::<(ExprModel, int), ErrorModel>((inner@, self.pos as int)));
            inner
        } else if let Token::Op(op) = &self.tokens[i] {
            let op = *op;
            let prefix = match PrefixOp::try_from(op) {
                Ok(p) => p,
                Err(e) => return Err(e),
            };
            self.pos = i + 1;
            let rhs = match self.parse_expr(prefix.precedence()) {
                Ok(e) => e,
                Err(e) => return Err(e),
            };
            let e = Expression::Prefix(PrefixExpression { op: prefix, rhs: Box::new(rhs) });
            assert(primary_at(st, i as int) == Ok::<(ExprModel, int), ErrorModel>((e@, self.pos as int)));
            e
        } else {
            return Err(MathlineError::InvalidSyntax);
        };
        let mut lhs = lhs;
        assert(primary_at(st, i as int) == Ok::<(ExprModel, int), ErrorModel>((lhs@, self.pos as int)));
        assert(parse_expr_at(st, i as int, min) == parse_infix_at(st, lhs@, self.pos as int, min));
        loop
            invariant
                self.wf(),
                self.stream() == st,
                st == old(self).stream(),
                i == old(self).position(),
                i < self.pos <= n,
                n == self.tokens.len(),
                parse_expr_at(st, i as int, min) == parse_infix_at(st, lhs@, self.pos as int, min),
            decreases n - self.pos,
        {
            let op = match self.peek(self.pos) {
                Err(e) => return Err(e),
                Ok(Some(Token::Op(op))) => *op,
                _ => return Ok(lhs),
            };
            let infix = match InfixOp::try_from(op) {
                Ok(o) => o,
                Err(e) => return Err(e),
            };
            let (left, right) = infix.precedence();
            if left < min {
                return Ok(lhs);
            }
            self.pos = self.pos + 1;
            let rhs = match self.parse_expr(right) {
                Ok(e) => e,
                Err(e) => return Err(e),
            };
            lhs = Expression::Infix(InfixExpression { op: infix, lhs: Box::new(lhs), rhs: Box::new(rhs) });
        }
    }

    /// The arguments of a call, after its opening parenthesis, up to and
    /// including the closing one.
    fn parse_args(&mut self, name: String) -> (r: Result<Expression, MathlineError>)
        requires
            old(self).wf(),
        ensures
            final(self).wf(),
            final(self).stream() == old(self).stream(),
            match parse_args_at(old(self).stream(), old(self).position(), name@, seq![]) {
                Ok((e, j)) => {
                    &&& r is Ok && r->Ok_0@ == e
                    &&& final(self).position() == j
                    &&& old(self).position() < j <= old(self).stream().0.len()
                },
                Err(e) => r is Err && r->Err_0@ == e,
            },
        decreases self.tokens.len() - self.pos, 2int,
    {
        let ghost st = self.stream();
        let ghost start = self.pos as int;
        let n = self.tokens.len();
        let mut parameters: Vec<Expression> = Vec::new();
        assert(models(parameters@) =~= Seq::<ExprModel>::empty());
        loop
            invariant
                self.wf(),
                self.stream() == st,
                st == old(self).stream(),
                start == old(self).position(),
                start <= self.pos <= n,
                n == self.tokens.len(),
                n == st.0.len(),
                parse_args_at(st, start, name@, seq![]) == parse_args_at(
                    st,
                    self.pos as int,
                    name@,
                    models(parameters@),
                ),
            decreases n - self.pos,
        {
            let ghost done = models(parameters@);
            let ghost at = self.pos as int;
            let parameter = match self.parse_expr(0) {
                Ok(e) => e,
                Err(e) => return Err(e),
            };
            let ghost arg = parameter@;
            parameters.push(parameter);
            assert(models(parameters@) =~= done.push(arg));
            let j = self.pos;
            let kind: u8 = match self.peek(j) {
                Err(e) => return Err(e),
                Ok(None) => return Err(MathlineError::InvalidEOF),
                Ok(Some(Token::RightParen)) => 0,
                Ok(Some(Token::Comma)) => 1,
                _ => return Err(MathlineError::InvalidSyntax),
            };
            self.pos = j + 1;
            if kind == 0 {
                let e = Expression::Fn(FnExpression { name, parameters });
                proof {
                    lemma_call_model(e->Fn_0);
                    assert(models(e->Fn_0.parameters@) =~= done.push(arg));
                }
                return Ok(e);
            }
        }
    }
}

/// The expressions of a text, one after another, or the first error.
pub fn parse(input: &str) -> (r: Result<Vec<Expression>, MathlineError>)
    ensures
        match parse_text(input@) {
            Ok(es) => r is Ok && models(r->Ok_0@) == es,
            Err(e) => r is Err && r->Err_0@ == e,
        },
{
    let mut parser = Parser::new(input);
    let ghost st = parser.stream();
    let mut found: Vec<Expression> = Vec::new();
    assert(models(found@) + parse_all_at(st, 0)->Ok_0 =~= parse_all_at(st, 0)->Ok_0);
    loop
        invariant
            parser.wf(),
            parser.stream() == st,
            st == lex(input@),
            0 <= parser.position() <= st.0.len(),
            parse_all_at(st, 0) == match parse_all_at(st, parser.position()) {
                Ok(es) => Ok(models(found@) + es),
                Err(e) => Err(e),
            },
        decreases st.0.len() - parser.position(),
    {
        let ghost at = parser.position();
        match parser.next() {
            Ok(Some(e)) => {
                let ghost em = e@;
                let ghost before = models(found@);
                found.push(e);
                proof {
                    assert(models(found@) =~= before.push(em));
                    match parse_all_at(st, parser.position()) {
                        Ok(es) => {
                            assert(before + (seq![em] + es) =~= before.push(em) + es);
                        },
                        Err(_) => {},
                    }
                }
            },
            Ok(None) => {
                assert(models(found@) + seq![] =~= models(found@));
                return Ok(found);
            },
            Err(e) => return Err(e),
        }
    }
}

} // verus!
