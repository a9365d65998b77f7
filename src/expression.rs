use vstd::prelude::*;

use crate::error::MathlineError;
use crate::token::{Number, NumberModel, Op};

verus! {

broadcast use vstd::std_specs::vec::axiom_vec_index_decreases;

/// An expression tree. Each node owns its children.
#[derive(Debug, PartialEq)]
pub enum Expression {
    Value(ValueExpression),
    Fn(FnExpression),
    Infix(InfixExpression),
    Prefix(PrefixExpression),
}

/// A leaf: a literal, or a name that is resolved when the tree is evaluated.
#[derive(Debug, PartialEq)]
pub enum ValueExpression {
    Bool(bool),
    Number(Number),
    Variable(String),
}

/// A call of a named function on zero or more arguments.
#[derive(Debug, PartialEq)]
pub struct FnExpression {
    pub name: String,
    pub parameters: Vec<Expression>,
}

/// A prefix operator applied to one operand.
#[derive(Debug, PartialEq)]
pub struct PrefixExpression {
    pub op: PrefixOp,
    pub rhs: Box<Expression>,
}

#[derive(Clone, Copy, PartialEq, Eq, Structural, Debug)]
pub enum PrefixOp {
    Not,
    Plus,
    Minus,
}

/// An infix operator applied to two operands.
#[derive(Debug, PartialEq)]
pub struct InfixExpression {
    pub op: InfixOp,
    pub lhs: Box<Expression>,
    pub rhs: Box<Expression>,
}

#[derive(Clone, Copy, PartialEq, Eq, Structural, Debug)]
pub enum InfixOp {
    Add,
    Subtract,
    Multiply,
    Divide,
    Modulo,
    Exponent,
    And,
    Or,
    Equal,
    NotEqual,
    LessThan,
    LessThanOrEqual,
    GreaterThan,
    GreaterThanOrEqual,
    Dot,
}

/// The mathematical model of an expression tree.
pub enum ExprModel {
    Bool(bool),
    Number(NumberModel),
    Variable(Seq<char>),
    Call(Seq<char>, Seq<ExprModel>),
    Prefix(PrefixOp, Box<ExprModel>),
    Infix(InfixOp, Box<ExprModel>, Box<ExprModel>),
}

impl Expression {
    /// The model of this tree.
    pub open spec fn model(&self) -> ExprModel
        decreases self,
    {
        match self {
            Expression::Value(ValueExpression::Bool(b)) => ExprModel::Bool(*b),
            Expression::Value(ValueExpression::Number(n)) => ExprModel::Number(n@),
            Expression::Value(ValueExpression::Variable(v)) => ExprModel::Variable(v@),
            Expression::Fn(f) => ExprModel::Call(
                f.name@,
                Seq::new(
                    f.parameters.len() as nat,
                    |i: int|
                        if 0 <= i < f.parameters.len() {
                            f.parameters[i].model()
                        } else {
                            ExprModel::Bool(false)
                        },
                ),
            ),
            Expression::Infix(e) => ExprModel::Infix(e.op, Box::new(e.lhs.model()), Box::new(e.rhs.model())),
            Expression::Prefix(e) => ExprModel::Prefix(e.op, Box::new(e.rhs.model())),
        }
    }
}

impl View for Expression {
    type V = ExprModel;

    open spec fn view(&self) -> ExprModel {
        self.model()
    }
}

/// The models of a sequence of expressions, one for one.
pub open spec fn models(es: Seq<Expression>) -> Seq<ExprModel> {
    Seq::new(es.len(), |i: int| es[i]@)
}

/// The model of a call: its name and the models of its arguments.
pub proof fn lemma_call_model(f: FnExpression)
    ensures
        Expression::Fn(f)@ == ExprModel::Call(f.name@, models(f.parameters@)),
{
    let e = Expression::Fn(f);
    assert(e@->Call_1 =~= models(f.parameters@));
}

pub open spec fn prefix_op_of(op: Op) -> Option<PrefixOp> {
    match op {
        Op::Not => Some(PrefixOp::Not),
        Op::Plus => Some(PrefixOp::Plus),
        Op::Minus => Some(PrefixOp::Minus),
        _ => None,
    }
}

pub open spec fn infix_op_of(op: Op) -> Option<InfixOp> {
    match op {
        Op::Plus => Some(InfixOp::Add),
        Op::Minus => Some(InfixOp::Subtract),
        Op::Multiply => Some(InfixOp::Multiply),
        Op::Divide => Some(InfixOp::Divide),
        Op::Modulo => Some(InfixOp::Modulo),
        Op::Exponent => Some(InfixOp::Exponent),
        Op::And => Some(InfixOp::And),
        Op::Or => Some(InfixOp::Or),
        Op::Equal => Some(InfixOp::Equal),
        Op::NotEqual => Some(InfixOp::NotEqual),
        Op::LessThan => Some(InfixOp::LessThan),
        Op::LessThanOrEqual => Some(InfixOp::LessThanOrEqual),
        Op::GreaterThan => Some(InfixOp::GreaterThan),
        Op::GreaterThanOrEqual => Some(InfixOp::GreaterThanOrEqual),
        Op::Dot => Some(InfixOp::Dot),
        Op::Not => None,
    }
}

/// Binding strength of a prefix operator: its operand is parsed at it.
/// `not` binds tighter than `* / %` and looser than unary `+` and `-`,
/// which bind looser than `^` and `.`.
pub open spec fn prefix_precedence(op: PrefixOp) -> u8 {
    match op {
        PrefixOp::Not => 15,
        PrefixOp::Plus | PrefixOp::Minus => 17,
    }
}

/// Left and right binding strengths of an infix operator, tier by tier from
/// `or` up to `.`. Exponent and member access bind tighter on the left than
/// on the right, which makes them group to the right; the right strength of
/// `^` is still above every lower tier, so `2 ^ 3 * 4` is `(2 ^ 3) * 4`.
pub open spec fn infix_precedence(op: InfixOp) -> (u8, u8) {
    match op {
        InfixOp::Or => (1, 2),
        InfixOp::And => (3, 4),
        InfixOp::Equal | InfixOp::NotEqual | InfixOp::LessThan | InfixOp::LessThanOrEqual
        | InfixOp::GreaterThan | InfixOp::GreaterThanOrEqual => (7, 8),
        InfixOp::Add | InfixOp::Subtract => (11, 12),
        InfixOp::Multiply | InfixOp::Divide | InfixOp::Modulo => (13, 14),
        InfixOp::Exponent => (20, 19),
        InfixOp::Dot => (22, 21),
    }
}

impl PrefixOp {
    /// The prefix reading of an operator; only `not`, `+` and `-` have one.
    pub fn try_from(op: Op) -> (r: Result<PrefixOp, MathlineError>)
        ensures
            match prefix_op_of(op) {
                Some(p) => r == Ok::<PrefixOp, MathlineError>(p),
                None => r is Err && r->Err_0 is InvalidSyntax,
            },
    {
        match op {
            Op::Not => Ok(PrefixOp::Not),
            Op::Plus => Ok(PrefixOp::Plus),
            Op::Minus => Ok(PrefixOp::Minus),
            _ => Err(MathlineError::InvalidSyntax),
        }
    }

    pub fn precedence(&self) -> (r: u8)
        ensures
            r == prefix_precedence(*self),
    {
        match self {
            PrefixOp::Not => 15,
            PrefixOp::Plus | PrefixOp::Minus => 17,
        }
    }
}

impl InfixOp {
    /// The infix reading of an operator; every operator but `not` has one.
    pub fn try_from(op: Op) -> (r: Result<InfixOp, MathlineError>)
        ensures
            match infix_op_of(op) {
                Some(i) => r == Ok::<InfixOp, MathlineError>(i),
                None => r is Err && r->Err_0 is InvalidSyntax,
            },
    {
        match op {
            Op::Plus => Ok(InfixOp::Add),
            Op::Minus => Ok(InfixOp::Subtract),
            Op::Multiply => Ok(InfixOp::Multiply),
            Op::Divide => Ok(InfixOp::Divide),
            Op::Modulo => Ok(InfixOp::Modulo),
            Op::Exponent => Ok(InfixOp::Exponent),
            Op::And => Ok(InfixOp::And),
            Op::Or => Ok(InfixOp::Or),
            Op::Equal => Ok(InfixOp::Equal),
            Op::NotEqual => Ok(InfixOp::NotEqual),
            Op::LessThan => Ok(InfixOp::LessThan),
            Op::LessThanOrEqual => Ok(InfixOp::LessThanOrEqual),
            Op::GreaterThan => Ok(InfixOp::GreaterThan),
            Op::GreaterThanOrEqual => Ok(InfixOp::GreaterThanOrEqual),
            Op::Dot => Ok(InfixOp::Dot),
            Op::Not => Err(MathlineError::InvalidSyntax),
        }
    }

    pub fn precedence(&self) -> (r: (u8, u8))
        ensures
            r == infix_precedence(*self),
    {
        match self {
            InfixOp::Or => (1, 2),
            InfixOp::And => (3, 4),
            InfixOp::Equal | InfixOp::NotEqual | InfixOp::LessThan | InfixOp::LessThanOrEqual
            | InfixOp::GreaterThan | InfixOp::GreaterThanOrEqual => (7, 8),
            InfixOp::Add | InfixOp::Subtract => (11, 12),
            InfixOp::Multiply | InfixOp::Divide | InfixOp::Modulo => (13, 14),
            InfixOp::Exponent => (20, 19),
            InfixOp::Dot => (22, 21),
        }
    }
}

} // verus!
