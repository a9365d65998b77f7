use vstd::prelude::*;

use crate::error::{ErrorModel, MathlineError};
use crate::expression::{ExprModel, Expression, PrefixExpression, PrefixOp, ValueExpression};
use crate::token::{Number, NumberModel};

verus! {

/// A namespace. `math` is the only one.
#[derive(Clone, Copy, PartialEq, Eq, Structural, Debug)]
pub enum Module {
    Math,
}

/// A runtime value. Integers are computed exactly, in 64 bits. A boolean or
/// a 64-bit float is carried as the expression that computes it, in which
/// every operand is already known to have the right type; the host folds
/// it into a `bool` or an `f64`.
#[derive(Debug, PartialEq)]
pub enum Value {
    Bool(Box<Expression>),
    I64(i64),
    F64(Box<Expression>),
    Module(Module),
}

/// What a `Value` holds, as plain values.
pub enum ValueModel {
    Bool(ExprModel),
    I64(i64),
    F64(ExprModel),
    Module(Module),
}

impl View for Value {
    type V = ValueModel;

    open spec fn view(&self) -> ValueModel {
        match self {
            Value::Bool(e) => ValueModel::Bool(e@),
            Value::I64(n) => ValueModel::I64(*n),
            Value::F64(e) => ValueModel::F64(e@),
            Value::Module(m) => ValueModel::Module(*m),
        }
    }
}

/// The literal expression of an integer: a number, negated when below zero.
pub open spec fn int_expr(n: int) -> ExprModel {
    if n >= 0 {
        ExprModel::Number(NumberModel { whole: n as u64, fraction: None })
    } else {
        ExprModel::Prefix(
            PrefixOp::Minus,
            Box::new(ExprModel::Number(NumberModel { whole: (-n) as u64, fraction: None })),
        )
    }
}

/// The expression that stands for a value. A module has no literal: the
/// evaluator never converts one (`-math` fails with `CannotUseAsNumber`).
pub open spec fn value_expr(v: ValueModel) -> ExprModel {
    match v {
        ValueModel::Bool(e) => e,
        ValueModel::I64(n) => int_expr(n as int),
        ValueModel::F64(e) => e,
        ValueModel::Module(_) => ExprModel::Variable("math"@),
    }
}

/// A value used as a number: the float expression that it stands for.
pub open spec fn as_number(v: ValueModel) -> Result<ExprModel, ErrorModel> {
    match v {
        ValueModel::I64(n) => Ok(int_expr(n as int)),
        ValueModel::F64(e) => Ok(e),
        _ => Err(ErrorModel::CannotUseAsNumber),
    }
}

/// A value used as a boolean: the expression that computes it.
pub open spec fn as_boolean(v: ValueModel) -> Result<ExprModel, ErrorModel> {
    match v {
        ValueModel::Bool(e) => Ok(e),
        _ => Err(ErrorModel::CannotUseAsBool),
    }
}

pub open spec fn value_models(vs: Seq<Value>) -> Seq<ValueModel> {
    Seq::new(vs.len(), |k: int| vs[k]@)
}

/// The literal expression of an integer.
pub fn integer_expression(n: i64) -> (r: Expression)
    ensures
        r@ == int_expr(n as int),
{
    if n >= 0 {
        Expression::Value(ValueExpression::Number(Number::whole(n as u64)))
    } else {
        let magnitude: u64 = if n == i64::MIN {
            9223372036854775808
        } else {
            (-n) as u64
        };
        assert(magnitude as int == -(n as int));
        let rhs = Expression::Value(ValueExpression::Number(Number::whole(magnitude)));
        assert(rhs@ == ExprModel::Number(NumberModel { whole: (-(n as int)) as u64, fraction: None }));
        Expression::Prefix(PrefixExpression { op: PrefixOp::Minus, rhs: Box::new(rhs) })
    }
}

impl Value {
    /// The expression that stands for this value. A module has none.
    pub fn into_expression(self) -> (r: Expression)
        requires
            !(self@ is Module),
        ensures
            r@ == value_expr(self@),
    {
        match self {
            Value::Bool(e) => *e,
            Value::I64(n) => integer_expression(n),
            Value::F64(e) => *e,
            Value::Module(_) => {
                assert(false);
                Expression::Value(ValueExpression::Bool(false))
            },
        }
    }

    /// This value as a boolean: the expression that computes it.
    pub fn as_bool(self) -> (r: Result<Expression, MathlineError>)
        ensures
            match as_boolean(self@) {
                Ok(e) => r is Ok && r->Ok_0@ == e,
                Err(e) => r is Err && r->Err_0@ == e,
            },
    {
        match self {
            Value::Bool(e) => Ok(*e),
            _ => Err(MathlineError::CannotUseAsBool),
        }
    }

    /// This value as a float: the expression that computes it.
    pub fn as_f64(self) -> (r: Result<Expression, MathlineError>)
        ensures
            match as_number(self@) {
                Ok(e) => r is Ok && r->Ok_0@ == e,
                Err(e) => r is Err && r->Err_0@ == e,
            },
    {
        match self {
            Value::I64(n) => Ok(integer_expression(n)),
            Value::F64(e) => Ok(*e),
            _ => Err(MathlineError::CannotUseAsNumber),
        }
    }
}

} // verus!
