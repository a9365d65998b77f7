use vstd::prelude::*;

use crate::expression::{ExprModel, Expression};

verus! {

/// Every way in which lexing, parsing or evaluation can fail.
#[derive(Debug, PartialEq)]
pub enum MathlineError {
    InvalidChar(char),
    InvalidSyntax,
    InvalidEOF,
    InvalidExpression(Box<Expression>),
    UnknownVariable(String),
    InvalidFnParameterLength { name: String, len: usize },
    CannotUseAsNumber,
    CannotUseAsBool,
    CannotUseAsModule,
    FunctionIsNotSupported(String),
}

/// What a `MathlineError` holds, as plain values.
pub enum ErrorModel {
    InvalidChar(char),
    InvalidSyntax,
    InvalidEOF,
    InvalidExpression(ExprModel),
    UnknownVariable(Seq<char>),
    InvalidFnParameterLength(Seq<char>, nat),
    CannotUseAsNumber,
    CannotUseAsBool,
    CannotUseAsModule,
    FunctionIsNotSupported(Seq<char>),
}

impl View for MathlineError {
    type V = ErrorModel;

    open spec fn view(&self) -> ErrorModel {
        match self {
            MathlineError::InvalidChar(c) => ErrorModel::InvalidChar(*c),
            MathlineError::InvalidSyntax => ErrorModel::InvalidSyntax,
            MathlineError::InvalidEOF => ErrorModel::InvalidEOF,
            MathlineError::InvalidExpression(e) => ErrorModel::InvalidExpression(e@),
            MathlineError::UnknownVariable(v) => ErrorModel::UnknownVariable(v@),
            MathlineError::InvalidFnParameterLength { name, len } => ErrorModel::InvalidFnParameterLength(
                name@,
                *len as nat,
            ),
            MathlineError::CannotUseAsNumber => ErrorModel::CannotUseAsNumber,
            MathlineError::CannotUseAsBool => ErrorModel::CannotUseAsBool,
            MathlineError::CannotUseAsModule => ErrorModel::CannotUseAsModule,
            MathlineError::FunctionIsNotSupported(f) => ErrorModel::FunctionIsNotSupported(f@),
        }
    }
}

} // verus!
