//! The failures that evaluation can report.

use crate::parser::DyadicVerb;
use crate::parser::MonadicVerb;
use vstd::prelude::*;

verus! {

/// The dynamic type of a value.
#[derive(PartialEq, Eq, Debug, Clone, Copy, Structural)]
pub enum ValueKind {
    Integer,
    Double,
    Matrix,
    Function,
}

/// The operator that an operand was handed to.
#[derive(PartialEq, Eq, Debug, Clone, Copy, Structural)]
pub enum Operator {
    Monadic(MonadicVerb),
    Dyadic(DyadicVerb),
}

/// Every way in which an operation of the engine or the evaluator can fail.
#[derive(PartialEq, Eq, Debug)]
#[allow(inconsistent_fields)]
pub enum LalaError {
    /// An identifier was read that the environment does not bind.
    UndefinedVariable(String),
    /// A name was applied that the environment does not bind to a function.
    UndefinedFunction(String),
    /// An operator was handed a value of the wrong dynamic type.
    TypeMismatch { expected: ValueKind, op: Operator },
    /// The shapes of the operands do not fit the operation.
    DimensionMismatch,
    /// The operation needs a square matrix.
    NotSquare,
    /// The matrix has a determinant of zero and so no inverse.
    SingularMatrix,
    /// A function was applied to the wrong number of arguments.
    ArityMismatch { expected: usize, found: usize },
    /// A matrix literal holds a cell that is not a number literal.
    InvalidMatrixCell,
    /// A function body holds a statement other than an assignment or a
    /// function declaration before its last statement.
    InvalidFunctionBody,
    /// A function body does not end in a bare identifier.
    InvalidReturnStatement,
    /// The syntax tree has a shape that no program text gives.
    ParseFailure,
    /// Function applications are nested more deeply than the evaluator allows.
    CallDepthExceeded,
}

/// What a `LalaError` says, with names as character sequences.
#[allow(inconsistent_fields)]
pub enum ErrorModel {
    UndefinedVariable(Seq<char>),
    UndefinedFunction(Seq<char>),
    TypeMismatch { expected: ValueKind, op: Operator },
    DimensionMismatch,
    NotSquare,
    SingularMatrix,
    ArityMismatch { expected: nat, found: nat },
    InvalidMatrixCell,
    InvalidFunctionBody,
    InvalidReturnStatement,
    ParseFailure,
    CallDepthExceeded,
}

impl View for LalaError {
    type V = ErrorModel;

    open spec fn view(&self) -> ErrorModel {
        match self {
            LalaError::UndefinedVariable(name) => ErrorModel::UndefinedVariable(name@),
            LalaError::UndefinedFunction(name) => ErrorModel::UndefinedFunction(name@),
            LalaError::TypeMismatch { expected, op } => ErrorModel::TypeMismatch {
                expected: *expected,
                op: *op,
            },
            LalaError::DimensionMismatch => ErrorModel::DimensionMismatch,
            LalaError::NotSquare => ErrorModel::NotSquare,
            LalaError::SingularMatrix => ErrorModel::SingularMatrix,
            LalaError::ArityMismatch { expected, found } => ErrorModel::ArityMismatch {
                expected: *expected as nat,
                found: *found as nat,
            },
            LalaError::InvalidMatrixCell => ErrorModel::InvalidMatrixCell,
            LalaError::InvalidFunctionBody => ErrorModel::InvalidFunctionBody,
            LalaError::InvalidReturnStatement => ErrorModel::InvalidReturnStatement,
            LalaError::ParseFailure => ErrorModel::ParseFailure,
            LalaError::CallDepthExceeded => ErrorModel::CallDepthExceeded,
        }
    }
}

} // verus!
