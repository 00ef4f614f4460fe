//! Errors of the module-definition parser.

use vstd::prelude::*;

verus! {

/// Why a module definition could not be parsed.
#[derive(Debug, Clone, PartialEq, Eq)]
pub enum Error {
    /// A statement began with something other than a directive.
    UnknownDirective(String),
    /// An identifier was expected.
    ExpectedIdentifier,
    /// A decimal integer was expected.
    ExpectedInteger,
    /// An `=` was expected.
    ExpectedEqual,
}

/// What a parse failure states.
pub enum ErrorModel {
    UnknownDirective(Seq<char>),
    ExpectedIdentifier,
    ExpectedInteger,
    ExpectedEqual,
}

impl View for Error {
    type V = ErrorModel;

    open spec fn view(&self) -> ErrorModel {
        match self {
            Error::UnknownDirective(s) => ErrorModel::UnknownDirective(s@),
            Error::ExpectedIdentifier => ErrorModel::ExpectedIdentifier,
            Error::ExpectedInteger => ErrorModel::ExpectedInteger,
            Error::ExpectedEqual => ErrorModel::ExpectedEqual,
        }
    }
}

} // verus!
