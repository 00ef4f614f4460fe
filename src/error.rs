//! The error type of the whole library.

use vstd::prelude::*;

use crate::def;

verus! {

/// Why an import library could not be generated.
#[derive(Debug, Clone, PartialEq, Eq)]
pub enum Error {
    /// The module definition text could not be parsed.
    ModuleDef(def::Error),
    /// The import name holds a NUL character.
    NulInImportName,
    /// An export's name holds a NUL character.
    NulInExportName,
    /// A name too long for the 32-bit size and offset fields of the
    /// records that hold it.
    NameTooLong,
    /// The archive would index more symbols than a 32-bit count can hold.
    TooManySymbols,
    /// A member was appended under an identifier that was not declared.
    UndeclaredIdentifier,
    /// A member with indexed symbols would start beyond the 4 GiB limit.
    ArchiveTooLarge,
    /// A member's data does not have the size its header declares.
    SizeMismatch,
}

} // verus!
