use vstd::prelude::*;

verus! {

/// The ways in which an operation of this library can fail.
#[derive(Debug, PartialEq, Eq)]
pub enum SheetError {
    /// A malformed cell address, or a letter run that is empty or holds a
    /// character outside `A`..=`Z`.
    InvalidInput,
    /// A row or column number below 1 was given where an address is built.
    PreconditionViolation,
    /// A parsed row or column number does not fit in an `i32`.
    NumericOverflow,
    /// A worksheet title names no sheet of the spreadsheet.
    NotFound,
    /// A call to the remote service failed; the text names the operation and
    /// the cause.
    TransportFailure(String),
}

impl SheetError {
    /// A short description of the error, for messages.
    pub fn describe(&self) -> (r: String) {
        match self {
            SheetError::InvalidInput => String::from_str("invalid input"),
            SheetError::PreconditionViolation => String::from_str("row and column must be positive integers"),
            SheetError::NumericOverflow => String::from_str("number does not fit in an i32"),
            SheetError::NotFound => String::from_str("worksheet not found"),
            SheetError::TransportFailure(msg) => msg.clone(),
        }
    }
}

} // verus!
