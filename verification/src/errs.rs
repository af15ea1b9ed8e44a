use vstd::prelude::*;

verus! {

/// The error taxonomy of the tool.
///
/// Every failure of a workflow is one of these, each carrying a
/// human-readable message:
/// - `IOError`: a file could not be read, written or copied;
/// - `ParseError`: the metadata index file is malformed;
/// - `GatewayError`: an invocation of the external version-control tool
///   exited nonzero, with its captured diagnostic text;
/// - `NotFoundError`: the metadata file, a digest key, or a stored binary
///   is missing;
/// - `InvalidInputError`: an unusable argument, e.g. a path with no
///   filename component.
#[derive(Debug)]
pub enum BitcacheError {
    IOError(String),
    ParseError(String),
    GatewayError(String),
    NotFoundError(String),
    InvalidInputError(String),
}

impl BitcacheError {
    /// The message carried by the error, whichever variant it is.
    pub fn message(&self) -> (r: &String)
        ensures
            r@ == self.spec_message(),
    {
        match self {
            BitcacheError::IOError(m) => m,
            BitcacheError::ParseError(m) => m,
            BitcacheError::GatewayError(m) => m,
            BitcacheError::NotFoundError(m) => m,
            BitcacheError::InvalidInputError(m) => m,
        }
    }

    /// The message carried by the error, as a sequence of characters.
    pub open spec fn spec_message(&self) -> Seq<char> {
        match self {
            BitcacheError::IOError(m) => m@,
            BitcacheError::ParseError(m) => m@,
            BitcacheError::GatewayError(m) => m@,
            BitcacheError::NotFoundError(m) => m@,
            BitcacheError::InvalidInputError(m) => m@,
        }
    }
}

} // verus!
