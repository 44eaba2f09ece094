//! The errors of a conversion.
use vstd::prelude::*;

verus! {

/// Why a conversion, or the loading of one resource, failed.
#[derive(Debug)]
pub enum Error {
    /// A backing file of a model, material or texture is absent.
    ResourceNotFound(String),
    /// A backing file exists but does not decode.
    ParseFailure(String),
    /// A structural or logical failure.
    Other(String),
}

impl Error {
    /// The message that describes the error.
    pub fn message(&self) -> (r: String)
        ensures
            r@ == match self {
                Error::ResourceNotFound(n) => "resource "@ + n@ + " not found in vpks or pack"@,
                Error::ParseFailure(m) => m@,
                Error::Other(m) => m@,
            },
    {
        match self {
            Error::ResourceNotFound(n) => {
                let mut r = String::from_str("resource ");
                r.append(n.as_str());
                r.append(" not found in vpks or pack");
                r
            },
            Error::ParseFailure(m) => m.clone(),
            Error::Other(m) => m.clone(),
        }
    }
}

} // verus!
