//! Error types of the library.

use vstd::prelude::*;

verus! {

/// Which class of failure a CMS operation reports.
pub enum CmsFault {
    /// The input is not well-formed DER, or not shaped as expected.
    Der,
    /// The input is well-formed but not usable for the requested operation.
    Builder,
}

/// Errors from CMS construction and DER surgery.
#[derive(Debug)]
pub enum CmsError {
    /// Malformed or unexpected DER.
    Der(String),
    /// The CMS is well-formed but the operation cannot be applied to it.
    Builder(String),
}

impl CmsError {
    /// The class of this error.
    pub open spec fn fault(&self) -> CmsFault {
        match self {
            CmsError::Der(_) => CmsFault::Der,
            CmsError::Builder(_) => CmsFault::Builder,
        }
    }
}

} // verus!
