//! PDF inspection: revisions, objects, signature fields and the document
//! security store.

pub mod revisions;
pub mod pdf;
pub mod json;
pub mod objects;
pub mod signatures;
