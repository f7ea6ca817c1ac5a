//! Underskrift: the verified core of a PDF and CAdES signing library.
//!
//! The modules hold the byte-level logic of the library: DER surgery on CMS
//! `SignedData` envelopes, decoding of the SACI authentication-context
//! extension, standard-14 font metrics, revision detection and the other
//! computations that sit between reading a document and writing one.

pub mod error;
pub mod text;
pub mod cms;
pub mod visual;
pub mod saci;
pub mod inspect;
pub mod doc_mdp;
pub mod signer;
