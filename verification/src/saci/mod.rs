//! SACI AuthnContext (RFC 7773): the authentication context that the Swedish
//! e-signing infrastructure records in a signer's certificate.

pub mod types;
pub mod xml;
pub mod context;
pub mod parser;
