//! CMS (RFC 5652) handling: DER reading and writing, and CAdES composition.

pub mod tlv;
pub mod set_order;
pub mod signed_data;
pub mod attributes;
pub mod cades;
pub mod preservation;
