//! The values decoded from a SACI AuthnContext extension.

use vstd::prelude::*;

use crate::text::str_eq;

verus! {

/// The object identifier of the AuthnContext extension.
pub open spec fn authn_context_oid() -> Seq<char> {
    "1.2.752.201.5.1"@
}

/// The `contextType` of a SACI authentication context.
pub open spec fn saci_context_type() -> Seq<char> {
    "http://id.elegnamnden.se/auth-cont/1.0/saci"@
}

/// Which class of failure a SACI operation reports.
pub enum SaciFault {
    ExtensionNotFound,
    Asn1,
    Xml,
    MissingAttribute,
    MissingElement,
}

/// Errors from decoding a SACI AuthnContext.
#[derive(Debug)]
pub enum SaciError {
    /// The certificate carries no AuthnContext extension.
    ExtensionNotFound,
    /// The extension is not the expected DER.
    Asn1(String),
    /// The context XML is malformed or not as expected.
    Xml(String),
    /// A required XML attribute is missing.
    MissingAttribute(String),
    /// A required XML element is missing.
    MissingElement(String),
}

impl SaciError {
    /// The class of this error.
    pub open spec fn fault(&self) -> SaciFault {
        match self {
            SaciError::ExtensionNotFound => SaciFault::ExtensionNotFound,
            SaciError::Asn1(_) => SaciFault::Asn1,
            SaciError::Xml(_) => SaciFault::Xml,
            SaciError::MissingAttribute(_) => SaciFault::MissingAttribute,
            SaciError::MissingElement(_) => SaciFault::MissingElement,
        }
    }
}

/// One `AuthenticationContext` as found in the extension, before its XML is
/// read.
#[derive(Debug)]
pub struct RawAuthenticationContext {
    /// The `contextType` URI.
    pub context_type: String,
    /// The `contextInfo` text, when present.
    pub context_info: Option<String>,
}

/// A raw context as characters.
pub struct RawContextModel {
    pub context_type: Seq<char>,
    pub context_info: Option<Seq<char>>,
}

impl View for RawAuthenticationContext {
    type V = RawContextModel;

    open spec fn view(&self) -> RawContextModel {
        RawContextModel {
            context_type: self.context_type@,
            context_info: match self.context_info {
                Some(s) => Some(s@),
                None => None,
            },
        }
    }
}

/// How an attribute of the assertion maps onto the certificate.
#[derive(Debug, Clone, Copy, PartialEq, Eq, Structural)]
pub enum MappingType {
    /// A relative distinguished name in the subject.
    Rdn,
    /// A subject alternative name.
    San,
    /// A subject directory attribute.
    Sda,
}

/// The text form of `m`.
pub open spec fn spec_mapping_type_str(m: MappingType) -> Seq<char> {
    match m {
        MappingType::Rdn => "rdn"@,
        MappingType::San => "san"@,
        MappingType::Sda => "sda"@,
    }
}

/// The mapping type written as `s`, if any.
pub open spec fn spec_mapping_type_from_str(s: Seq<char>) -> Option<MappingType> {
    if s == "rdn"@ {
        Some(MappingType::Rdn)
    } else if s == "san"@ {
        Some(MappingType::San)
    } else if s == "sda"@ {
        Some(MappingType::Sda)
    } else {
        None
    }
}

impl MappingType {
    /// Parse the `Type` attribute of an `AttributeMapping`.
    pub fn from_str(s: &str) -> (r: Option<MappingType>)
        ensures
            r == spec_mapping_type_from_str(s@),
    {
        if str_eq(s, "rdn") {
            Some(MappingType::Rdn)
        } else if str_eq(s, "san") {
            Some(MappingType::San)
        } else if str_eq(s, "sda") {
            Some(MappingType::Sda)
        } else {
            None
        }
    }

    /// The text form, as written in the `Type` attribute.
    pub fn as_str(&self) -> (r: &'static str)
        ensures
            r@ == spec_mapping_type_str(*self),
    {
        match self {
            MappingType::Rdn => "rdn",
            MappingType::San => "san",
            MappingType::Sda => "sda",
        }
    }
}

/// Reading back the text form of a mapping type gives the mapping type.
pub proof fn law_mapping_type_roundtrip(m: MappingType)
    ensures
        spec_mapping_type_from_str(spec_mapping_type_str(m)) == Some(m),
{
    reveal_strlit("rdn");
    reveal_strlit("san");
    reveal_strlit("sda");
    assert("rdn"@[0] == 'r' && "san"@[0] == 's' && "sda"@[0] == 's');
    assert("san"@[1] == 'a' && "sda"@[1] == 'd');
    assert("san"@ != "rdn"@);
    assert("sda"@ != "rdn"@);
    assert("sda"@ != "san"@);
}

} // verus!
