//! The SACI `<SAMLAuthContext>` document: who authenticated the signer, how,
//! and which assertion attributes went into the certificate.

use vstd::prelude::*;

use crate::text::str_eq;
use super::types::{
    spec_mapping_type_from_str, MappingType, SaciError, SaciFault,
};
use super::xml::{node_views, spec_trim, spec_xml_nodes, trim, xml_nodes, XmlNode, XmlNodeModel};

verus! {

// --- values ------------------------------------------------------------------

/// The `<AuthContextInfo>` element.
#[derive(Debug)]
pub struct AuthContextInfo {
    pub identity_provider: String,
    pub authentication_instant: String,
    pub authn_context_class_ref: String,
    pub assertion_ref: Option<String>,
    pub service_id: Option<String>,
}

/// A `<saml:Attribute>` element.
#[derive(Debug)]
pub struct SamlAttribute {
    pub name: Option<String>,
    pub name_format: Option<String>,
    pub friendly_name: Option<String>,
    /// The trimmed text of each `<saml:AttributeValue>`.
    pub values: Vec<String>,
}

/// An `<AttributeMapping>` element.
#[derive(Debug)]
pub struct AttributeMapping {
    pub mapping_type: MappingType,
    pub reference: String,
    pub attribute: SamlAttribute,
}

/// The `<IdAttributes>` element.
#[derive(Debug)]
pub struct IdAttributes {
    pub mappings: Vec<AttributeMapping>,
}

/// A parsed `<SAMLAuthContext>`.
#[derive(Debug)]
pub struct SAMLAuthContext {
    pub auth_context_info: Option<AuthContextInfo>,
    pub id_attributes: Option<IdAttributes>,
}

pub open spec fn opt_view(o: Option<String>) -> Option<Seq<char>> {
    match o {
        Some(s) => Some(s@),
        None => None,
    }
}

pub open spec fn string_views(s: Seq<String>) -> Seq<Seq<char>> {
    s.map_values(|x: String| x@)
}

pub struct AuthContextInfoModel {
    pub identity_provider: Seq<char>,
    pub authentication_instant: Seq<char>,
    pub authn_context_class_ref: Seq<char>,
    pub assertion_ref: Option<Seq<char>>,
    pub service_id: Option<Seq<char>>,
}

impl View for AuthContextInfo {
    type V = AuthContextInfoModel;

    open spec fn view(&self) -> AuthContextInfoModel {
        AuthContextInfoModel {
            identity_provider: self.identity_provider@,
            authentication_instant: self.authentication_instant@,
            authn_context_class_ref: self.authn_context_class_ref@,
            assertion_ref: opt_view(self.assertion_ref),
            service_id: opt_view(self.service_id),
        }
    }
}

pub struct SamlAttributeModel {
    pub name: Option<Seq<char>>,
    pub name_format: Option<Seq<char>>,
    pub friendly_name: Option<Seq<char>>,
    pub values: Seq<Seq<char>>,
}

impl View for SamlAttribute {
    type V = SamlAttributeModel;

    open spec fn view(&self) -> SamlAttributeModel {
        SamlAttributeModel {
            name: opt_view(self.name),
            name_format: opt_view(self.name_format),
            friendly_name: opt_view(self.friendly_name),
            values: string_views(self.values@),
        }
    }
}

pub struct AttributeMappingModel {
    pub mapping_type: MappingType,
    pub reference: Seq<char>,
    pub attribute: SamlAttributeModel,
}

impl View for AttributeMapping {
    type V = AttributeMappingModel;

    open spec fn view(&self) -> AttributeMappingModel {
        AttributeMappingModel {
            mapping_type: self.mapping_type,
            reference: self.reference@,
            attribute: self.attribute@,
        }
    }
}

pub open spec fn mapping_views(s: Seq<AttributeMapping>) -> Seq<AttributeMappingModel> {
    s.map_values(|m: AttributeMapping| m@)
}

pub struct SAMLAuthContextModel {
    pub auth_context_info: Option<AuthContextInfoModel>,
    pub id_attributes: Option<Seq<AttributeMappingModel>>,
}

impl View for SAMLAuthContext {
    type V = SAMLAuthContextModel;

    open spec fn view(&self) -> SAMLAuthContextModel {
        SAMLAuthContextModel {
            auth_context_info: match self.auth_context_info {
                Some(i) => Some(i@),
                None => None,
            },
            id_attributes: match self.id_attributes {
                Some(a) => Some(mapping_views(a.mappings@)),
                None => None,
            },
        }
    }
}

// --- specification -----------------------------------------------------------

/// The value of the first attribute named `key`.
pub open spec fn spec_get_attr(attrs: Seq<(Seq<char>, Seq<char>)>, key: Seq<char>) -> Option<
    Seq<char>,
>
    decreases attrs.len(),
{
    if attrs.len() == 0 {
        None
    } else if attrs[0].0 == key {
        Some(attrs[0].1)
    } else {
        spec_get_attr(attrs.drop_first(), key)
    }
}

/// `n` is an element named `name` whose parent is the node `parent`.
pub open spec fn is_child_named(n: XmlNodeModel, parent: usize, name: Seq<char>) -> bool {
    n.parent == Some(parent) && n.name == Some(name)
}

/// The trimmed texts of the `AttributeValue` children of `id` among the
/// first `k` nodes.
pub open spec fn spec_values_upto(ns: Seq<XmlNodeModel>, id: usize, k: int) -> Seq<Seq<char>>
    decreases k,
{
    if k <= 0 {
        Seq::empty()
    } else if is_child_named(ns[k - 1], id, "AttributeValue"@) {
        spec_values_upto(ns, id, k - 1).push(spec_trim(ns[k - 1].text))
    } else {
        spec_values_upto(ns, id, k - 1)
    }
}

/// The `<saml:Attribute>` at node `i`.
pub open spec fn spec_saml_attribute(ns: Seq<XmlNodeModel>, i: int) -> SamlAttributeModel {
    SamlAttributeModel {
        name: spec_get_attr(ns[i].attributes, "Name"@),
        name_format: spec_get_attr(ns[i].attributes, "NameFormat"@),
        friendly_name: spec_get_attr(ns[i].attributes, "FriendlyName"@),
        values: spec_values_upto(ns, ns[i].id, ns.len() as int),
    }
}

/// The first node from `start` on that is a child of `id` named `name`.
pub open spec fn spec_find_child(ns: Seq<XmlNodeModel>, id: usize, name: Seq<char>, start: int) -> Option<
    int,
>
    decreases ns.len() - start,
{
    if start < 0 || start >= ns.len() {
        None
    } else if is_child_named(ns[start], id, name) {
        Some(start)
    } else {
        spec_find_child(ns, id, name, start + 1)
    }
}

/// The `<AttributeMapping>` at node `i`.
pub open spec fn spec_attribute_mapping(ns: Seq<XmlNodeModel>, i: int) -> Result<
    AttributeMappingModel,
    SaciFault,
> {
    match spec_get_attr(ns[i].attributes, "Type"@) {
        None => Err(SaciFault::MissingAttribute),
        Some(t) => match spec_mapping_type_from_str(t) {
            None => Err(SaciFault::Xml),
            Some(mt) => match spec_get_attr(ns[i].attributes, "Ref"@) {
                None => Err(SaciFault::MissingAttribute),
                Some(r) => match spec_find_child(ns, ns[i].id, "Attribute"@, 0) {
                    None => Err(SaciFault::MissingElement),
                    Some(j) => Ok(
                        AttributeMappingModel {
                            mapping_type: mt,
                            reference: r,
                            attribute: spec_saml_attribute(ns, j),
                        },
                    ),
                },
            },
        },
    }
}

/// The `<AttributeMapping>` children of `id` among the first `k` nodes.
pub open spec fn spec_mappings_upto(ns: Seq<XmlNodeModel>, id: usize, k: int) -> Result<
    Seq<AttributeMappingModel>,
    SaciFault,
>
    decreases k,
{
    if k <= 0 {
        Ok(Seq::empty())
    } else {
        match spec_mappings_upto(ns, id, k - 1) {
            Err(e) => Err(e),
            Ok(acc) => {
                if is_child_named(ns[k - 1], id, "AttributeMapping"@) {
                    match spec_attribute_mapping(ns, k - 1) {
                        Err(e) => Err(e),
                        Ok(m) => Ok(acc.push(m)),
                    }
                } else {
                    Ok(acc)
                }
            },
        }
    }
}

/// The `<AuthContextInfo>` at node `i`.
pub open spec fn spec_auth_context_info(ns: Seq<XmlNodeModel>, i: int) -> Result<
    AuthContextInfoModel,
    SaciFault,
> {
    let a = ns[i].attributes;
    match spec_get_attr(a, "IdentityProvider"@) {
        None => Err(SaciFault::MissingAttribute),
        Some(idp) => match spec_get_attr(a, "AuthenticationInstant"@) {
            None => Err(SaciFault::MissingAttribute),
            Some(inst) => match spec_get_attr(a, "AuthnContextClassRef"@) {
                None => Err(SaciFault::MissingAttribute),
                Some(cr) => Ok(
                    AuthContextInfoModel {
                        identity_provider: idp,
                        authentication_instant: inst,
                        authn_context_class_ref: cr,
                        assertion_ref: spec_get_attr(a, "AssertionRef"@),
                        service_id: spec_get_attr(a, "ServiceID"@),
                    },
                ),
            },
        },
    }
}

/// The children of the document element among the first `k` nodes read
/// into a context; a later `AuthContextInfo` or `IdAttributes` replaces an
/// earlier one.
pub open spec fn spec_context_upto(ns: Seq<XmlNodeModel>, k: int) -> Result<
    SAMLAuthContextModel,
    SaciFault,
>
    decreases k,
{
    if k <= 0 {
        Ok(SAMLAuthContextModel { auth_context_info: None, id_attributes: None })
    } else {
        match spec_context_upto(ns, k - 1) {
            Err(e) => Err(e),
            Ok(acc) => {
                let n = ns[k - 1];
                if is_child_named(n, ns[0].id, "AuthContextInfo"@) {
                    match spec_auth_context_info(ns, k - 1) {
                        Err(e) => Err(e),
                        Ok(i) => Ok(SAMLAuthContextModel { auth_context_info: Some(i), ..acc }),
                    }
                } else if is_child_named(n, ns[0].id, "IdAttributes"@) {
                    match spec_mappings_upto(ns, n.id, ns.len() as int) {
                        Err(e) => Err(e),
                        Ok(m) => Ok(SAMLAuthContextModel { id_attributes: Some(m), ..acc }),
                    }
                } else {
                    Ok(acc)
                }
            },
        }
    }
}

/// The `<SAMLAuthContext>` that `xml` holds.
pub open spec fn spec_parse_saml_auth_context(xml: Seq<char>) -> Result<
    SAMLAuthContextModel,
    SaciFault,
> {
    match spec_xml_nodes(xml) {
        None => Err(SaciFault::Xml),
        Some(ns) => {
            if ns.len() == 0 {
                Err(SaciFault::Xml)
            } else {
                spec_context_upto(ns, ns.len() as int)
            }
        },
    }
}

// --- executable --------------------------------------------------------------

/// The value of the first attribute named `key`.
fn get_attr(attrs: &Vec<(String, String)>, key: &str) -> (r: Option<String>)
    ensures
        opt_view(r) == spec_get_attr(super::xml::attr_pair_views(attrs@), key@),
{
    let ghost av = super::xml::attr_pair_views(attrs@);
    let mut i: usize = 0;
    assert(av.skip(0) =~= av);
    while i < attrs.len()
        invariant
            i <= attrs@.len(),
            av == super::xml::attr_pair_views(attrs@),
            spec_get_attr(av, key@) == spec_get_attr(av.skip(i as int), key@),
        decreases attrs.len() - i,
    {
        assert(av.skip(i as int)[0] == av[i as int]);
        assert(av.skip(i as int).drop_first() =~= av.skip(i + 1));
        if str_eq(attrs[i].0.as_str(), key) {
            return Some(attrs[i].1.clone());
        }
        i = i + 1;
    }
    None
}

/// Whether `n` is an element named `name` under the node `parent`.
fn child_named(n: &XmlNode, parent: usize, name: &str) -> (r: bool)
    ensures
        r == is_child_named(n@, parent, name@),
{
    match (&n.parent, &n.name) {
        (Some(p), Some(x)) => *p == parent && str_eq(x.as_str(), name),
        _ => false,
    }
}

fn missing_attribute(what: &str) -> (e: SaciError)
    ensures
        e matches SaciError::MissingAttribute(s) && s@ == what@,
{
    SaciError::MissingAttribute(String::from_str(what))
}

fn xml_error(msg: &str) -> (e: SaciError)
    ensures
        e matches SaciError::Xml(s) && s@ == msg@,
{
    SaciError::Xml(String::from_str(msg))
}

/// Parse a `<saml:Attribute>` element.
fn parse_saml_attribute(ns: &Vec<XmlNode>, i: usize) -> (r: SamlAttribute)
    requires
        i < ns@.len(),
    ensures
        r@ == spec_saml_attribute(node_views(ns@), i as int),
{
    let ghost nv = node_views(ns@);
    let node = &ns[i];
    let name = get_attr(&node.attributes, "Name");
    let name_format = get_attr(&node.attributes, "NameFormat");
    let friendly_name = get_attr(&node.attributes, "FriendlyName");
    let mut values: Vec<String> = Vec::new();
    let mut k: usize = 0;
    while k < ns.len()
        invariant
            k <= ns@.len(),
            nv == node_views(ns@),
            i < ns@.len(),
            string_views(values@) == spec_values_upto(nv, nv[i as int].id, k as int),
        decreases ns.len() - k,
    {
        assert(nv[k as int] == ns@[k as int]@);
        assert(nv[i as int] == ns@[i as int]@);
        if child_named(&ns[k], ns[i].id, "AttributeValue") {
            let t = trim(ns[k].text.as_str());
            assert(string_views(values@.push(t)) =~= string_views(values@).push(t@));
            values.push(t);
        }
        k = k + 1;
    }
    assert(nv[i as int] == ns@[i as int]@);
    SamlAttribute { name, name_format, friendly_name, values }
}

/// The first node from `start` on that is a child of `id` named `name`.
fn find_child(ns: &Vec<XmlNode>, id: usize, name: &str) -> (r: Option<usize>)
    ensures
        match r {
            None => spec_find_child(node_views(ns@), id, name@, 0) is None,
            Some(j) => spec_find_child(node_views(ns@), id, name@, 0) == Some(j as int) && j < ns@.len(),
        },
{
    let ghost nv = node_views(ns@);
    let mut k: usize = 0;
    while k < ns.len()
        invariant
            k <= ns@.len(),
            nv == node_views(ns@),
            spec_find_child(nv, id, name@, 0) == spec_find_child(nv, id, name@, k as int),
        decreases ns.len() - k,
    {
        assert(nv[k as int] == ns@[k as int]@);
        if child_named(&ns[k], id, name) {
            return Some(k);
        }
        k = k + 1;
    }
    None
}

/// Parse an `<AttributeMapping>` element.
fn parse_attribute_mapping(ns: &Vec<XmlNode>, i: usize) -> (r: Result<AttributeMapping, SaciError>)
    requires
        i < ns@.len(),
    ensures
        match spec_attribute_mapping(node_views(ns@), i as int) {
            Err(f) => r matches Err(e) && e.fault() == f,
            Ok(m) => r matches Ok(x) && x@ == m,
        },
{
    let ghost nv = node_views(ns@);
    assert(nv[i as int] == ns@[i as int]@);
    let type_str = match get_attr(&ns[i].attributes, "Type") {
        Some(t) => t,
        None => {
            return Err(missing_attribute("AttributeMapping/@Type"));
        },
    };
    let mapping_type = match MappingType::from_str(type_str.as_str()) {
        Some(m) => m,
        None => {
            return Err(xml_error("unknown AttributeMapping Type"));
        },
    };
    let reference = match get_attr(&ns[i].attributes, "Ref") {
        Some(r) => r,
        None => {
            return Err(missing_attribute("AttributeMapping/@Ref"));
        },
    };
    let j = match find_child(ns, ns[i].id, "Attribute") {
        Some(j) => j,
        None => {
            return Err(SaciError::MissingElement(String::from_str("saml:Attribute")));
        },
    };
    let attribute = parse_saml_attribute(ns, j);
    Ok(AttributeMapping { mapping_type, reference, attribute })
}

/// Once reading mappings fails, reading more fails the same way.
proof fn lemma_mappings_error_sticks(ns: Seq<XmlNodeModel>, id: usize, k: int, n: int)
    requires
        0 <= k <= n,
        spec_mappings_upto(ns, id, k) is Err,
    ensures
        spec_mappings_upto(ns, id, n) == spec_mappings_upto(ns, id, k),
    decreases n - k,
{
    if k < n {
        lemma_mappings_error_sticks(ns, id, k, n - 1);
    }
}

/// Parse the `<IdAttributes>` element at node `i`.
fn parse_id_attributes(ns: &Vec<XmlNode>, i: usize) -> (r: Result<IdAttributes, SaciError>)
    requires
        i < ns@.len(),
    ensures
        match spec_mappings_upto(node_views(ns@), node_views(ns@)[i as int].id, ns@.len() as int) {
            Err(f) => r matches Err(e) && e.fault() == f,
            Ok(m) => r matches Ok(x) && mapping_views(x.mappings@) == m,
        },
{
    let ghost nv = node_views(ns@);
    assert(nv[i as int] == ns@[i as int]@);
    let id = ns[i].id;
    let mut mappings: Vec<AttributeMapping> = Vec::new();
    let mut k: usize = 0;
    assert(mapping_views(mappings@) =~= Seq::<AttributeMappingModel>::empty());
    while k < ns.len()
        invariant
            k <= ns@.len(),
            nv == node_views(ns@),
            id == nv[i as int].id,
            spec_mappings_upto(nv, id, k as int) == Ok::<Seq<AttributeMappingModel>, SaciFault>(
                mapping_views(mappings@),
            ),
        decreases ns.len() - k,
    {
        assert(nv[k as int] == ns@[k as int]@);
        if child_named(&ns[k], id, "AttributeMapping") {
            let m = match parse_attribute_mapping(ns, k) {
                Ok(m) => m,
                Err(e) => {
                    proof {
                        assert(spec_mappings_upto(nv, id, k + 1) is Err);
                        lemma_mappings_error_sticks(nv, id, k + 1, ns@.len() as int);
                    }
                    return Err(e);
                },
            };
            assert(mapping_views(mappings@.push(m)) =~= mapping_views(mappings@).push(m@));
            mappings.push(m);
        }
        k = k + 1;
    }
    Ok(IdAttributes { mappings })
}

/// Parse the `<AuthContextInfo>` element at node `i`.
fn parse_auth_context_info(ns: &Vec<XmlNode>, i: usize) -> (r: Result<AuthContextInfo, SaciError>)
    requires
        i < ns@.len(),
    ensures
        match spec_auth_context_info(node_views(ns@), i as int) {
            Err(f) => r matches Err(e) && e.fault() == f,
            Ok(m) => r matches Ok(x) && x@ == m,
        },
{
    let ghost nv = node_views(ns@);
    assert(nv[i as int] == ns@[i as int]@);
    let a = &ns[i].attributes;
    let identity_provider = match get_attr(a, "IdentityProvider") {
        Some(v) => v,
        None => {
            return Err(missing_attribute("IdentityProvider"));
        },
    };
    let authentication_instant = match get_attr(a, "AuthenticationInstant") {
        Some(v) => v,
        None => {
            return Err(missing_attribute("AuthenticationInstant"));
        },
    };
    let authn_context_class_ref = match get_attr(a, "AuthnContextClassRef") {
        Some(v) => v,
        None => {
            return Err(missing_attribute("AuthnContextClassRef"));
        },
    };
    let assertion_ref = get_attr(a, "AssertionRef");
    let service_id = get_attr(a, "ServiceID");
    Ok(
        AuthContextInfo {
            identity_provider,
            authentication_instant,
            authn_context_class_ref,
            assertion_ref,
            service_id,
        },
    )
}

/// Once reading the context fails, reading more fails the same way.
proof fn lemma_context_error_sticks(ns: Seq<XmlNodeModel>, k: int, n: int)
    requires
        0 <= k <= n,
        spec_context_upto(ns, k) is Err,
    ensures
        spec_context_upto(ns, n) == spec_context_upto(ns, k),
    decreases n - k,
{
    if k < n {
        lemma_context_error_sticks(ns, k, n - 1);
    }
}

/// Parse a SACI `<SAMLAuthContext>` XML string into a structured object.
pub fn parse_saml_auth_context(xml: &str) -> (r: Result<SAMLAuthContext, SaciError>)
    ensures
        match spec_parse_saml_auth_context(xml@) {
            Err(f) => r matches Err(e) && e.fault() == f,
            Ok(m) => r matches Ok(x) && x@ == m,
        },
{
    let ns = match xml_nodes(xml) {
        Some(ns) => ns,
        None => {
            return Err(xml_error("XML parse error"));
        },
    };
    if ns.len() == 0 {
        return Err(xml_error("no root element"));
    }
    let ghost nv = node_views(ns@);
    assert(nv[0] == ns@[0]@);
    let root = ns[0].id;
    let mut ctx = SAMLAuthContext { auth_context_info: None, id_attributes: None };
    let mut k: usize = 0;
    while k < ns.len()
        invariant
            k <= ns@.len(),
            ns@.len() > 0,
            nv == node_views(ns@),
            root == nv[0].id,
            spec_xml_nodes(xml@) == Some(nv),
            spec_context_upto(nv, k as int) == Ok::<SAMLAuthContextModel, SaciFault>(ctx@),
        decreases ns.len() - k,
    {
        assert(nv[k as int] == ns@[k as int]@);
        if child_named(&ns[k], root, "AuthContextInfo") {
            match parse_auth_context_info(&ns, k) {
                Ok(info) => {
                    ctx.auth_context_info = Some(info);
                },
                Err(e) => {
                    proof {
                        assert(spec_context_upto(nv, k + 1) is Err);
                        lemma_context_error_sticks(nv, k + 1, ns@.len() as int);
                    }
                    return Err(e);
                },
            }
        } else if child_named(&ns[k], root, "IdAttributes") {
            match parse_id_attributes(&ns, k) {
                Ok(ids) => {
                    ctx.id_attributes = Some(ids);
                },
                Err(e) => {
                    proof {
                        assert(spec_context_upto(nv, k + 1) is Err);
                        lemma_context_error_sticks(nv, k + 1, ns@.len() as int);
                    }
                    return Err(e);
                },
            }
        }
        k = k + 1;
    }
    Ok(ctx)
}

/// Whether `n` is an `AttributeValue` element under the node `id`.
pub open spec fn is_value_of(id: usize) -> spec_fn(XmlNodeModel) -> bool {
    |n: XmlNodeModel| n.parent == Some(id) && n.name == Some("AttributeValue"@)
}

/// The values gathered from the first `k` nodes are the trimmed texts of the
/// `AttributeValue` children among them, in order.
proof fn lemma_values_upto_filter(ns: Seq<XmlNodeModel>, id: usize, k: int)
    requires
        0 <= k <= ns.len(),
    ensures
        spec_values_upto(ns, id, k) == ns.take(k).filter(is_value_of(id)).map_values(
            |n: XmlNodeModel| spec_trim(n.text),
        ),
    decreases k,
{
    reveal_with_fuel(Seq::filter, 2);
    let t = |n: XmlNodeModel| spec_trim(n.text);
    if k == 0 {
        assert(ns.take(0).filter(is_value_of(id)) =~= Seq::<XmlNodeModel>::empty());
        assert(ns.take(0).filter(is_value_of(id)).map_values(t) =~= Seq::<Seq<char>>::empty());
    } else {
        lemma_values_upto_filter(ns, id, k - 1);
        let tk = ns.take(k);
        assert(tk.drop_last() =~= ns.take(k - 1));
        assert(tk.last() == ns[k - 1]);
        let sub = ns.take(k - 1).filter(is_value_of(id));
        if is_value_of(id)(ns[k - 1]) {
            assert(tk.filter(is_value_of(id)) == sub.push(ns[k - 1]));
            assert(sub.push(ns[k - 1]).map_values(t) =~= sub.map_values(t).push(spec_trim(
                ns[k - 1].text,
            )));
        } else {
            assert(tk.filter(is_value_of(id)) == sub);
        }
    }
}

/// **Every value of an attribute is kept.** The values of the
/// `<saml:Attribute>` at node `i` are the trimmed texts of all the
/// `AttributeValue` elements directly under it, in document order: as many
/// values as there are such elements.
pub proof fn law_attribute_values_are_every_value_child(ns: Seq<XmlNodeModel>, i: int)
    requires
        0 <= i < ns.len(),
    ensures
        spec_saml_attribute(ns, i).values == ns.filter(is_value_of(ns[i].id)).map_values(
            |n: XmlNodeModel| spec_trim(n.text),
        ),
        spec_saml_attribute(ns, i).values.len() == ns.filter(is_value_of(ns[i].id)).len(),
{
    lemma_values_upto_filter(ns, ns[i].id, ns.len() as int);
    assert(ns.take(ns.len() as int) =~= ns);
}

} // verus!
