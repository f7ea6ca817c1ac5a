//! CMS attributes (`Attribute ::= SEQUENCE { attrType, SET OF attrValues }`)
//! as plain values, and the unsigned-attribute rewrite of a `SignerInfo`.

use vstd::prelude::*;

use crate::error::{CmsError, CmsFault};
use super::tlv::{
    copy_bytes, copy_vecs, is_single_tlv, lemma_tlv_bounds, sequence, slice_views, spec_encode_tlv,
    spec_value_of, tlv, value_of, vec_views,
};
use super::signed_data::{
    builder_error, bytes_result, der_error, spec_children_of, children_of, slice_eq,
};

verus! {

/// A CMS attribute: its type, and the DER of each of its values.
#[derive(Debug)]
pub struct CmsAttribute {
    /// The attribute type, as a dot-delimited object identifier.
    pub oid: String,
    /// The DER encoding of each value, in the order the set holds them.
    pub values: Vec<Vec<u8>>,
}

/// An attribute as a mathematical value.
pub struct AttrModel {
    pub oid: Seq<char>,
    pub values: Seq<Seq<u8>>,
}

impl View for CmsAttribute {
    type V = AttrModel;

    open spec fn view(&self) -> AttrModel {
        AttrModel { oid: self.oid@, values: vec_views(self.values@) }
    }
}

/// The models of a sequence of attributes.
pub open spec fn attr_views(s: Seq<CmsAttribute>) -> Seq<AttrModel> {
    s.map_values(|a: CmsAttribute| a@)
}

/// Whether der accepts `v` as one DER value of any type (`der::Any`).
pub uninterp spec fn spec_any_decodes(v: Seq<u8>) -> bool;

/// Whether x509-cert accepts `d` as one DER X.509 certificate.
pub uninterp spec fn spec_certificate_decodes(d: Seq<u8>) -> bool;

/// What der makes of `set_der` read as a DER `SET OF Attribute`, each
/// attribute given back with its type in dotted form and the DER of its values.
pub uninterp spec fn spec_decode_attribute_set(set_der: Seq<u8>) -> Option<Seq<AttrModel>>;

/// The DER `SET OF Attribute` that der writes for `attrs`.
pub uninterp spec fn spec_encode_attribute_set(attrs: Seq<AttrModel>) -> Option<Seq<u8>>;

/// Calls `der::Any::from_der` (through `x509_cert::attr::AttributeValue`).
///
/// Claimed: the answer is a function of the bytes alone, named by
/// [`spec_any_decodes`]. Which inputs der accepts is not spelled out.
#[verifier::external_body]
pub(crate) fn der_value_decodes(v: &[u8]) -> (r: bool)
    ensures
        r == spec_any_decodes(v@),
{
    <x509_cert::attr::AttributeValue as der::Decode>::from_der(v).is_ok()
}

/// Calls `x509_cert::Certificate::from_der`.
///
/// Claimed: the answer is a function of the bytes alone, named by
/// [`spec_certificate_decodes`].
#[verifier::external_body]
pub(crate) fn certificate_decodes(d: &[u8]) -> (r: bool)
    ensures
        r == spec_certificate_decodes(d@),
{
    <x509_cert::Certificate as der::Decode>::from_der(d).is_ok()
}

/// Calls `der::asn1::SetOfVec::<x509_cert::attr::Attribute>::from_der` and
/// hands each attribute out as a [`CmsAttribute`] (the type through its
/// `Display`, each value through `to_der`).
///
/// Claimed: the result is a function of the bytes alone, named by
/// [`spec_decode_attribute_set`]; `None` when der refuses them.
#[verifier::external_body]
fn decode_attribute_set(set_der: &[u8]) -> (r: Option<Vec<CmsAttribute>>)
    ensures
        match r {
            Some(v) => spec_decode_attribute_set(set_der@) == Some(attr_views(v@)),
            None => spec_decode_attribute_set(set_der@) is None,
        },
{
    let set: der::asn1::SetOfVec<x509_cert::attr::Attribute> = der::Decode::from_der(set_der).ok()?;
    set.iter().map(|a| {
        let values = a.values.iter().map(|v| der::Encode::to_der(v).ok()).collect::<Option<Vec<_>>>()?;
        Some(CmsAttribute { oid: a.oid.to_string(), values })
    }).collect()
}

/// Builds `x509_cert::attr::Attribute`s from `attrs` (`ObjectIdentifier::new`,
/// `der::Any::from_der` and `SetOfVec::try_from`), then calls
/// `SetOfVec::try_from` and `to_der` on the whole set.
///
/// Claimed: the result is a function of `attrs` alone, named by
/// [`spec_encode_attribute_set`]; `None` when der refuses them.
#[verifier::external_body]
fn encode_attribute_set(attrs: &Vec<CmsAttribute>) -> (r: Option<Vec<u8>>)
    ensures
        match r {
            Some(d) => spec_encode_attribute_set(attr_views(attrs@)) == Some(d@),
            None => spec_encode_attribute_set(attr_views(attrs@)) is None,
        },
{
    let mut list = Vec::new();
    for a in attrs {
        let values = a.values.iter().map(|v| <der::Any as der::Decode>::from_der(v).ok()).collect::<Option<Vec<_>>>()?;
        let oid = const_oid::ObjectIdentifier::new(&a.oid).ok()?;
        list.push(x509_cert::attr::Attribute { oid, values: der::asn1::SetOfVec::try_from(values).ok()? });
    }
    der::Encode::to_der(&der::asn1::SetOfVec::try_from(list).ok()?).ok()
}

// --- attribute construction --------------------------------------------------

/// The attribute of type `oid` with the single value `value`; refused when
/// `value` is not one DER value.
pub open spec fn spec_single_value_attr(oid: Seq<char>, value: Seq<u8>) -> Result<
    AttrModel,
    CmsFault,
> {
    if spec_any_decodes(value) {
        Ok(AttrModel { oid, values: seq![value] })
    } else {
        Err(CmsFault::Der)
    }
}

/// An attribute `Result` taken to its model.
pub open spec fn attr_result(r: Result<CmsAttribute, CmsError>) -> Result<AttrModel, CmsFault> {
    match r {
        Ok(a) => Ok(a@),
        Err(e) => Err(e.fault()),
    }
}

/// The attribute of type `oid` with the single value `value_der`.
pub fn single_value_attr(oid: String, value_der: &[u8]) -> (r: Result<CmsAttribute, CmsError>)
    ensures
        attr_result(r) == spec_single_value_attr(oid@, value_der@),
{
    if !der_value_decodes(value_der) {
        return Err(der_error("attribute value parse"));
    }
    let mut values: Vec<Vec<u8>> = Vec::new();
    values.push(copy_bytes(value_der));
    assert(vec_views(values@) =~= seq![value_der@]);
    Ok(CmsAttribute { oid, values })
}

// --- merging -----------------------------------------------------------------

/// The index of the first attribute of type `oid`.
pub open spec fn spec_find_oid(attrs: Seq<AttrModel>, oid: Seq<char>) -> Option<int>
    decreases attrs.len(),
{
    if attrs.len() == 0 {
        None
    } else if attrs[0].oid == oid {
        Some(0)
    } else {
        match spec_find_oid(attrs.drop_first(), oid) {
            Some(i) => Some(i + 1),
            None => None,
        }
    }
}

/// `new` added one by one to the set `values`; `None` as soon as one is
/// already there (a `SET OF` holds each value once).
pub open spec fn spec_add_values(values: Seq<Seq<u8>>, new: Seq<Seq<u8>>) -> Option<Seq<Seq<u8>>>
    decreases new.len(),
{
    if new.len() == 0 {
        Some(values)
    } else {
        match spec_add_values(values, new.drop_last()) {
            None => None,
            Some(acc) => {
                if acc.contains(new.last()) {
                    None
                } else {
                    Some(acc.push(new.last()))
                }
            },
        }
    }
}

/// `new` merged into `attrs`: its values join the first attribute of the same
/// type, or it is appended when there is none.
pub open spec fn spec_merge_attr(attrs: Seq<AttrModel>, new: AttrModel) -> Option<Seq<AttrModel>> {
    match spec_find_oid(attrs, new.oid) {
        None => Some(attrs.push(new)),
        Some(i) => match spec_add_values(attrs[i].values, new.values) {
            None => None,
            Some(vs) => Some(attrs.update(i, AttrModel { oid: attrs[i].oid, values: vs })),
        },
    }
}

/// All of `new` merged into `attrs`, in order.
pub open spec fn spec_merge_attrs(attrs: Seq<AttrModel>, new: Seq<AttrModel>) -> Option<
    Seq<AttrModel>,
>
    decreases new.len(),
{
    if new.len() == 0 {
        Some(attrs)
    } else {
        match spec_merge_attrs(attrs, new.drop_last()) {
            None => None,
            Some(acc) => spec_merge_attr(acc, new.last()),
        }
    }
}

/// No two attributes of `attrs` have the same type.
pub open spec fn oids_unique(attrs: Seq<AttrModel>) -> bool {
    forall|i: int, j: int| 0 <= i < j < attrs.len() ==> attrs[i].oid != attrs[j].oid
}

/// Some attribute of `attrs` has type `oid`.
pub open spec fn has_oid(attrs: Seq<AttrModel>, oid: Seq<char>) -> bool {
    exists|k: int| 0 <= k < attrs.len() && #[trigger] attrs[k].oid == oid
}

proof fn lemma_find_oid(attrs: Seq<AttrModel>, oid: Seq<char>)
    ensures
        spec_find_oid(attrs, oid) is None <==> !has_oid(attrs, oid),
        spec_find_oid(attrs, oid) matches Some(i) ==> 0 <= i < attrs.len() && attrs[i].oid == oid,
    decreases attrs.len(),
{
    if attrs.len() > 0 {
        lemma_find_oid(attrs.drop_first(), oid);
        if attrs[0].oid != oid {
            if has_oid(attrs, oid) {
                let k = choose|k: int| 0 <= k < attrs.len() && #[trigger] attrs[k].oid == oid;
                assert(attrs.drop_first()[k - 1].oid == oid);
            }
            if has_oid(attrs.drop_first(), oid) {
                let k = choose|k: int|
                    0 <= k < attrs.drop_first().len() && #[trigger] attrs.drop_first()[k].oid == oid;
                assert(attrs[k + 1].oid == oid);
            }
        } else {
            assert(attrs[0].oid == oid);
        }
    }
}

proof fn lemma_merge_attr(attrs: Seq<AttrModel>, new: AttrModel)
    requires
        oids_unique(attrs),
        spec_merge_attr(attrs, new) is Some,
    ensures
        oids_unique(spec_merge_attr(attrs, new)->Some_0),
        forall|oid: Seq<char>|
            has_oid(spec_merge_attr(attrs, new)->Some_0, oid) <==> (has_oid(attrs, oid) || oid
                == new.oid),
{
    let r = spec_merge_attr(attrs, new)->Some_0;
    lemma_find_oid(attrs, new.oid);
    match spec_find_oid(attrs, new.oid) {
        None => {
            assert(r == attrs.push(new));
            assert forall|i: int, j: int| 0 <= i < j < r.len() implies r[i].oid != r[j].oid by {
                if j == attrs.len() {
                    assert(r[i] == attrs[i]);
                    assert(r[i].oid != new.oid);
                }
            }
            assert forall|oid: Seq<char>| has_oid(r, oid) <==> (has_oid(attrs, oid) || oid
                == new.oid) by {
                if has_oid(r, oid) {
                    let k = choose|k: int| 0 <= k < r.len() && #[trigger] r[k].oid == oid;
                    if k < attrs.len() {
                        assert(attrs[k].oid == oid);
                    }
                }
                if has_oid(attrs, oid) {
                    let k = choose|k: int| 0 <= k < attrs.len() && #[trigger] attrs[k].oid == oid;
                    assert(r[k].oid == oid);
                }
                if oid == new.oid {
                    assert(r[attrs.len() as int].oid == oid);
                }
            }
        },
        Some(i) => {
            let vs = spec_add_values(attrs[i].values, new.values)->Some_0;
            assert(r == attrs.update(i, AttrModel { oid: attrs[i].oid, values: vs }));
            assert forall|a: int, b: int| 0 <= a < b < r.len() implies r[a].oid != r[b].oid by {
                assert(r[a].oid == attrs[a].oid);
                assert(r[b].oid == attrs[b].oid);
            }
            assert forall|oid: Seq<char>| has_oid(r, oid) <==> (has_oid(attrs, oid) || oid
                == new.oid) by {
                if has_oid(r, oid) {
                    let k = choose|k: int| 0 <= k < r.len() && #[trigger] r[k].oid == oid;
                    assert(attrs[k].oid == oid);
                }
                if has_oid(attrs, oid) {
                    let k = choose|k: int| 0 <= k < attrs.len() && #[trigger] attrs[k].oid == oid;
                    assert(r[k].oid == oid);
                }
                if oid == new.oid {
                    assert(r[i].oid == oid);
                }
            }
        },
    }
}

/// **Attributes are keyed by type.** Merging new attributes into a list of
/// attributes of distinct types gives a list of attributes of distinct
/// types, holding exactly the types of both: one that is already present
/// gets the new values instead of standing a second time.
pub proof fn law_merge_keeps_one_attribute_per_type(attrs: Seq<AttrModel>, new: Seq<AttrModel>)
    requires
        oids_unique(attrs),
        spec_merge_attrs(attrs, new) is Some,
    ensures
        oids_unique(spec_merge_attrs(attrs, new)->Some_0),
        forall|oid: Seq<char>|
            has_oid(spec_merge_attrs(attrs, new)->Some_0, oid) <==> (has_oid(attrs, oid) || has_oid(
                new,
                oid,
            )),
    decreases new.len(),
{
    if new.len() > 0 {
        let init = new.drop_last();
        law_merge_keeps_one_attribute_per_type(attrs, init);
        let acc = spec_merge_attrs(attrs, init)->Some_0;
        lemma_merge_attr(acc, new.last());
        assert forall|oid: Seq<char>| has_oid(new, oid) <==> (has_oid(init, oid) || oid
            == new.last().oid) by {
            if has_oid(new, oid) {
                let k = choose|k: int| 0 <= k < new.len() && #[trigger] new[k].oid == oid;
                if k < init.len() {
                    assert(init[k].oid == oid);
                }
            }
            if has_oid(init, oid) {
                let k = choose|k: int| 0 <= k < init.len() && #[trigger] init[k].oid == oid;
                assert(new[k].oid == oid);
            }
            if oid == new.last().oid {
                assert(new[new.len() - 1].oid == oid);
            }
        }
    } else {
        assert forall|oid: Seq<char>| !has_oid(new, oid) by {}
    }
}

/// The children of a `SignerInfo` split into those kept verbatim and the
/// attributes decoded from its `[1]` unsigned-attribute sets.
pub struct SplitSignerInfo {
    pub kept: Seq<Seq<u8>>,
    pub attrs: Seq<AttrModel>,
}

/// `c` with its first byte replaced.
pub open spec fn retag(c: Seq<u8>, tag: u8) -> Seq<u8> {
    c.update(0, tag)
}

/// The children `cs` split; `None` when an unsigned-attribute set does not
/// decode.
pub open spec fn spec_split(cs: Seq<Seq<u8>>) -> Option<SplitSignerInfo>
    decreases cs.len(),
{
    if cs.len() == 0 {
        Some(SplitSignerInfo { kept: Seq::empty(), attrs: Seq::empty() })
    } else {
        match spec_split(cs.drop_last()) {
            None => None,
            Some(acc) => {
                let c = cs.last();
                if c.len() > 0 && c[0] == 0xA1 {
                    match spec_decode_attribute_set(retag(c, 0x31)) {
                        None => None,
                        Some(a) => Some(SplitSignerInfo { kept: acc.kept, attrs: acc.attrs + a }),
                    }
                } else {
                    Some(SplitSignerInfo { kept: acc.kept.push(c), attrs: acc.attrs })
                }
            },
        }
    }
}

/// `si` with `new` merged into its unsigned attributes. Every child other
/// than the unsigned attributes is kept byte for byte and in place; the
/// unsigned attributes are rewritten as one `[1] IMPLICIT` set at the end.
pub open spec fn spec_with_unsigned(si: Seq<u8>, new: Seq<AttrModel>) -> Result<Seq<u8>, CmsFault> {
    match spec_children_of(si) {
        None => Err(CmsFault::Der),
        Some(cs) => match spec_split(cs) {
            None => Err(CmsFault::Der),
            Some(split) => match spec_merge_attrs(split.attrs, new) {
                None => Err(CmsFault::Builder),
                Some(attrs) => {
                    if attrs.len() == 0 {
                        Ok(spec_encode_tlv(0x30, split.kept.flatten()))
                    } else {
                        match spec_encode_attribute_set(attrs) {
                            None => Err(CmsFault::Builder),
                            Some(d) => match spec_value_of(d) {
                                None => Err(CmsFault::Der),
                                Some(v) => Ok(
                                    spec_encode_tlv(
                                        0x30,
                                        split.kept.push(spec_encode_tlv(0xA1, v)).flatten(),
                                    ),
                                ),
                            },
                        }
                    }
                },
            },
        },
    }
}

/// Whether `values` holds `x`.
fn contains_value(values: &Vec<Vec<u8>>, x: &[u8]) -> (r: bool)
    ensures
        r == vec_views(values@).contains(x@),
{
    let mut i: usize = 0;
    while i < values.len()
        invariant
            i <= values@.len(),
            forall|k: int| 0 <= k < i ==> vec_views(values@)[k] != x@,
        decreases values.len() - i,
    {
        if slice_eq(values[i].as_slice(), x) {
            assert(vec_views(values@)[i as int] == x@);
            return true;
        }
        i = i + 1;
    }
    false
}

/// The index of the first attribute of type `oid`.
fn find_oid(attrs: &Vec<CmsAttribute>, oid: &String) -> (r: Option<usize>)
    ensures
        match r {
            None => spec_find_oid(attr_views(attrs@), oid@) is None,
            Some(i) => spec_find_oid(attr_views(attrs@), oid@) == Some(i as int) && i < attrs@.len(),
        },
{
    let ghost av = attr_views(attrs@);
    let mut i: usize = 0;
    assert(av.skip(0) =~= av);
    while i < attrs.len()
        invariant
            i <= attrs@.len(),
            av == attr_views(attrs@),
            spec_find_oid(av, oid@) == match spec_find_oid(av.skip(i as int), oid@) {
                Some(k) => Some(k + i),
                None => None,
            },
        decreases attrs.len() - i,
    {
        assert(av.skip(i as int)[0] == av[i as int]);
        assert(av.skip(i as int).drop_first() =~= av.skip(i + 1));
        if attrs[i].oid == *oid {
            return Some(i);
        }
        i = i + 1;
    }
    None
}

/// Add `new`'s values to `values`; `false` (and `values` in an unspecified
/// state) when one is already present.
fn add_values(values: &mut Vec<Vec<u8>>, new: &Vec<Vec<u8>>) -> (ok: bool)
    ensures
        ok == spec_add_values(vec_views(old(values)@), vec_views(new@)) is Some,
        ok ==> spec_add_values(vec_views(old(values)@), vec_views(new@)) == Some(
            vec_views(final(values)@),
        ),
{
    let ghost base = vec_views(values@);
    let ghost nv = vec_views(new@);
    assert(base == vec_views(old(values)@));
    let mut k: usize = 0;
    assert(nv.take(0) =~= Seq::<Seq<u8>>::empty());
    while k < new.len()
        invariant
            k <= new@.len(),
            nv == vec_views(new@),
            spec_add_values(base, nv.take(k as int)) == Some(vec_views(values@)),
            base == vec_views(old(values)@),
        decreases new.len() - k,
    {
        proof {
            assert(nv.take(k + 1).drop_last() =~= nv.take(k as int));
            assert(nv.take(k + 1).last() == new@[k as int]@);
        }
        if contains_value(values, new[k].as_slice()) {
            proof {
                assert(spec_add_values(base, nv.take(k + 1)) is None);
                lemma_add_values_none_sticks(base, nv, k + 1);
                assert(spec_add_values(vec_views(old(values)@), vec_views(new@)) is None);
            }
            return false;
        }
        let c = copy_bytes(new[k].as_slice());
        proof {
            assert(vec_views(values@.push(c)) =~= vec_views(values@).push(c@));
        }
        values.push(c);
        k = k + 1;
    }
    assert(nv.take(k as int) =~= nv);
    true
}

/// Once adding values fails, adding more fails too.
proof fn lemma_add_values_none_sticks(base: Seq<Seq<u8>>, nv: Seq<Seq<u8>>, k: int)
    requires
        0 <= k <= nv.len(),
        spec_add_values(base, nv.take(k)) is None,
    ensures
        spec_add_values(base, nv) is None,
    decreases nv.len() - k,
{
    if k < nv.len() {
        assert(nv.take(k + 1).drop_last() =~= nv.take(k));
        lemma_add_values_none_sticks(base, nv, k + 1);
    } else {
        assert(nv.take(k) =~= nv);
    }
}

/// Once merging fails, merging more fails too.
proof fn lemma_merge_none_sticks(base: Seq<AttrModel>, nv: Seq<AttrModel>, k: int)
    requires
        0 <= k <= nv.len(),
        spec_merge_attrs(base, nv.take(k)) is None,
    ensures
        spec_merge_attrs(base, nv) is None,
    decreases nv.len() - k,
{
    if k < nv.len() {
        assert(nv.take(k + 1).drop_last() =~= nv.take(k));
        lemma_merge_none_sticks(base, nv, k + 1);
    } else {
        assert(nv.take(k) =~= nv);
    }
}

/// Merge `new_attrs` into `attrs`; `false` when a value is already present.
fn merge_attrs(attrs: &mut Vec<CmsAttribute>, new_attrs: &Vec<CmsAttribute>) -> (ok: bool)
    ensures
        ok == spec_merge_attrs(attr_views(old(attrs)@), attr_views(new_attrs@)) is Some,
        ok ==> spec_merge_attrs(attr_views(old(attrs)@), attr_views(new_attrs@)) == Some(
            attr_views(final(attrs)@),
        ),
{
    let ghost base = attr_views(attrs@);
    let ghost nv = attr_views(new_attrs@);
    assert(base == attr_views(old(attrs)@));
    let mut k: usize = 0;
    assert(nv.take(0) =~= Seq::<AttrModel>::empty());
    while k < new_attrs.len()
        invariant
            k <= new_attrs@.len(),
            nv == attr_views(new_attrs@),
            spec_merge_attrs(base, nv.take(k as int)) == Some(attr_views(attrs@)),
            base == attr_views(old(attrs)@),
        decreases new_attrs.len() - k,
    {
        let a = &new_attrs[k];
        proof {
            assert(nv.take(k + 1).drop_last() =~= nv.take(k as int));
            assert(nv.take(k + 1).last() == a@);
        }
        let ghost acc = attr_views(attrs@);
        match find_oid(attrs, &a.oid) {
            Some(i) => {
                let mut vals = copy_vecs(&attrs[i].values);
                let ghost before_vals = vec_views(vals@);
                assert(acc[i as int] == attrs@[i as int]@);
                assert(before_vals == acc[i as int].values);
                if !add_values(&mut vals, &a.values) {
                    proof {
                        assert(spec_find_oid(acc, a@.oid) == Some(i as int));
                        assert(spec_add_values(before_vals, vec_views(a.values@)) is None);
                        assert(spec_add_values(acc[i as int].values, a@.values) is None);
                        assert(spec_merge_attr(acc, a@) is None);
                        assert(spec_merge_attrs(base, nv.take(k + 1)) is None);
                        lemma_merge_none_sticks(base, nv, k + 1);
                        assert(spec_merge_attrs(attr_views(old(attrs)@), attr_views(new_attrs@)) is None);
                    }
                    return false;
                }
                let oid = attrs[i].oid.clone();
                let ghost vv = vec_views(vals@);
                attrs.set(i, CmsAttribute { oid, values: vals });
                proof {
                                        assert(attr_views(attrs@) =~= acc.update(
                        i as int,
                        AttrModel { oid: acc[i as int].oid, values: vv },
                    ));
                }
            },
            None => {
                let na = CmsAttribute { oid: a.oid.clone(), values: copy_vecs(&a.values) };
                proof {
                    assert(attr_views(attrs@.push(na)) =~= acc.push(a@));
                }
                attrs.push(na);
            },
        }
        k = k + 1;
    }
    assert(nv.take(k as int) =~= nv);
    true
}

/// Return `signer_info` with `new_attrs` merged into its unsigned attributes.
///
/// Everything else — `signedAttrs` above all — is copied byte for byte, so the
/// signature this `SignerInfo` carries keeps verifying. Attributes are keyed by
/// type, so adding one that is already present adds its values to the
/// existing attribute rather than producing a second one.
pub fn signer_info_with_unsigned(signer_info: &[u8], new_attrs: Vec<CmsAttribute>) -> (r: Result<
    Vec<u8>,
    CmsError,
>)
    ensures
        bytes_result(r) == spec_with_unsigned(signer_info@, attr_views(new_attrs@)),
{
    let cs = children_of(signer_info)?;
    let ghost cv = slice_views(cs@);
    let mut fields: Vec<Vec<u8>> = Vec::new();
    let mut attrs: Vec<CmsAttribute> = Vec::new();
    let mut i: usize = 0;
    assert(cv.take(0) =~= Seq::<Seq<u8>>::empty());
    assert(vec_views(fields@) =~= Seq::<Seq<u8>>::empty());
    assert(attr_views(attrs@) =~= Seq::<AttrModel>::empty());
    while i < cs.len()
        invariant
            i <= cs@.len(),
            cv == slice_views(cs@),
            spec_children_of(signer_info@) == Some(cv),
            forall|k: int| 0 <= k < cv.len() ==> is_single_tlv(#[trigger] cv[k]),
            spec_split(cv.take(i as int)) == Some(
                SplitSignerInfo { kept: vec_views(fields@), attrs: attr_views(attrs@) },
            ),
        decreases cs.len() - i,
    {
        let child = cs[i];
        proof {
            assert(cv[i as int] == child@);
            lemma_tlv_bounds(child@);
            assert(cv.take(i + 1).drop_last() =~= cv.take(i as int));
            assert(cv.take(i + 1).last() == child@);
        }
        if child[0] == 0xA1 {
            let mut as_set = copy_bytes(child);
            as_set.set(0, 0x31);
            assert(as_set@ =~= retag(child@, 0x31));
            match decode_attribute_set(as_set.as_slice()) {
                Some(existing) => {
                    let ghost before = attr_views(attrs@);
                    let mut existing = existing;
                    let ghost ev = attr_views(existing@);
                    attrs.append(&mut existing);
                    assert(attr_views(attrs@) =~= before + ev);
                },
                None => {
                    proof {
                        lemma_split_none_sticks(cv, i + 1);
                    }
                    return Err(der_error("parse unsigned attributes"));
                },
            }
        } else {
            let c = copy_bytes(child);
            assert(vec_views(fields@.push(c)) =~= vec_views(fields@).push(c@));
            fields.push(c);
        }
        i = i + 1;
    }
    assert(cv.take(i as int) =~= cv);
    let ghost split_attrs = attr_views(attrs@);
    if !merge_attrs(&mut attrs, &new_attrs) {
        return Err(builder_error("a value is already present in the attribute"));
    }
    if attrs.len() > 0 {
        let der = match encode_attribute_set(&attrs) {
            Some(d) => d,
            None => {
                return Err(builder_error("rebuild unsigned attributes"));
            },
        };
        let v = match value_of(der.as_slice()) {
            Ok(v) => v,
            Err(e) => {
                return Err(e);
            },
        };
        let unsigned = tlv(0xA1, v);
        let ghost d0 = vec_views(fields@);
        assert(vec_views(fields@.push(unsigned)) =~= d0.push(unsigned@));
        fields.push(unsigned);
    }
    Ok(sequence(fields.as_slice()))
}

/// Once splitting fails, splitting more fails too.
proof fn lemma_split_none_sticks(cs: Seq<Seq<u8>>, k: int)
    requires
        0 <= k <= cs.len(),
        spec_split(cs.take(k)) is None,
    ensures
        spec_split(cs) is None,
    decreases cs.len() - k,
{
    if k < cs.len() {
        assert(cs.take(k + 1).drop_last() =~= cs.take(k));
        lemma_split_none_sticks(cs, k + 1);
    } else {
        assert(cs.take(k) =~= cs);
    }
}

/// **A signer's unsigned attributes are rewritten by merging by type.** When
/// [`spec_with_unsigned`] succeeds, the attributes it writes are the old
/// ones with the new merged in: when the old ones had distinct types, so do
/// the written ones, holding exactly the types of the old and the new; all
/// other children of the `SignerInfo` are written first, as they were.
pub proof fn law_unsigned_attributes_merged_by_type(si: Seq<u8>, new: Seq<AttrModel>)
    requires
        spec_with_unsigned(si, new) is Ok,
    ensures
        ({
            let split = spec_split(spec_children_of(si)->Some_0)->Some_0;
            &&& spec_merge_attrs(split.attrs, new) is Some
            &&& oids_unique(split.attrs) ==> oids_unique(spec_merge_attrs(split.attrs, new)->Some_0)
            &&& oids_unique(split.attrs) ==> forall|oid: Seq<char>|
                has_oid(spec_merge_attrs(split.attrs, new)->Some_0, oid) <==> (has_oid(
                    split.attrs,
                    oid,
                ) || has_oid(new, oid))
            &&& spec_merge_attrs(split.attrs, new)->Some_0.len() > 0 ==> spec_with_unsigned(si, new)
                == Ok::<Seq<u8>, CmsFault>(
                spec_encode_tlv(
                    0x30,
                    split.kept.push(
                        spec_encode_tlv(
                            0xA1,
                            spec_value_of(
                                spec_encode_attribute_set(
                                    spec_merge_attrs(split.attrs, new)->Some_0,
                                )->Some_0,
                            )->Some_0,
                        ),
                    ).flatten(),
                ),
            )
        }),
{
    let split = spec_split(spec_children_of(si)->Some_0)->Some_0;
    if oids_unique(split.attrs) {
        law_merge_keeps_one_attribute_per_type(split.attrs, new);
    }
}

} // verus!
