//! What the composition functions leave alone.
//!
//! Re-encoding a `SignedData` sorts its `SET OF` fields and nothing else, so
//! reading back what [`spec_encode_signed_data`] writes gives the same pieces,
//! sorted. From that follow the promises the composition functions make: a
//! signature value, the enveloped content and the signed attributes of a
//! signer survive every rewrite.

use vstd::prelude::*;

use crate::error::CmsFault;
use super::tlv::{
    is_single_tlv, lemma_children_are_tlvs, lemma_children_of_flatten, lemma_tlv_bounds,
    lemma_tlv_roundtrip, spec_children, spec_encode_tlv, spec_tlv, spec_value_of,
};
use super::set_order::{insert_sorted, lex_lt, sort_set, spec_set_of};
use super::signed_data::{
    spec_add_absent, spec_assemble, spec_children_of, spec_content_info, spec_econtent,
    spec_encode_signed_data, spec_extract_content, spec_first_octets, spec_merge_certificates,
    spec_parse_signed_data, spec_signature_value, spec_signed_data_fields,
    spec_signed_data_oid, spec_signer_info_signature, spec_tail, spec_tail_step, SignedDataModel,
    TailFields,
};
use super::attributes::{
    spec_encode_attribute_set, spec_merge_attrs, spec_split, spec_with_unsigned,
    AttrModel, SplitSignerInfo,
};
use super::cades::{spec_add_signer, spec_add_unsigned, spec_add_unsigned_at, spec_countersign};

verus! {

/// The longest value the DER reader takes: lengths of at most four octets.
pub open spec fn reader_limit() -> nat {
    0x1_0000_0000
}

/// Every element of `s` is one complete TLV.
pub open spec fn all_single(s: Seq<Seq<u8>>) -> bool {
    forall|i: int| 0 <= i < s.len() ==> is_single_tlv(#[trigger] s[i])
}

/// A `SignedData` model that [`spec_parse_signed_data`] can give back.
pub open spec fn wf_model(m: SignedDataModel) -> bool {
    &&& m.content_type == spec_signed_data_oid()
    &&& is_single_tlv(m.version)
    &&& is_single_tlv(m.encap_content_info)
    &&& all_single(m.digest_algorithms)
    &&& (m.certificates matches Some(c) ==> all_single(c))
    &&& (m.crls matches Some(c) ==> is_single_tlv(c) && c[0] == 0xA1)
    &&& all_single(m.signer_infos)
    &&& m.signer_infos.len() > 0
}

/// `m` with each `SET OF` in DER order.
pub open spec fn sorted_model(m: SignedDataModel) -> SignedDataModel {
    SignedDataModel {
        digest_algorithms: sort_set(m.digest_algorithms),
        certificates: match m.certificates {
            Some(c) => Some(sort_set(c)),
            None => None,
        },
        signer_infos: sort_set(m.signer_infos),
        ..m
    }
}

// --- sorting keeps the elements ----------------------------------------------

proof fn lemma_insert_sorted_elems(x: Seq<u8>, s: Seq<Seq<u8>>)
    ensures
        insert_sorted(x, s).len() == s.len() + 1,
        forall|y: Seq<u8>| #[trigger] insert_sorted(x, s).contains(y) <==> (y == x || s.contains(y)),
    decreases s.len(),
{
    if s.len() == 0 {
        assert(insert_sorted(x, s) =~= seq![x]);
        assert forall|y: Seq<u8>| #[trigger] insert_sorted(x, s).contains(y) <==> (y == x
            || s.contains(y)) by {
            if insert_sorted(x, s).contains(y) {
                let k = choose|k: int| 0 <= k < insert_sorted(x, s).len() && insert_sorted(x, s)[k] == y;
                assert(k == 0);
            }
            if y == x {
                assert(insert_sorted(x, s)[0] == y);
            }
        }
    } else if lex_lt(s[0], x) {
        let t = s.drop_first();
        lemma_insert_sorted_elems(x, t);
        let r = insert_sorted(x, s);
        assert(r == seq![s[0]] + insert_sorted(x, t));
        assert forall|y: Seq<u8>| #[trigger] r.contains(y) <==> (y == x || s.contains(y)) by {
            if r.contains(y) {
                let k = choose|k: int| 0 <= k < r.len() && r[k] == y;
                if k == 0 {
                    assert(s[0] == y);
                } else {
                    assert(insert_sorted(x, t)[k - 1] == y);
                    assert(insert_sorted(x, t).contains(y));
                    if y != x {
                        assert(t.contains(y));
                        let j = choose|j: int| 0 <= j < t.len() && t[j] == y;
                        assert(s[j + 1] == y);
                    }
                }
            }
            if y == x {
                assert(insert_sorted(x, t).contains(y));
                let j = choose|j: int| 0 <= j < insert_sorted(x, t).len() && insert_sorted(x, t)[j] == y;
                assert(r[j + 1] == y);
            } else if s.contains(y) {
                let j = choose|j: int| 0 <= j < s.len() && s[j] == y;
                if j == 0 {
                    assert(r[0] == y);
                } else {
                    assert(t[j - 1] == y);
                    assert(insert_sorted(x, t).contains(y));
                    let i = choose|i: int| 0 <= i < insert_sorted(x, t).len() && insert_sorted(x, t)[i] == y;
                    assert(r[i + 1] == y);
                }
            }
        }
    } else {
        let r = insert_sorted(x, s);
        assert(r == seq![x] + s);
        assert forall|y: Seq<u8>| #[trigger] r.contains(y) <==> (y == x || s.contains(y)) by {
            if r.contains(y) {
                let k = choose|k: int| 0 <= k < r.len() && r[k] == y;
                if k > 0 {
                    assert(s[k - 1] == y);
                }
            }
            if y == x {
                assert(r[0] == y);
            } else if s.contains(y) {
                let j = choose|j: int| 0 <= j < s.len() && s[j] == y;
                assert(r[j + 1] == y);
            }
        }
    }
}

/// Sorting a set keeps its elements and its size.
pub proof fn lemma_sort_set_elems(s: Seq<Seq<u8>>)
    ensures
        sort_set(s).len() == s.len(),
        forall|y: Seq<u8>| #[trigger] sort_set(s).contains(y) <==> s.contains(y),
    decreases s.len(),
{
    if s.len() > 0 {
        let t = s.drop_first();
        lemma_sort_set_elems(t);
        lemma_insert_sorted_elems(s[0], sort_set(t));
        assert forall|y: Seq<u8>| #[trigger] sort_set(s).contains(y) <==> s.contains(y) by {
            if s.contains(y) && y != s[0] {
                let j = choose|j: int| 0 <= j < s.len() && s[j] == y;
                assert(t[j - 1] == y);
                assert(t.contains(y));
            }
            if t.contains(y) {
                let j = choose|j: int| 0 <= j < t.len() && t[j] == y;
                assert(s[j + 1] == y);
            }
            if y == s[0] {
                assert(s.contains(y));
            }
        }
    }
}

proof fn lemma_sorted_all_single(s: Seq<Seq<u8>>)
    requires
        all_single(s),
    ensures
        all_single(sort_set(s)),
{
    lemma_sort_set_elems(s);
    assert forall|i: int| 0 <= i < sort_set(s).len() implies is_single_tlv(#[trigger] sort_set(s)[i]) by {
        assert(sort_set(s).contains(sort_set(s)[i]));
        assert(s.contains(sort_set(s)[i]));
        let j = choose|j: int| 0 <= j < s.len() && s[j] == sort_set(s)[i];
        assert(is_single_tlv(s[j]));
    }
}

/// A one-element set is already sorted.
proof fn lemma_sort_single(x: Seq<u8>)
    ensures
        sort_set(seq![x]) == seq![x],
{
    assert(seq![x].drop_first() =~= Seq::<Seq<u8>>::empty());
    assert(seq![x][0] == x);
    assert(sort_set(Seq::<Seq<u8>>::empty()) == Seq::<Seq<u8>>::empty());
    assert(insert_sorted(x, Seq::<Seq<u8>>::empty()) == seq![x]);
}

// --- reading back what was written ---------------------------------------------

/// A `SET OF` written over complete TLVs reads back as those TLVs, sorted.
proof fn lemma_set_reads_back(tag: u8, items: Seq<Seq<u8>>)
    requires
        all_single(items),
        sort_set(items).flatten().len() < reader_limit(),
    ensures
        is_single_tlv(spec_set_of(tag, items)),
        spec_set_of(tag, items)[0] == tag,
        spec_children_of(spec_set_of(tag, items)) == Some(sort_set(items)),
{
    lemma_sorted_all_single(items);
    lemma_tlv_roundtrip(tag, sort_set(items).flatten());
    lemma_children_of_flatten(sort_set(items));
}

/// The object identifier of `id-signedData` is one complete TLV.
proof fn lemma_oid_single()
    ensures
        is_single_tlv(spec_signed_data_oid()),
{
    let d = spec_signed_data_oid();
    assert(d.len() == 11);
    assert(d[1] == 9u8);
    assert(spec_tlv(d) == Some((0x06u8, 2int, 9int)));
}

proof fn lemma_two_flatten(a: Seq<u8>, b: Seq<u8>)
    ensures
        seq![a, b].flatten() == a + b,
{
    reveal_with_fuel(Seq::flatten, 3);
    assert(seq![a, b].drop_first().drop_first() =~= Seq::<Seq<u8>>::empty());
    assert(seq![a, b].drop_first() =~= seq![b]);
    assert(seq![a, b].flatten() =~= a + b);
}

proof fn lemma_element_le_flatten(s: Seq<Seq<u8>>, i: int)
    requires
        0 <= i < s.len(),
    ensures
        s[i].len() <= s.flatten().len(),
{
    s.lemma_flatten_length_ge_single_element_length(i);
    s.lemma_flatten_and_flatten_alt_are_equivalent();
}

/// The fields of the `SignedData` that [`spec_encode_signed_data`] writes.
pub open spec fn encoded_fields(m: SignedDataModel) -> Seq<Seq<u8>> {
    let head = seq![m.version, spec_set_of(0x31, m.digest_algorithms), m.encap_content_info];
    let certs = match m.certificates {
        Some(c) => seq![spec_set_of(0xA0, c)],
        None => Seq::empty(),
    };
    let crls = match m.crls {
        Some(c) => seq![c],
        None => Seq::empty(),
    };
    head + certs + crls + seq![spec_set_of(0x31, m.signer_infos)]
}

/// Each field written for `m` is shorter than the whole encoding.
proof fn lemma_field_sizes(m: SignedDataModel)
    ensures
        ({
            let fields = encoded_fields(m);
            let sd = spec_encode_tlv(0x30, fields.flatten());
            let w = spec_encode_tlv(0xA0, sd);
            &&& spec_encode_signed_data(m) == spec_encode_tlv(0x30, m.content_type + w)
            &&& (m.content_type + w).len() < spec_encode_signed_data(m).len()
            &&& sd.len() < w.len() <= (m.content_type + w).len()
            &&& fields.flatten().len() < sd.len()
            &&& forall|i: int| 0 <= i < fields.len() ==> (#[trigger] fields[i]).len()
                <= fields.flatten().len()
        }),
{
    let fields = encoded_fields(m);
    assert forall|i: int| 0 <= i < fields.len() implies (#[trigger] fields[i]).len()
        <= fields.flatten().len() by {
        lemma_element_le_flatten(fields, i);
    }
}

/// The content of a `SET OF` is shorter than the `SET OF`.
proof fn lemma_set_content_size(tag: u8, items: Seq<Seq<u8>>)
    ensures
        sort_set(items).flatten().len() < spec_set_of(tag, items).len(),
        forall|i: int| 0 <= i < items.len() ==> (#[trigger] items[i]).len() < spec_set_of(
            tag,
            items,
        ).len(),
{
    lemma_sort_set_elems(items);
    assert forall|i: int| 0 <= i < items.len() implies (#[trigger] items[i]).len() < spec_set_of(
        tag,
        items,
    ).len() by {
        assert(items.contains(items[i]));
        assert(sort_set(items).contains(items[i]));
        let j = choose|j: int| 0 <= j < sort_set(items).len() && sort_set(items)[j] == items[i];
        lemma_element_le_flatten(sort_set(items), j);
    }
}

/// The `ContentInfo` written for `m` reads back as its `contentType` and the
/// wrapped `SignedData`.
proof fn lemma_content_info_reads_back(m: SignedDataModel)
    requires
        wf_model(m),
        spec_encode_signed_data(m).len() < reader_limit(),
    ensures
        spec_content_info(spec_encode_signed_data(m)) == Ok::<Seq<Seq<u8>>, CmsFault>(
            seq![m.content_type, spec_encode_tlv(0xA0, spec_encode_tlv(0x30, encoded_fields(m).flatten()))],
        ),
{
    let fields = encoded_fields(m);
    let sd = spec_encode_tlv(0x30, fields.flatten());
    let w = spec_encode_tlv(0xA0, sd);
    let ct = m.content_type;
    let enc = spec_encode_signed_data(m);
    lemma_field_sizes(m);
    lemma_tlv_roundtrip(0x30, ct + w);
    lemma_tlv_roundtrip(0xA0, sd);
    lemma_oid_single();
    lemma_two_flatten(ct, w);
    lemma_children_of_flatten(seq![ct, w]);
    let (t0, h0, l0) = spec_tlv(enc).unwrap();
    assert(enc.subrange(h0, h0 + l0) == ct + w);
}

/// The `SignedData` written for `m` reads back as the fields written.
proof fn lemma_fields_read_back(m: SignedDataModel)
    requires
        wf_model(m),
        spec_encode_signed_data(m).len() < reader_limit(),
    ensures
        spec_signed_data_fields(spec_encode_tlv(0xA0, spec_encode_tlv(0x30, encoded_fields(m).flatten())))
            == Ok::<Seq<Seq<u8>>, CmsFault>(encoded_fields(m)),
        spec_children_of(encoded_fields(m)[1]) == Some(sort_set(m.digest_algorithms)),
        all_single(encoded_fields(m)),
{
    let fields = encoded_fields(m);
    let sd = spec_encode_tlv(0x30, fields.flatten());
    let w = spec_encode_tlv(0xA0, sd);
    lemma_field_sizes(m);
    lemma_tlv_roundtrip(0xA0, sd);
    lemma_tlv_roundtrip(0x30, fields.flatten());
    lemma_set_content_size(0x31, m.digest_algorithms);
    lemma_set_content_size(0x31, m.signer_infos);
    assert(fields[1] == spec_set_of(0x31, m.digest_algorithms));
    assert(fields[fields.len() - 1] == spec_set_of(0x31, m.signer_infos));
    lemma_set_reads_back(0x31, m.digest_algorithms);
    lemma_set_reads_back(0x31, m.signer_infos);
    if let Some(c) = m.certificates {
        assert(fields[3] == spec_set_of(0xA0, c));
        lemma_set_content_size(0xA0, c);
        lemma_set_reads_back(0xA0, c);
    }
    assert(all_single(fields)) by {
        assert forall|i: int| 0 <= i < fields.len() implies is_single_tlv(#[trigger] fields[i]) by {
            if i == 0 {
            } else if i == 1 {
            } else if i == 2 {
            } else if i == fields.len() - 1 {
            } else if i == 3 && m.certificates is Some {
            } else {
                assert(m.crls is Some);
                assert(fields[i] == m.crls.unwrap());
            }
        }
    }
    lemma_children_of_flatten(fields);
    let (t1, h1, l1) = spec_tlv(sd).unwrap();
    assert(sd.subrange(h1, h1 + l1) == fields.flatten());
    assert(spec_value_of(w) == Some(sd));
}

/// The trailing fields written for `m` read back as its sorted certificates,
/// its CRLs and its sorted signers.
proof fn lemma_tail_reads_back(m: SignedDataModel)
    requires
        wf_model(m),
        spec_encode_signed_data(m).len() < reader_limit(),
    ensures
        spec_tail(encoded_fields(m).skip(3)) == Ok::<TailFields, CmsFault>(
            TailFields {
                certificates: match m.certificates {
                    Some(c) => Some(sort_set(c)),
                    None => None,
                },
                crls: m.crls,
                signer_infos: sort_set(m.signer_infos),
            },
        ),
{
    let fields = encoded_fields(m);
    lemma_field_sizes(m);
    let signers_set = spec_set_of(0x31, m.signer_infos);
    lemma_set_content_size(0x31, m.signer_infos);
    assert(fields[fields.len() - 1] == signers_set);
    lemma_set_reads_back(0x31, m.signer_infos);
    let certs_part = match m.certificates {
        Some(c) => seq![spec_set_of(0xA0, c)],
        None => Seq::<Seq<u8>>::empty(),
    };
    let crls_part = match m.crls {
        Some(c) => seq![c],
        None => Seq::<Seq<u8>>::empty(),
    };
    if let Some(c) = m.certificates {
        assert(fields[3] == spec_set_of(0xA0, c));
        lemma_set_content_size(0xA0, c);
        lemma_set_reads_back(0xA0, c);
    }
    let tail = fields.skip(3);
    assert(tail =~= certs_part + crls_part + seq![signers_set]);
    let empty_acc = TailFields { certificates: None, crls: None, signer_infos: Seq::empty() };
    assert(spec_tail(Seq::<Seq<u8>>::empty()) == Ok::<TailFields, CmsFault>(empty_acc));
    let acc1 = TailFields {
        certificates: match m.certificates {
            Some(c) => Some(sort_set(c)),
            None => None,
        },
        ..empty_acc
    };
    assert(spec_tail(certs_part) == Ok::<TailFields, CmsFault>(acc1)) by {
        if let Some(c) = m.certificates {
            assert(certs_part.drop_last() =~= Seq::<Seq<u8>>::empty());
        } else {
            assert(certs_part =~= Seq::<Seq<u8>>::empty());
        }
    }
    let acc2 = TailFields { crls: m.crls, ..acc1 };
    assert(spec_tail(certs_part + crls_part) == Ok::<TailFields, CmsFault>(acc2)) by {
        if let Some(c) = m.crls {
            assert((certs_part + crls_part).drop_last() =~= certs_part);
            assert((certs_part + crls_part).last() == c);
        } else {
            assert(certs_part + crls_part =~= certs_part);
        }
    }
    assert(tail.drop_last() =~= certs_part + crls_part);
    assert(tail.last() == signers_set);
}

/// Reading back what [`spec_encode_signed_data`] writes gives the same
/// pieces with each `SET OF` sorted, as long as the encoding stays within
/// what the reader takes.
pub proof fn lemma_parse_encode(m: SignedDataModel)
    requires
        wf_model(m),
        spec_encode_signed_data(m).len() < reader_limit(),
    ensures
        spec_parse_signed_data(spec_encode_signed_data(m)) == Ok::<SignedDataModel, CmsFault>(
            sorted_model(m),
        ),
{
    lemma_content_info_reads_back(m);
    lemma_fields_read_back(m);
    lemma_tail_reads_back(m);
    lemma_sort_set_elems(m.signer_infos);
}

/// Every piece that [`spec_parse_signed_data`] gives back is a complete TLV.
pub proof fn lemma_parse_wf(cms: Seq<u8>)
    ensures
        spec_parse_signed_data(cms) matches Ok(m) ==> wf_model(m),
{
    if let Ok(m) = spec_parse_signed_data(cms) {
        let ci = spec_content_info(cms)->Ok_0;
        let fields = spec_signed_data_fields(ci[1])->Ok_0;
        let (t, h, l) = spec_tlv(cms).unwrap();
        lemma_children_are_tlvs(cms.subrange(h, h + l));
        let inner = spec_value_of(ci[1]).unwrap();
        let (t2, h2, l2) = spec_tlv(inner).unwrap();
        lemma_children_are_tlvs(inner.subrange(h2, h2 + l2));
        lemma_children_are_tlvs(spec_value_of(fields[1]).unwrap());
        lemma_tail_wf(fields.skip(3));
        assert(is_single_tlv(fields[0]));
        assert(is_single_tlv(fields[2]));
    }
}

/// The trailing fields, once taken, are complete TLVs.
proof fn lemma_tail_wf(fs: Seq<Seq<u8>>)
    requires
        all_single(fs),
    ensures
        spec_tail(fs) matches Ok(t) ==> {
            &&& (t.certificates matches Some(c) ==> all_single(c))
            &&& (t.crls matches Some(c) ==> is_single_tlv(c) && c[0] == 0xA1)
            &&& all_single(t.signer_infos)
        },
    decreases fs.len(),
{
    if fs.len() > 0 {
        lemma_tail_wf(fs.drop_last());
        let f = fs.last();
        assert(is_single_tlv(f));
        lemma_tlv_bounds(f);
        if let Some(v) = spec_value_of(f) {
            lemma_children_are_tlvs(v);
        }
    }
}

// --- what rewriting a SignerInfo keeps -----------------------------------------

proof fn lemma_first_octets_concat(a: Seq<Seq<u8>>, b: Seq<Seq<u8>>)
    requires
        all_single(a),
    ensures
        spec_first_octets(a + b) == match spec_first_octets(a) {
            Some(v) => Some(v),
            None => spec_first_octets(b),
        },
    decreases a.len(),
{
    if a.len() > 0 {
        assert((a + b).drop_first() =~= a.drop_first() + b);
        assert((a + b)[0] == a[0]);
        assert(is_single_tlv(a[0]));
        assert forall|i: int| 0 <= i < a.drop_first().len() implies is_single_tlv(
            #[trigger] a.drop_first()[i],
        ) by {
            assert(a.drop_first()[i] == a[i + 1]);
        }
        lemma_first_octets_concat(a.drop_first(), b);
    } else {
        assert(a + b =~= b);
    }
}

/// The children kept by [`spec_split`] are those of `cs` not tagged `[1]`,
/// in order, and the signature among them is the same.
proof fn lemma_split_keeps(cs: Seq<Seq<u8>>)
    requires
        all_single(cs),
    ensures
        spec_split(cs) matches Some(sp) ==> {
            &&& spec_first_octets(sp.kept) == spec_first_octets(cs)
            &&& all_single(sp.kept)
            &&& forall|i: int| 0 <= i < sp.kept.len() ==> (#[trigger] sp.kept[i])[0] != 0xA1
            &&& forall|c: Seq<u8>| cs.contains(c) && c[0] != 0xA1 ==> #[trigger] sp.kept.contains(c)
        },
    decreases cs.len(),
{
    if cs.len() > 0 {
        let init = cs.drop_last();
        let c = cs.last();
        lemma_split_keeps(init);
        assert(cs == init + seq![c]);
        assert forall|i: int| 0 <= i < init.len() implies is_single_tlv(#[trigger] init[i]) by {
            assert(init[i] == cs[i]);
        }
        lemma_tlv_bounds(c);
        assert(seq![c][0] == c);
        assert(seq![c].drop_first() =~= Seq::<Seq<u8>>::empty());
        lemma_first_octets_concat(init, seq![c]);
        if let Some(sp) = spec_split(cs) {
            let sp0 = spec_split(init).unwrap();
            assert(seq![c].drop_first() =~= Seq::<Seq<u8>>::empty());
            if c[0] == 0xA1 {
                assert(sp.kept == sp0.kept);
                assert(spec_first_octets(Seq::<Seq<u8>>::empty()) == None::<Seq<u8>>);
                assert(spec_first_octets(seq![c]) == None::<Seq<u8>>);
            } else {
                assert(sp.kept == sp0.kept + seq![c]);
                lemma_first_octets_concat(sp0.kept, seq![c]);
                lemma_first_octets_concat(init, seq![c]);
                assert forall|i: int| 0 <= i < sp.kept.len() implies is_single_tlv(#[trigger] sp.kept[i]) by {
                    if i < sp0.kept.len() {
                        assert(sp.kept[i] == sp0.kept[i]);
                    }
                }
            }
            assert forall|x: Seq<u8>| cs.contains(x) && x[0] != 0xA1 implies #[trigger] sp.kept.contains(x) by {
                let j = choose|j: int| 0 <= j < cs.len() && cs[j] == x;
                if j < init.len() {
                    assert(init[j] == x);
                    assert(init.contains(x));
                    assert(sp0.kept.contains(x));
                    let k = choose|k: int| 0 <= k < sp0.kept.len() && sp0.kept[k] == x;
                    assert(sp.kept[k] == x);
                } else {
                    assert(x == c);
                    assert(sp.kept[sp.kept.len() - 1] == x);
                }
            }
        }
    } else {
        assert(spec_split(cs) == Some(SplitSignerInfo { kept: Seq::empty(), attrs: Seq::empty() }));
    }
}

/// Rewriting the unsigned attributes of a `SignerInfo` keeps its signature
/// value, and keeps every other child — the signed attributes above all —
/// byte for byte.
pub proof fn lemma_with_unsigned_keeps(si: Seq<u8>, new: Seq<AttrModel>)
    requires
        spec_with_unsigned(si, new) is Ok,
        spec_with_unsigned(si, new)->Ok_0.len() < reader_limit(),
    ensures
        is_single_tlv(spec_with_unsigned(si, new)->Ok_0),
        spec_signer_info_signature(spec_with_unsigned(si, new)->Ok_0)
            == spec_signer_info_signature(si),
        forall|c: Seq<u8>|
            spec_children_of(si) matches Some(cs) && cs.contains(c) && c[0] != 0xA1
                ==> #[trigger] spec_children_of(spec_with_unsigned(si, new)->Ok_0).unwrap().contains(
                c,
            ),
{
    let out = spec_with_unsigned(si, new)->Ok_0;
    let cs = spec_children_of(si).unwrap();
    lemma_children_are_tlvs(spec_value_of(si).unwrap());
    lemma_split_keeps(cs);
    let sp = spec_split(cs).unwrap();
    let attrs = spec_merge_attrs(sp.attrs, new).unwrap();
    let items = if attrs.len() == 0 {
        sp.kept
    } else {
        sp.kept.push(spec_encode_tlv(0xA1, spec_value_of(spec_encode_attribute_set(attrs).unwrap()).unwrap()))
    };
    assert(out == spec_encode_tlv(0x30, items.flatten()));
    if attrs.len() > 0 {
        let v = spec_value_of(spec_encode_attribute_set(attrs).unwrap()).unwrap();
        let r = spec_encode_tlv(0xA1, v);
        lemma_element_le_flatten(items, items.len() - 1);
        assert(items[items.len() - 1] == r);
        lemma_tlv_roundtrip(0xA1, v);
        assert(r[0] == 0xA1);
        assert(sp.kept.push(r) == sp.kept + seq![r]);
        lemma_first_octets_concat(sp.kept, seq![r]);
        assert(seq![r].drop_first() =~= Seq::<Seq<u8>>::empty());
        assert(seq![r][0] == r);
        assert(spec_first_octets(Seq::<Seq<u8>>::empty()) == None::<Seq<u8>>);
        assert(spec_first_octets(seq![r]) == None::<Seq<u8>>);
        assert(spec_first_octets(items) == spec_first_octets(sp.kept));
        assert forall|i: int| 0 <= i < items.len() implies is_single_tlv(#[trigger] items[i]) by {
            if i < sp.kept.len() {
                assert(items[i] == sp.kept[i]);
            }
        }
        assert forall|c: Seq<u8>| sp.kept.contains(c) implies #[trigger] items.contains(c) by {
            let k = choose|k: int| 0 <= k < sp.kept.len() && sp.kept[k] == c;
            assert(items[k] == c);
        }
    }
    lemma_tlv_roundtrip(0x30, items.flatten());
    lemma_children_of_flatten(items);
    assert(spec_value_of(out) == Some(items.flatten()));
    assert(spec_children_of(out) == Some(items));
    assert(spec_first_octets(items) == spec_first_octets(cs));
}

// --- the promises of the composition functions ------------------------------

/// Adding absent elements keeps what was there and adds what was new.
proof fn lemma_add_absent_elems(base: Seq<Seq<u8>>, new: Seq<Seq<u8>>)
    ensures
        forall|y: Seq<u8>| #[trigger] spec_add_absent(base, new).contains(y) <==> (base.contains(y)
            || new.contains(y)),
    decreases new.len(),
{
    if new.len() > 0 {
        let init = new.drop_last();
        lemma_add_absent_elems(base, init);
        let acc = spec_add_absent(base, init);
        assert forall|y: Seq<u8>| #[trigger] spec_add_absent(base, new).contains(y) <==> (
        base.contains(y) || new.contains(y)) by {
            if init.contains(y) {
                let j = choose|j: int| 0 <= j < init.len() && init[j] == y;
                assert(new[j] == y);
            }
            if new.contains(y) && y != new.last() {
                let j = choose|j: int| 0 <= j < new.len() && new[j] == y;
                assert(init[j] == y);
                assert(init.contains(y));
            }
            if !acc.contains(new.last()) {
                let r = acc.push(new.last());
                if r.contains(y) && y != new.last() {
                    let j = choose|j: int| 0 <= j < r.len() && r[j] == y;
                    assert(acc[j] == y);
                    assert(acc.contains(y));
                }
                if acc.contains(y) {
                    let j = choose|j: int| 0 <= j < acc.len() && acc[j] == y;
                    assert(r[j] == y);
                }
                if y == new.last() {
                    assert(r[acc.len() as int] == y);
                }
            }
        }
    }
}

/// Adding absent elements keeps the base as a prefix and adds no duplicate.
proof fn lemma_add_absent_nodup(base: Seq<Seq<u8>>, new: Seq<Seq<u8>>)
    requires
        base.no_duplicates(),
    ensures
        spec_add_absent(base, new).no_duplicates(),
        spec_add_absent(base, new).len() >= base.len(),
        spec_add_absent(base, new).take(base.len() as int) == base,
    decreases new.len(),
{
    if new.len() > 0 {
        let init = new.drop_last();
        lemma_add_absent_nodup(base, init);
        let acc = spec_add_absent(base, init);
        if !acc.contains(new.last()) {
            let r = acc.push(new.last());
            assert forall|i: int, j: int| 0 <= i < r.len() && 0 <= j < r.len() && i != j implies r[i]
                != r[j] by {
                if i == acc.len() {
                    assert(!acc.contains(r[j]) || r[j] != new.last());
                    if r[j] == new.last() {
                        assert(acc[j] == r[j]);
                    }
                } else if j == acc.len() {
                    if r[i] == new.last() {
                        assert(acc[i] == r[i]);
                    }
                }
            }
            assert(r.take(base.len() as int) =~= acc.take(base.len() as int));
        }
    }
}

/// **Certificates are merged, not repeated.** Merging certificates into a
/// certificate set without repetitions keeps that set, in its order, in
/// front, adds only those not already present, and so repeats none: the
/// result holds exactly the certificates of both.
pub proof fn law_merge_certificates_adds_absent_only(existing: Seq<Seq<u8>>, new: Seq<Seq<u8>>)
    requires
        existing.no_duplicates(),
    ensures
        ({
            let r = spec_merge_certificates(Some(existing), Some(new))->Some_0;
            &&& r.no_duplicates()
            &&& r.len() >= existing.len()
            &&& r.take(existing.len() as int) == existing
            &&& forall|y: Seq<u8>| #[trigger] r.contains(y) <==> (existing.contains(y) || new.contains(y))
        }),
{
    lemma_add_absent_nodup(existing, new);
    lemma_add_absent_elems(existing, new);
}

/// Every certificate of `from` is among the certificates `into`.
pub open spec fn certificates_held(into: Option<Seq<Seq<u8>>>, from: Option<Seq<Seq<u8>>>) -> bool {
    from matches Some(f) ==> forall|x: Seq<u8>|
        #[trigger] f.contains(x) ==> (into matches Some(i) && i.contains(x))
}

/// The certificates merged and then sorted for encoding hold those of both.
proof fn lemma_merged_certificates_held(e: Option<Seq<Seq<u8>>>, n: Option<Seq<Seq<u8>>>)
    ensures
        ({
            let sorted = match spec_merge_certificates(e, n) {
                Some(c) => Some(sort_set(c)),
                None => None,
            };
            certificates_held(sorted, e) && certificates_held(sorted, n)
        }),
{
    let merged = spec_merge_certificates(e, n);
    if let Some(c) = merged {
        lemma_sort_set_elems(c);
    }
    if let Some(nc) = n {
        let base = match e {
            Some(c) => c,
            None => Seq::<Seq<u8>>::empty(),
        };
        lemma_add_absent_elems(base, nc);
    }
}

/// All elements of a set built from two sets of complete TLVs are complete.
proof fn lemma_all_single_from(s: Seq<Seq<u8>>, a: Seq<Seq<u8>>, b: Seq<Seq<u8>>)
    requires
        all_single(a),
        all_single(b),
        forall|y: Seq<u8>| #[trigger] s.contains(y) ==> a.contains(y) || b.contains(y),
    ensures
        all_single(s),
{
    assert forall|i: int| 0 <= i < s.len() implies is_single_tlv(#[trigger] s[i]) by {
        assert(s.contains(s[i]));
        if a.contains(s[i]) {
            let j = choose|j: int| 0 <= j < a.len() && a[j] == s[i];
            assert(is_single_tlv(a[j]));
        } else {
            let j = choose|j: int| 0 <= j < b.len() && b[j] == s[i];
            assert(is_single_tlv(b[j]));
        }
    }
}

/// Merging certificates keeps a well-formed certificate set well formed.
proof fn lemma_merge_certificates_wf(e: Option<Seq<Seq<u8>>>, n: Option<Seq<Seq<u8>>>)
    requires
        e matches Some(c) ==> all_single(c),
        n matches Some(c) ==> all_single(c),
    ensures
        spec_merge_certificates(e, n) matches Some(c) ==> all_single(c),
{
    if let Some(nc) = n {
        let base = match e {
            Some(c) => c,
            None => Seq::<Seq<u8>>::empty(),
        };
        lemma_add_absent_elems(base, nc);
        lemma_all_single_from(spec_add_absent(base, nc), base, nc);
    }
}

/// Each signer of `m` is shorter than the encoding of `m`.
proof fn lemma_signer_sizes(m: SignedDataModel)
    ensures
        forall|i: int| 0 <= i < m.signer_infos.len() ==> (#[trigger] m.signer_infos[i]).len()
            < spec_encode_signed_data(m).len(),
{
    lemma_field_sizes(m);
    lemma_set_content_size(0x31, m.signer_infos);
    let fields = encoded_fields(m);
    assert(fields[fields.len() - 1] == spec_set_of(0x31, m.signer_infos));
}

/// Replacing one signer with its rewritten form keeps the model well formed.
proof fn lemma_replace_signer_wf(m: SignedDataModel, index: int, si: Seq<u8>)
    requires
        wf_model(m),
        0 <= index < m.signer_infos.len(),
        is_single_tlv(si),
    ensures
        wf_model(SignedDataModel { signer_infos: m.signer_infos.update(index, si), ..m }),
{
    let s = m.signer_infos.update(index, si);
    assert forall|i: int| 0 <= i < s.len() implies is_single_tlv(#[trigger] s[i]) by {
        if i != index {
            assert(s[i] == m.signer_infos[i]);
        }
    }
}

/// **Adding unsigned attributes re-signs nothing.** After
/// [`add_unsigned_attributes`](super::cades::add_unsigned_attributes), the
/// CMS still has its one signer, every field of which but the unsigned
/// attributes (the signed attributes above all) is still there byte for
/// byte; it carries the same signature value and the same enveloped content
/// (or is still detached), so the signature keeps verifying.
pub proof fn law_add_unsigned_keeps_signature(cms: Seq<u8>, new: Seq<AttrModel>)
    requires
        spec_add_unsigned(cms, new) is Ok,
        spec_add_unsigned(cms, new)->Ok_0.len() < reader_limit(),
    ensures
        spec_signature_value(spec_add_unsigned(cms, new)->Ok_0) == spec_signature_value(cms),
        spec_extract_content(spec_add_unsigned(cms, new)->Ok_0) == spec_extract_content(cms),
        spec_parse_signed_data(spec_add_unsigned(cms, new)->Ok_0) matches Ok(o) && o.signer_infos.len()
            == 1 && forall|c: Seq<u8>|
            spec_children_of(spec_parse_signed_data(cms)->Ok_0.signer_infos[0]) matches Some(cs)
                && cs.contains(c) && c[0] != 0xA1 ==> #[trigger] spec_children_of(
                o.signer_infos[0],
            ).unwrap().contains(c),
{
    let out = spec_add_unsigned(cms, new)->Ok_0;
    let m = spec_parse_signed_data(cms)->Ok_0;
    lemma_parse_wf(cms);
    let si = m.signer_infos[0];
    let si2 = spec_with_unsigned(si, new)->Ok_0;
    let m2 = SignedDataModel { signer_infos: m.signer_infos.update(0, si2), ..m };
    assert(out == spec_encode_signed_data(m2));
    lemma_signer_sizes(m2);
    assert(m2.signer_infos[0] == si2);
    lemma_with_unsigned_keeps(si, new);
    lemma_replace_signer_wf(m, 0, si2);
    lemma_parse_encode(m2);
    assert(m2.signer_infos =~= seq![si2]);
    lemma_sort_single(si2);
    assert(sorted_model(m2).signer_infos == seq![si2]);
}

/// **Adding unsigned attributes to one signer leaves the others alone.**
/// After [`add_unsigned_attributes_at`](super::cades::add_unsigned_attributes_at)
/// the CMS has as many signers as before, every other signer is still there
/// byte for byte, the rewritten signer keeps its signature value and its
/// signed attributes, and the content is unchanged.
pub proof fn law_add_unsigned_at_keeps_others(cms: Seq<u8>, index: int, new: Seq<AttrModel>)
    requires
        spec_add_unsigned_at(cms, index, new) is Ok,
        spec_add_unsigned_at(cms, index, new)->Ok_0.len() < reader_limit(),
        0 <= index,
    ensures
        ({
            let m = spec_parse_signed_data(cms)->Ok_0;
            let out = spec_parse_signed_data(spec_add_unsigned_at(cms, index, new)->Ok_0);
            let si2 = spec_with_unsigned(m.signer_infos[index], new)->Ok_0;
            &&& out is Ok
            &&& out->Ok_0.signer_infos.len() == m.signer_infos.len()
            &&& forall|j: int|
                0 <= j < m.signer_infos.len() && j != index ==> out->Ok_0.signer_infos.contains(
                    #[trigger] m.signer_infos[j],
                )
            &&& out->Ok_0.signer_infos.contains(si2)
            &&& spec_signer_info_signature(si2) == spec_signer_info_signature(
                m.signer_infos[index],
            )
            &&& forall|c: Seq<u8>|
                spec_children_of(m.signer_infos[index]) matches Some(cs) && cs.contains(c) && c[0]
                    != 0xA1 ==> #[trigger] spec_children_of(si2).unwrap().contains(c)
            &&& out->Ok_0.encap_content_info == m.encap_content_info
        }),
{
    let out = spec_add_unsigned_at(cms, index, new)->Ok_0;
    let m = spec_parse_signed_data(cms)->Ok_0;
    lemma_parse_wf(cms);
    let si = m.signer_infos[index];
    let si2 = spec_with_unsigned(si, new)->Ok_0;
    let m2 = SignedDataModel { signer_infos: m.signer_infos.update(index, si2), ..m };
    assert(out == spec_encode_signed_data(m2));
    lemma_signer_sizes(m2);
    assert(m2.signer_infos[index] == si2);
    lemma_with_unsigned_keeps(si, new);
    lemma_replace_signer_wf(m, index, si2);
    lemma_parse_encode(m2);
    lemma_sort_set_elems(m2.signer_infos);
    assert forall|j: int|
        0 <= j < m.signer_infos.len() && j != index implies sort_set(m2.signer_infos).contains(
        #[trigger] m.signer_infos[j],
    ) by {
        assert(m2.signer_infos[j] == m.signer_infos[j]);
        assert(m2.signer_infos.contains(m.signer_infos[j]));
    }
    assert(m2.signer_infos.contains(si2));
}

/// **A parallel signer joins; nobody leaves.** After
/// [`add_signer`](super::cades::add_signer) every signer of the given CMS
/// and every signer of the fresh one is present byte for byte, there are as
/// many signers as both had together, every digest algorithm and every
/// certificate of either is listed (a certificate set is made when the CMS
/// had none), and the content is unchanged.
pub proof fn law_add_signer_keeps_signers(cms: Seq<u8>, fresh: Seq<u8>)
    requires
        spec_add_signer(cms, fresh) is Ok,
        spec_add_signer(cms, fresh)->Ok_0.len() < reader_limit(),
    ensures
        ({
            let m = spec_parse_signed_data(cms)->Ok_0;
            let f = spec_parse_signed_data(fresh)->Ok_0;
            let out = spec_parse_signed_data(spec_add_signer(cms, fresh)->Ok_0);
            &&& out is Ok
            &&& out->Ok_0.signer_infos.len() == m.signer_infos.len() + f.signer_infos.len()
            &&& forall|j: int|
                0 <= j < m.signer_infos.len() ==> out->Ok_0.signer_infos.contains(
                    #[trigger] m.signer_infos[j],
                )
            &&& forall|j: int|
                0 <= j < f.signer_infos.len() ==> out->Ok_0.signer_infos.contains(
                    #[trigger] f.signer_infos[j],
                )
            &&& forall|y: Seq<u8>| #[trigger] out->Ok_0.digest_algorithms.contains(y) <==> (
                m.digest_algorithms.contains(y) || f.digest_algorithms.contains(y))
            &&& certificates_held(out->Ok_0.certificates, m.certificates)
            &&& certificates_held(out->Ok_0.certificates, f.certificates)
            &&& out->Ok_0.encap_content_info == m.encap_content_info
        }),
{
    let m = spec_parse_signed_data(cms)->Ok_0;
    let f = spec_parse_signed_data(fresh)->Ok_0;
    lemma_parse_wf(cms);
    lemma_parse_wf(fresh);
    let signers = m.signer_infos + f.signer_infos;
    let algs = spec_add_absent(m.digest_algorithms, f.digest_algorithms);
    let m2 = SignedDataModel {
        digest_algorithms: algs,
        certificates: spec_merge_certificates(m.certificates, f.certificates),
        signer_infos: signers,
        ..m
    };
    lemma_add_absent_elems(m.digest_algorithms, f.digest_algorithms);
    lemma_merged_certificates_held(m.certificates, f.certificates);
    lemma_all_single_from(algs, m.digest_algorithms, f.digest_algorithms);
    lemma_merge_certificates_wf(m.certificates, f.certificates);
    assert(all_single(signers)) by {
        assert forall|i: int| 0 <= i < signers.len() implies is_single_tlv(#[trigger] signers[i]) by {
            if i < m.signer_infos.len() {
                assert(signers[i] == m.signer_infos[i]);
            } else {
                assert(signers[i] == f.signer_infos[i - m.signer_infos.len()]);
            }
        }
    }
    lemma_parse_encode(m2);
    lemma_sort_set_elems(signers);
    lemma_sort_set_elems(algs);
    assert forall|j: int| 0 <= j < m.signer_infos.len() implies sort_set(signers).contains(
        #[trigger] m.signer_infos[j],
    ) by {
        assert(signers[j] == m.signer_infos[j]);
        assert(signers.contains(m.signer_infos[j]));
    }
    assert forall|j: int| 0 <= j < f.signer_infos.len() implies sort_set(signers).contains(
        #[trigger] f.signer_infos[j],
    ) by {
        assert(signers[m.signer_infos.len() + j] == f.signer_infos[j]);
        assert(signers.contains(f.signer_infos[j]));
    }
}

/// The target signer of [`spec_countersign`] once the countersignature has
/// been added to its unsigned attributes.
pub open spec fn spec_countersigned_target(cms: Seq<u8>, target: int, counter: Seq<u8>) -> Seq<u8> {
    let m = spec_parse_signed_data(cms)->Ok_0;
    let c = spec_parse_signed_data(counter)->Ok_0;
    let a = super::attributes::spec_single_value_attr(
        super::cades::oid_countersignature(),
        c.signer_infos[0],
    )->Ok_0;
    spec_with_unsigned(m.signer_infos[target], seq![a])->Ok_0
}

/// **A countersignature covers a signature without touching it.** After
/// [`countersign`](super::cades::countersign) the CMS has as many signers as
/// before, the others byte for byte, the target keeps its signature value and
/// every field but its unsigned attributes, the certificates of both the CMS
/// and the countersigner's CMS are all present, and the content is
/// unchanged; for a CMS with one
/// signer, [`signature_value`](super::cades::signature_value) gives the same
/// bytes as before.
pub proof fn law_countersign_keeps_signature(cms: Seq<u8>, target: int, counter: Seq<u8>)
    requires
        spec_countersign(cms, target, counter) is Ok,
        spec_countersign(cms, target, counter)->Ok_0.len() < reader_limit(),
        0 <= target,
    ensures
        ({
            let m = spec_parse_signed_data(cms)->Ok_0;
            let r = spec_countersign(cms, target, counter)->Ok_0;
            let out = spec_parse_signed_data(r);
            &&& out is Ok
            &&& out->Ok_0.signer_infos.len() == m.signer_infos.len()
            &&& forall|j: int|
                0 <= j < m.signer_infos.len() && j != target ==> out->Ok_0.signer_infos.contains(
                    #[trigger] m.signer_infos[j],
                )
            &&& out->Ok_0.signer_infos.contains(spec_countersigned_target(cms, target, counter))
            &&& spec_signer_info_signature(spec_countersigned_target(cms, target, counter))
                == spec_signer_info_signature(m.signer_infos[target])
            &&& forall|c: Seq<u8>|
                spec_children_of(m.signer_infos[target]) matches Some(cs) && cs.contains(c) && c[0]
                    != 0xA1 ==> #[trigger] spec_children_of(
                    spec_countersigned_target(cms, target, counter),
                ).unwrap().contains(c)
            &&& certificates_held(out->Ok_0.certificates, m.certificates)
            &&& certificates_held(
                out->Ok_0.certificates,
                spec_parse_signed_data(counter)->Ok_0.certificates,
            )
            &&& out->Ok_0.encap_content_info == m.encap_content_info
            &&& (m.signer_infos.len() == 1 ==> spec_signature_value(r) == spec_signature_value(
                cms,
            ))
        }),
{
    let m = spec_parse_signed_data(cms)->Ok_0;
    let c = spec_parse_signed_data(counter)->Ok_0;
    lemma_parse_wf(cms);
    lemma_parse_wf(counter);
    let a = super::attributes::spec_single_value_attr(
        super::cades::oid_countersignature(),
        c.signer_infos[0],
    )->Ok_0;
    let si = m.signer_infos[target];
    let si2 = spec_with_unsigned(si, seq![a])->Ok_0;
    let m2 = SignedDataModel {
        signer_infos: m.signer_infos.update(target, si2),
        certificates: spec_merge_certificates(m.certificates, c.certificates),
        ..m
    };
    let r = spec_countersign(cms, target, counter)->Ok_0;
    assert(r == spec_encode_signed_data(m2));
    lemma_signer_sizes(m2);
    assert(m2.signer_infos[target] == si2);
    lemma_with_unsigned_keeps(si, seq![a]);
    lemma_merge_certificates_wf(m.certificates, c.certificates);
    lemma_merged_certificates_held(m.certificates, c.certificates);
    assert(all_single(m2.signer_infos)) by {
        assert forall|i: int| 0 <= i < m2.signer_infos.len() implies is_single_tlv(
            #[trigger] m2.signer_infos[i],
        ) by {
            if i != target {
                assert(m2.signer_infos[i] == m.signer_infos[i]);
            }
        }
    }
    lemma_parse_encode(m2);
    lemma_sort_set_elems(m2.signer_infos);
    assert forall|j: int|
        0 <= j < m.signer_infos.len() && j != target implies sort_set(m2.signer_infos).contains(
        #[trigger] m.signer_infos[j],
    ) by {
        assert(m2.signer_infos[j] == m.signer_infos[j]);
        assert(m2.signer_infos.contains(m.signer_infos[j]));
    }
    assert(m2.signer_infos.contains(si2));
    if m.signer_infos.len() == 1 {
        assert(m2.signer_infos =~= seq![si2]);
        lemma_sort_single(si2);
    }
}

/// **Adding unsigned attributes goes to the one signer.** For a CMS that
/// parses, [`add_unsigned_attributes`](super::cades::add_unsigned_attributes)
/// is refused unless there is exactly one signer, and is then
/// [`add_unsigned_attributes_at`](super::cades::add_unsigned_attributes_at)
/// that signer.
pub proof fn law_add_unsigned_targets_the_only_signer(cms: Seq<u8>, new: Seq<AttrModel>)
    requires
        spec_parse_signed_data(cms) is Ok,
    ensures
        spec_parse_signed_data(cms)->Ok_0.signer_infos.len() != 1 ==> spec_add_unsigned(cms, new)
            == Err::<Seq<u8>, CmsFault>(CmsFault::Builder),
        spec_parse_signed_data(cms)->Ok_0.signer_infos.len() == 1 ==> spec_add_unsigned(cms, new)
            == spec_add_unsigned_at(cms, 0, new),
{
}

} // verus!
