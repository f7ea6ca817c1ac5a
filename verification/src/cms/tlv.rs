//! Minimal DER: reading one tag-length-value at a time, walking the children
//! of a constructed value, and emitting definite-length TLVs.
//!
//! Everything here works on raw bytes and never re-encodes what it reads, so
//! bytes covered by a signature can be carried through unchanged.

use vstd::prelude::*;

use crate::error::{CmsError, CmsFault};

verus! {

// --- mathematical model ------------------------------------------------------

/// `256^k`.
pub open spec fn pow256(k: nat) -> nat
    decreases k,
{
    if k == 0 {
        1
    } else {
        256 * pow256((k - 1) as nat)
    }
}

/// The unsigned big-endian value of `bytes`.
pub open spec fn be_uint(bytes: Seq<u8>) -> nat
    decreases bytes.len(),
{
    if bytes.len() == 0 {
        0
    } else {
        (be_uint(bytes.drop_last()) * 256 + bytes.last()) as nat
    }
}

/// The shortest big-endian encoding of `n` (empty for zero).
pub open spec fn be_encode(n: nat) -> Seq<u8>
    decreases n,
{
    if n == 0 {
        Seq::empty()
    } else {
        be_encode(n / 256).push((n % 256) as u8)
    }
}

/// The DER definite-length field for a value of `len` bytes: short form below
/// 128, otherwise `0x80 + k` followed by the `k` minimal big-endian bytes.
pub open spec fn spec_der_length(len: nat) -> Seq<u8> {
    if len < 0x80 {
        seq![len as u8]
    } else {
        seq![(0x80 + be_encode(len).len()) as u8] + be_encode(len)
    }
}

/// The TLV with tag byte `tag` over the already-encoded `content`.
pub open spec fn spec_encode_tlv(tag: u8, content: Seq<u8>) -> Seq<u8> {
    seq![tag] + spec_der_length(content.len()) + content
}

/// The header of the TLV that starts `d`, as this reader accepts it:
/// `(tag, header length, value length)`.
///
/// Short-form lengths and long forms of one to four length bytes are read;
/// indefinite length (`0x80`) and longer forms are refused, as is a value
/// running past the end of `d`.
pub open spec fn spec_tlv(d: Seq<u8>) -> Option<(u8, int, int)> {
    if d.len() < 2 {
        None
    } else if d[1] < 0x80 {
        if 2 + d[1] <= d.len() {
            Some((d[0], 2, d[1] as int))
        } else {
            None
        }
    } else {
        let n = d[1] - 0x80;
        if n == 0 || n > 4 || 2 + n > d.len() {
            None
        } else {
            let len = be_uint(d.subrange(2, 2 + n));
            if 2 + n + len <= d.len() {
                Some((d[0], 2 + n, len as int))
            } else {
                None
            }
        }
    }
}

/// The TLV header at `offset` in `d`.
pub open spec fn spec_tlv_at(d: Seq<u8>, offset: int) -> Option<(u8, int, int)> {
    if 0 <= offset <= d.len() {
        spec_tlv(d.skip(offset))
    } else {
        None
    }
}

/// The value of the TLV at the start of `d`.
pub open spec fn spec_value_of(d: Seq<u8>) -> Option<Seq<u8>> {
    match spec_tlv(d) {
        Some((_, h, l)) => Some(d.subrange(h, h + l)),
        None => None,
    }
}

/// `d` is exactly one TLV, with nothing after it.
pub open spec fn is_single_tlv(d: Seq<u8>) -> bool {
    match spec_tlv(d) {
        Some((_, h, l)) => h + l == d.len(),
        None => false,
    }
}

/// The consecutive TLVs that make up `d`, each as its verbatim bytes.
pub open spec fn spec_children(d: Seq<u8>) -> Option<Seq<Seq<u8>>>
    decreases d.len(),
{
    if d.len() == 0 {
        Some(Seq::empty())
    } else {
        match spec_tlv(d) {
            None => None,
            Some((_, h, l)) => {
                if h + l > 0 {
                    match spec_children(d.skip(h + l)) {
                        None => None,
                        Some(rest) => Some(seq![d.take(h + l)] + rest),
                    }
                } else {
                    None
                }
            },
        }
    }
}

/// The byte views of a sequence of slices.
pub open spec fn slice_views(s: Seq<&[u8]>) -> Seq<Seq<u8>> {
    s.map_values(|x: &[u8]| x@)
}

/// The byte views of a sequence of vectors.
pub open spec fn vec_views(s: Seq<Vec<u8>>) -> Seq<Seq<u8>> {
    s.map_values(|x: Vec<u8>| x@)
}

// --- lemmas ------------------------------------------------------------------

/// What an accepted header promises about the bytes it was read from.
pub proof fn lemma_tlv_bounds(d: Seq<u8>)
    ensures
        spec_tlv(d) matches Some((t, h, l)) ==> {
            &&& t == d[0]
            &&& 2 <= h <= 6
            &&& 0 <= l
            &&& h + l <= d.len()
        },
{
}

/// The big-endian value of `k` bytes is below `256^k`.
pub proof fn lemma_be_uint_bound(bytes: Seq<u8>)
    ensures
        be_uint(bytes) < pow256(bytes.len()),
    decreases bytes.len(),
{
    if bytes.len() > 0 {
        lemma_be_uint_bound(bytes.drop_last());
        let p = pow256((bytes.len() - 1) as nat);
        let v = be_uint(bytes.drop_last());
        let b = bytes.last() as int;
        assert(v * 256 + b < 256 * p) by (nonlinear_arith)
            requires
                v < p,
                0 <= b < 256,
        ;
    }
}

/// Reading back the minimal big-endian encoding gives the number.
pub proof fn lemma_be_roundtrip(n: nat)
    ensures
        be_uint(be_encode(n)) == n,
    decreases n,
{
    if n > 0 {
        lemma_be_roundtrip(n / 256);
        let e = be_encode(n);
        assert(e.drop_last() =~= be_encode(n / 256));
    }
}

/// The minimal encoding of a non-zero number below `256^k` has between one
/// and `k` bytes.
pub proof fn lemma_be_encode_len(n: nat, k: nat)
    requires
        n < pow256(k),
    ensures
        be_encode(n).len() <= k,
        n > 0 ==> be_encode(n).len() >= 1,
    decreases n,
{
    if n > 0 {
        if k == 0 {
            assert(false);
        } else {
            let p = pow256((k - 1) as nat);
            assert(n / 256 < p) by (nonlinear_arith)
                requires
                    n < 256 * p,
            ;
            lemma_be_encode_len(n / 256, (k - 1) as nat);
        }
    }
}

pub proof fn lemma_pow256_values()
    ensures
        pow256(1) == 256,
        pow256(2) == 65536,
        pow256(3) == 16777216,
        pow256(4) == 4294967296,
        pow256(8) == 18446744073709551616,
{
    reveal_with_fuel(pow256, 9);
}

/// A TLV written by this module is read back by it: the tag, and the
/// content as the value, provided the content is shorter than 2^32 bytes
/// (the longest length this reader accepts).
pub proof fn lemma_tlv_roundtrip(tag: u8, content: Seq<u8>)
    requires
        content.len() < 4294967296,
    ensures
        ({
            let d = spec_encode_tlv(tag, content);
            let h: int = 1 + spec_der_length(content.len()).len() as int;
            &&& spec_tlv(d) == Some((tag, h, content.len() as int))
            &&& d.subrange(h, h + content.len()) == content
            &&& h + content.len() == d.len()
            &&& is_single_tlv(d)
            &&& spec_value_of(d) == Some(content)
        }),
{
    let d = spec_encode_tlv(tag, content);
    let len = content.len();
    let ilen = len as int;
    lemma_pow256_values();
    if len < 0x80 {
        assert(d[1] == len as u8);
        assert(d.subrange(2, 2 + ilen) =~= content);
    } else {
        let e = be_encode(len);
        lemma_be_encode_len(len, 4);
        lemma_be_roundtrip(len);
        let n = e.len() as int;
        assert(d[1] == (0x80 + n) as u8);
        assert(d.subrange(2, 2 + n) =~= e);
        assert(d.subrange(2 + n, 2 + n + ilen) =~= content);
    }
}

/// A complete TLV at the front of `a` is read the same whatever follows it.
pub proof fn lemma_tlv_prefix(a: Seq<u8>, b: Seq<u8>)
    requires
        is_single_tlv(a),
    ensures
        spec_tlv(a + b) == spec_tlv(a),
{
    let d = a + b;
    assert(d[0] == a[0]);
    assert(d[1] == a[1]);
    if a[1] >= 0x80 {
        let n = a[1] - 0x80;
        assert(d.subrange(2, 2 + n) =~= a.subrange(2, 2 + n));
    }
}

/// Consecutive complete TLVs are walked back into exactly those TLVs.
pub proof fn lemma_children_of_flatten(items: Seq<Seq<u8>>)
    requires
        forall|i: int| 0 <= i < items.len() ==> is_single_tlv(#[trigger] items[i]),
    ensures
        spec_children(items.flatten()) == Some(items),
    decreases items.len(),
{
    if items.len() == 0 {
        assert(items.flatten() =~= Seq::<u8>::empty());
        assert(items =~= Seq::<Seq<u8>>::empty());
    } else {
        let first = items[0];
        let rest = items.drop_first();
        assert forall|i: int| 0 <= i < rest.len() implies is_single_tlv(#[trigger] rest[i]) by {
            assert(rest[i] == items[i + 1]);
        }
        lemma_children_of_flatten(rest);
        let d = items.flatten();
        assert(d == first + rest.flatten());
        assert(is_single_tlv(items[0]));
        lemma_tlv_prefix(first, rest.flatten());
        lemma_tlv_bounds(first);
        let (t, h, l) = spec_tlv(first).unwrap();
        assert(d.len() > 0);
        assert(d.skip(h + l) =~= rest.flatten());
        assert(d.take(h + l) =~= first);
        assert(seq![first] + rest =~= items);
    }
}

/// Cutting `d` anywhere after its first TLV does not change how that TLV reads.
pub proof fn lemma_tlv_take(d: Seq<u8>, k: int)
    requires
        spec_tlv(d) matches Some((t, h, l)) && h + l <= k <= d.len(),
    ensures
        spec_tlv(d.take(k)) == spec_tlv(d),
{
    let e = d.take(k);
    assert(e[0] == d[0] && e[1] == d[1]);
    if d[1] >= 0x80 {
        let n = d[1] - 0x80;
        assert(e.subrange(2, 2 + n) =~= d.subrange(2, 2 + n));
    }
}

/// Every child found by [`spec_children`] is a single complete TLV.
pub proof fn lemma_children_are_tlvs(d: Seq<u8>)
    ensures
        spec_children(d) matches Some(items) ==> forall|i: int|
            0 <= i < items.len() ==> is_single_tlv(#[trigger] items[i]),
    decreases d.len(),
{
    if d.len() > 0 {
        lemma_tlv_bounds(d);
        if let Some((t, h, l)) = spec_tlv(d) {
            lemma_children_are_tlvs(d.skip(h + l));
            lemma_tlv_take(d, h + l);
            if let Some(items) = spec_children(d) {
                let rest = spec_children(d.skip(h + l)).unwrap();
                assert forall|i: int| 0 <= i < items.len() implies is_single_tlv(
                    #[trigger] items[i],
                ) by {
                    if i > 0 {
                        assert(items[i] == rest[i - 1]);
                    }
                }
            }
        }
    }
}

// --- executable --------------------------------------------------------------

fn truncated() -> (e: CmsError)
    ensures
        e matches CmsError::Der(s) && s@ == "truncated DER"@,
{
    CmsError::Der(String::from_str("truncated DER"))
}

/// Read the TLV at `offset`, returning `(tag, value, offset just past it)`.
pub fn read_tlv(data: &[u8], offset: usize) -> (r: Result<(u8, &[u8], usize), CmsError>)
    ensures
        match spec_tlv_at(data@, offset as int) {
            None => r matches Err(e) && e.fault() == CmsFault::Der,
            Some((tag, h, l)) => r matches Ok((t, v, end)) && t == tag && v@ == data@.subrange(
                offset + h,
                offset + h + l,
            ) && end == offset + h + l,
        },
{
    let ghost d = data@.skip(offset as int);
    if offset >= data.len() || data.len() - offset < 2 {
        return Err(truncated());
    }
    let tag = data[offset];
    let first = data[offset + 1];
    assert(d[0] == tag && d[1] == first);
    let len: usize;
    let header: usize;
    if first < 0x80 {
        len = first as usize;
        header = 2;
    } else {
        let n = (first - 0x80) as usize;
        if n == 0 || n > 4 {
            return Err(CmsError::Der(String::from_str("unsupported DER length form")));
        }
        if data.len() - offset - 2 < n {
            return Err(truncated());
        }
        let mut acc: u64 = 0;
        let mut i: usize = 0;
        proof {
            lemma_pow256_values();
        }
        while i < n
            invariant
                n <= 4,
                i <= n,
                offset + 2 + n <= data.len(),
                acc == be_uint(data@.subrange(offset + 2, offset + 2 + i)),
                acc < pow256(i as nat),
                pow256(4) == 4294967296,
            decreases n - i,
        {
            let ghost prev = data@.subrange(offset + 2, offset + 2 + i);
            let b = data[offset + 2 + i];
            proof {
                let next = data@.subrange(offset + 2, offset + 2 + i + 1);
                assert(next.drop_last() =~= prev);
                assert(next.last() == b);
                lemma_be_uint_bound(next);
                assert(pow256((i + 1) as nat) == 256 * pow256(i as nat));
                assert(pow256((i + 1) as nat) <= pow256(4)) by {
                    lemma_pow_mono((i + 1) as nat, 4);
                }
            }
            acc = acc * 256 + b as u64;
            i = i + 1;
        }
        assert(d.subrange(2, 2 + n as int) =~= data@.subrange(offset + 2, offset + 2 + n));
        len = acc as usize;
        header = 2 + n;
    }
    if data.len() - offset - header < len {
        return Err(truncated());
    }
    let start = offset + header;
    let end = start + len;
    Ok((tag, &data[start..end], end))
}

proof fn lemma_pow_mono(a: nat, b: nat)
    requires
        a <= b,
    ensures
        pow256(a) <= pow256(b),
    decreases b,
{
    if a < b {
        lemma_pow_mono(a, (b - 1) as nat);
    }
}

/// The value of a single TLV.
pub fn value_of(tlv_bytes: &[u8]) -> (r: Result<&[u8], CmsError>)
    ensures
        match spec_value_of(tlv_bytes@) {
            None => r matches Err(e) && e.fault() == CmsFault::Der,
            Some(v) => r matches Ok(x) && x@ == v,
        },
{
    let res = read_tlv(tlv_bytes, 0);
    assert(tlv_bytes@.skip(0) =~= tlv_bytes@);
    match res {
        Ok((_, value, _)) => Ok(value),
        Err(e) => Err(e),
    }
}

/// The child TLVs of a constructed value, each as a verbatim slice.
pub fn children(value: &[u8]) -> (r: Result<Vec<&[u8]>, CmsError>)
    ensures
        match spec_children(value@) {
            None => r matches Err(e) && e.fault() == CmsFault::Der,
            Some(items) => r matches Ok(v) && slice_views(v@) == items,
        },
        r matches Ok(v) ==> forall|i: int|
            0 <= i < v@.len() ==> is_single_tlv(#[trigger] slice_views(v@)[i]),
{
    proof {
        lemma_children_are_tlvs(value@);
    }
    let mut out: Vec<&[u8]> = Vec::new();
    let mut pos: usize = 0;
    assert(value@.skip(0) =~= value@);
    while pos < value.len()
        invariant
            pos <= value@.len(),
            match spec_children(value@.skip(pos as int)) {
                None => spec_children(value@) is None,
                Some(rest) => spec_children(value@) == Some(slice_views(out@) + rest),
            },
        decreases value.len() - pos,
    {
        let ghost d = value@.skip(pos as int);
        proof {
            lemma_tlv_bounds(d);
        }
        let (_, _, end) = match read_tlv(value, pos) {
            Ok(x) => x,
            Err(e) => {
                return Err(e);
            },
        };
        let ghost (t, h, l) = spec_tlv(d).unwrap();
        let item = &value[pos..end];
        proof {
            assert(d.skip(h + l) =~= value@.skip(end as int));
            assert(d.take(h + l) =~= item@);
            assert(slice_views(out@.push(item)) =~= slice_views(out@).push(item@));
            let rest = spec_children(value@.skip(end as int));
            if rest is Some {
                assert(slice_views(out@) + (seq![item@] + rest.unwrap()) =~= slice_views(
                    out@.push(item),
                ) + rest.unwrap());
            }
        }
        out.push(item);
        pos = end;
    }
    proof {
        assert(value@.skip(pos as int) =~= Seq::<u8>::empty());
        assert(slice_views(out@) + Seq::<Seq<u8>>::empty() =~= slice_views(out@));
    }
    Ok(out)
}

/// Append `src` to `out`.
pub fn append_bytes(out: &mut Vec<u8>, src: &[u8])
    ensures
        final(out)@ == old(out)@ + src@,
{
    let mut i: usize = 0;
    let ghost start = out@;
    while i < src.len()
        invariant
            i <= src@.len(),
            out@ == start + src@.take(i as int),
        decreases src.len() - i,
    {
        out.push(src[i]);
        proof {
            assert(src@.take(i + 1) =~= src@.take(i as int).push(src@[i as int]));
        }
        i = i + 1;
    }
    assert(src@.take(i as int) =~= src@);
}

/// A copy of `src`.
pub fn copy_bytes(src: &[u8]) -> (r: Vec<u8>)
    ensures
        r@ == src@,
{
    let mut out: Vec<u8> = Vec::new();
    append_bytes(&mut out, src);
    assert(Seq::<u8>::empty() + src@ =~= src@);
    out
}

/// Copies of every slice in `items`.
pub fn copy_all(items: &Vec<&[u8]>) -> (r: Vec<Vec<u8>>)
    ensures
        vec_views(r@) == slice_views(items@),
{
    let mut out: Vec<Vec<u8>> = Vec::new();
    let mut i: usize = 0;
    while i < items.len()
        invariant
            i <= items@.len(),
            vec_views(out@) == slice_views(items@.take(i as int)),
        decreases items.len() - i,
    {
        let c = copy_bytes(items[i]);
        proof {
            assert(slice_views(items@.take(i + 1)) =~= slice_views(items@.take(i as int)).push(
                items@[i as int]@,
            ));
            assert(vec_views(out@.push(c)) =~= vec_views(out@).push(c@));
        }
        out.push(c);
        i = i + 1;
    }
    assert(items@.take(i as int) =~= items@);
    out
}

/// Copies of every vector in `items`.
pub fn copy_vecs(items: &Vec<Vec<u8>>) -> (r: Vec<Vec<u8>>)
    ensures
        vec_views(r@) == vec_views(items@),
{
    let mut out: Vec<Vec<u8>> = Vec::new();
    let mut i: usize = 0;
    while i < items.len()
        invariant
            i <= items@.len(),
            vec_views(out@) == vec_views(items@.take(i as int)),
        decreases items.len() - i,
    {
        let c = copy_bytes(items[i].as_slice());
        proof {
            assert(vec_views(items@.take(i + 1)) =~= vec_views(items@.take(i as int)).push(
                items@[i as int]@,
            ));
            assert(vec_views(out@.push(c)) =~= vec_views(out@).push(c@));
        }
        out.push(c);
        i = i + 1;
    }
    assert(items@.take(i as int) =~= items@);
    out
}

/// The concatenation of `items`.
pub fn concat(items: &[Vec<u8>]) -> (r: Vec<u8>)
    ensures
        r@ == vec_views(items@).flatten(),
{
    let mut out: Vec<u8> = Vec::new();
    let mut i: usize = 0;
    while i < items.len()
        invariant
            i <= items@.len(),
            out@ == vec_views(items@.take(i as int)).flatten(),
        decreases items.len() - i,
    {
        proof {
            let s = vec_views(items@.take(i as int));
            assert(vec_views(items@.take(i + 1)) =~= s.push(items@[i as int]@));
            s.lemma_flatten_push(items@[i as int]@);
        }
        append_bytes(&mut out, items[i].as_slice());
        i = i + 1;
    }
    assert(items@.take(i as int) =~= items@);
    out
}

/// The minimal big-endian bytes of `n`.
fn be_bytes(n: usize) -> (r: Vec<u8>)
    ensures
        r@ == be_encode(n as nat),
    decreases n,
{
    if n == 0 {
        Vec::new()
    } else {
        let mut v = be_bytes(n / 256);
        v.push((n % 256) as u8);
        v
    }
}

/// The DER length field for a value of `len` bytes.
pub fn der_length(len: usize) -> (r: Vec<u8>)
    ensures
        r@ == spec_der_length(len as nat),
{
    if len < 0x80 {
        let mut v = Vec::new();
        v.push(len as u8);
        assert(v@ =~= seq![len as u8]);
        v
    } else {
        let bytes = be_bytes(len);
        proof {
            lemma_pow256_values();
            lemma_be_encode_len(len as nat, 8);
        }
        let mut out = Vec::new();
        out.push(0x80u8 + bytes.len() as u8);
        append_bytes(&mut out, bytes.as_slice());
        assert(out@ =~= spec_der_length(len as nat));
        out
    }
}

/// Tag-length-value with an explicit tag byte over already-encoded `content`.
pub fn tlv(tag: u8, content: &[u8]) -> (r: Vec<u8>)
    ensures
        r@ == spec_encode_tlv(tag, content@),
{
    let mut out = Vec::new();
    out.push(tag);
    let len = der_length(content.len());
    append_bytes(&mut out, len.as_slice());
    append_bytes(&mut out, content);
    assert(out@ =~= spec_encode_tlv(tag, content@));
    out
}

/// SEQUENCE (tag 0x30) over the concatenation of `items`.
pub fn sequence(items: &[Vec<u8>]) -> (r: Vec<u8>)
    ensures
        r@ == spec_encode_tlv(0x30, vec_views(items@).flatten()),
{
    let body = concat(items);
    tlv(0x30, body.as_slice())
}

/// IMPLICIT `[n]` constructed context tag (`0xA0 | n`) over `content`.
pub fn implicit_context(n: u8, content: &[u8]) -> (r: Vec<u8>)
    ensures
        r@ == spec_encode_tlv(0xA0u8 | n, content@),
        n < 0x20 ==> r@ == spec_encode_tlv((0xA0 + n) as u8, content@),
{
    let tag = 0xA0u8 | n;
    assert(n < 0x20u8 ==> 0xA0u8 | n == (0xA0 + n) as u8) by (bit_vector);
    tlv(tag, content)
}

} // verus!
