//! The DER ordering of `SET OF` elements (X.690 §11.6): ascending by their
//! encodings, compared as octet strings.

use vstd::prelude::*;

use super::tlv::{spec_encode_tlv, tlv, concat, vec_views};

verus! {

/// `a` sorts strictly before `b`: lexicographic byte order, a proper prefix
/// first.
pub open spec fn lex_lt(a: Seq<u8>, b: Seq<u8>) -> bool
    decreases a.len(),
{
    if a.len() == 0 {
        b.len() > 0
    } else if b.len() == 0 {
        false
    } else if a[0] < b[0] {
        true
    } else if a[0] > b[0] {
        false
    } else {
        lex_lt(a.drop_first(), b.drop_first())
    }
}

/// `x` inserted into the sorted `s` before the first element not below it.
pub open spec fn insert_sorted(x: Seq<u8>, s: Seq<Seq<u8>>) -> Seq<Seq<u8>>
    decreases s.len(),
{
    if s.len() == 0 {
        seq![x]
    } else if lex_lt(s[0], x) {
        seq![s[0]] + insert_sorted(x, s.drop_first())
    } else {
        seq![x] + s
    }
}

/// `s` in DER `SET OF` order.
pub open spec fn sort_set(s: Seq<Seq<u8>>) -> Seq<Seq<u8>>
    decreases s.len(),
{
    if s.len() == 0 {
        s
    } else {
        insert_sorted(s[0], sort_set(s.drop_first()))
    }
}

/// The `SET OF` encoding with tag byte `tag` over `items`.
pub open spec fn spec_set_of(tag: u8, items: Seq<Seq<u8>>) -> Seq<u8> {
    spec_encode_tlv(tag, sort_set(items).flatten())
}

/// Inserting before the first element that `x` does not follow.
proof fn lemma_insert_at(x: Seq<u8>, s: Seq<Seq<u8>>, j: int)
    requires
        0 <= j <= s.len(),
        forall|k: int| 0 <= k < j ==> lex_lt(#[trigger] s[k], x),
        j == s.len() || !lex_lt(s[j], x),
    ensures
        insert_sorted(x, s) == s.take(j).push(x) + s.skip(j),
    decreases j,
{
    if s.len() == 0 {
        assert(s.take(j).push(x) + s.skip(j) =~= seq![x]);
    } else if j == 0 {
        assert(s.take(0).push(x) + s.skip(0) =~= seq![x] + s);
    } else {
        let t = s.drop_first();
        assert forall|k: int| 0 <= k < j - 1 implies lex_lt(#[trigger] t[k], x) by {
            assert(t[k] == s[k + 1]);
        }
        lemma_insert_at(x, t, j - 1);
        assert(s.take(j).push(x) + s.skip(j) =~= seq![s[0]] + (t.take(j - 1).push(x) + t.skip(
            j - 1,
        )));
    }
}

/// Whether `a` sorts strictly before `b`.
pub fn bytes_lt(a: &[u8], b: &[u8]) -> (r: bool)
    ensures
        r == lex_lt(a@, b@),
{
    let mut i: usize = 0;
    assert(a@.skip(0) =~= a@ && b@.skip(0) =~= b@);
    while i < a.len() && i < b.len()
        invariant
            i <= a@.len(),
            i <= b@.len(),
            lex_lt(a@, b@) == lex_lt(a@.skip(i as int), b@.skip(i as int)),
        decreases a.len() - i,
    {
        let x = a[i];
        let y = b[i];
        let ghost sa = a@.skip(i as int);
        let ghost sb = b@.skip(i as int);
        assert(sa[0] == x && sb[0] == y);
        if x < y {
            return true;
        }
        if x > y {
            return false;
        }
        assert(sa.drop_first() =~= a@.skip(i + 1));
        assert(sb.drop_first() =~= b@.skip(i + 1));
        i = i + 1;
    }
    i == a.len() && i < b.len()
}

/// `items` in DER `SET OF` order.
pub fn sort_set_exec(items: Vec<Vec<u8>>) -> (r: Vec<Vec<u8>>)
    ensures
        vec_views(r@) == sort_set(vec_views(items@)),
{
    let ghost orig = vec_views(items@);
    let mut rest = items;
    let mut out: Vec<Vec<u8>> = Vec::new();
    assert(orig.skip(orig.len() as int) =~= Seq::<Seq<u8>>::empty());
    while rest.len() > 0
        invariant
            rest@.len() <= orig.len(),
            vec_views(rest@) == orig.take(rest@.len() as int),
            vec_views(out@) == sort_set(orig.skip(rest@.len() as int)),
        decreases rest.len(),
    {
        let ghost old_rest = rest@;
        let x = rest.pop().unwrap();
        let k = rest.len();
        proof {
            assert(vec_views(old_rest)[k as int] == x@);
            assert(orig.take(k + 1)[k as int] == orig[k as int]);
            assert(vec_views(rest@) =~= orig.take(k as int));
            assert(orig[k as int] == x@);
            assert(orig.skip(k as int).drop_first() =~= orig.skip(k + 1));
            assert(orig.skip(k as int)[0] == x@);
        }
        let mut j: usize = 0;
        while j < out.len() && bytes_lt(out[j].as_slice(), x.as_slice())
            invariant
                j <= out@.len(),
                forall|m: int| 0 <= m < j ==> lex_lt(#[trigger] vec_views(out@)[m], x@),
            decreases out.len() - j,
        {
            j = j + 1;
        }
        proof {
            let s = vec_views(out@);
            if j < out.len() {
                assert(!lex_lt(s[j as int], x@));
            }
            lemma_insert_at(x@, s, j as int);
        }
        let ghost before = out@;
        out.insert(j, x);
        proof {
            assert(vec_views(out@) =~= vec_views(before).take(j as int).push(x@) + vec_views(
                before,
            ).skip(j as int));
        }
    }
    assert(orig.skip(0) =~= orig);
    out
}

/// Emit a constructed TLV over `items`, ordered as X.690 §11.6 requires of a
/// `SET OF`. Sorting moves whole elements and never rewrites one.
pub fn set_of(tag: u8, items: Vec<Vec<u8>>) -> (r: Vec<u8>)
    ensures
        r@ == spec_set_of(tag, vec_views(items@)),
{
    let sorted = sort_set_exec(items);
    let body = concat(sorted.as_slice());
    tlv(tag, body.as_slice())
}

} // verus!
