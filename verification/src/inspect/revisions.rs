//! Revisions of a PDF file: each incremental update ends with a `%%EOF`
//! marker.

use vstd::prelude::*;

verus! {

/// A detected PDF revision (bounded by `%%EOF`).
#[derive(Debug, Clone, Copy, PartialEq, Eq, Structural)]
pub struct RevisionInfo {
    /// 0-based index.
    pub index: usize,
    /// Byte offset just past the `%%EOF` marker.
    pub eof_offset: usize,
    /// Start byte of this revision's incremental section.
    pub byte_start: usize,
    /// End byte (after trailing newlines past `%%EOF`).
    pub byte_end: usize,
}

/// `needle` occurs in `h` at `p`.
pub open spec fn matches_at(h: Seq<u8>, needle: Seq<u8>, p: int) -> bool {
    0 <= p && p + needle.len() <= h.len() && h.subrange(p, p + needle.len()) == needle
}

/// The first occurrence of `needle` in `h` at or after `start`; none for an
/// empty needle.
pub open spec fn spec_find_bytes(h: Seq<u8>, needle: Seq<u8>, start: int) -> Option<int>
    decreases h.len() - start,
{
    if needle.len() == 0 || start < 0 || start + needle.len() > h.len() {
        None
    } else if matches_at(h, needle, start) {
        Some(start)
    } else {
        spec_find_bytes(h, needle, start + 1)
    }
}

/// What a search promises: a match, at or after `start`, with none before.
pub proof fn lemma_find_bytes(h: Seq<u8>, needle: Seq<u8>, start: int)
    requires
        0 <= start,
    ensures
        spec_find_bytes(h, needle, start) matches Some(p) ==> start <= p && matches_at(h, needle, p)
            && forall|q: int| start <= q < p ==> !matches_at(h, needle, q),
        spec_find_bytes(h, needle, start) is None ==> needle.len() == 0 || forall|q: int|
            start <= q ==> !matches_at(h, needle, q),
    decreases h.len() - start,
{
    if needle.len() == 0 || start < 0 || start + needle.len() > h.len() {
    } else if matches_at(h, needle, start) {
    } else {
        lemma_find_bytes(h, needle, start + 1);
    }
}

/// The `%%EOF` marker.
pub open spec fn eof_marker() -> Seq<u8> {
    seq![0x25u8, 0x25, 0x45, 0x4F, 0x46]
}

/// The position after the carriage returns and line feeds from `p` on.
pub open spec fn skip_newlines(d: Seq<u8>, p: int) -> int
    decreases d.len() - p,
{
    if 0 <= p < d.len() && (d[p] == 0x0D || d[p] == 0x0A) {
        skip_newlines(d, p + 1)
    } else {
        p
    }
}

/// The revisions of `d` found from `start` on, numbered from `index`, the
/// previous one ending at `prev_end`.
pub open spec fn spec_revisions_from(d: Seq<u8>, start: int, index: int, prev_end: int) -> Seq<
    RevisionInfo,
>
    decreases d.len() - start,
{
    match spec_find_bytes(d, eof_marker(), start) {
        None => Seq::empty(),
        Some(pos) => {
            if start <= pos && pos + 5 <= d.len() {
                let eof_end = pos + 5;
                let end = skip_newlines(d, eof_end);
                let info = RevisionInfo {
                    index: index as usize,
                    eof_offset: eof_end as usize,
                    byte_start: if index == 0 {
                        0
                    } else {
                        prev_end as usize
                    },
                    byte_end: end as usize,
                };
                seq![info] + spec_revisions_from(d, eof_end, index + 1, end)
            } else {
                Seq::empty()
            }
        },
    }
}

/// The revisions of `d`.
pub open spec fn spec_detect_revisions(d: Seq<u8>) -> Seq<RevisionInfo> {
    spec_revisions_from(d, 0, 0, 0)
}

/// Find a byte pattern in a slice starting at a given offset.
pub fn find_bytes(haystack: &[u8], needle: &[u8], start: usize) -> (r: Option<usize>)
    ensures
        match r {
            None => spec_find_bytes(haystack@, needle@, start as int) is None,
            Some(p) => spec_find_bytes(haystack@, needle@, start as int) == Some(p as int),
        },
{
    if needle.len() == 0 || needle.len() > haystack.len() || start > haystack.len() - needle.len() {
        return None;
    }
    let mut p: usize = start;
    let last = haystack.len() - needle.len();
    while p <= last
        invariant
            start <= p,
            last + needle@.len() == haystack@.len(),
            haystack@.len() == haystack.len(),
            needle@.len() > 0,
            p <= last + 1,
            spec_find_bytes(haystack@, needle@, start as int) == spec_find_bytes(
                haystack@,
                needle@,
                p as int,
            ),
        decreases last + 1 - p,
    {
        let mut k: usize = 0;
        let mut same = true;
        while k < needle.len()
            invariant
                p <= last,
                last + needle@.len() == haystack@.len(),
                haystack@.len() == haystack.len(),
                k <= needle@.len(),
                same == forall|j: int| 0 <= j < k ==> haystack@[p + j] == needle@[j],
            decreases needle.len() - k,
        {
            if haystack[p + k] != needle[k] {
                same = false;
            }
            k = k + 1;
        }
        if same {
            assert(haystack@.subrange(p as int, p + needle@.len()) =~= needle@);
            return Some(p);
        }
        proof {
            if haystack@.subrange(p as int, p + needle@.len()) == needle@ {
                let j = choose|j: int| 0 <= j < needle@.len() && haystack@[p + j] != needle@[j];
                assert(haystack@.subrange(p as int, p + needle@.len())[j] == haystack@[p + j]);
            }
        }
        p = p + 1;
    }
    None
}

/// Detect document revisions by finding `%%EOF` markers.
pub fn detect_revisions(pdf_data: &[u8]) -> (r: Vec<RevisionInfo>)
    ensures
        r@ == spec_detect_revisions(pdf_data@),
{
    let marker: [u8; 5] = [0x25, 0x25, 0x45, 0x4F, 0x46];
    let ghost d = pdf_data@;
    assert(marker@ =~= eof_marker());
    let mut revisions: Vec<RevisionInfo> = Vec::new();
    let mut search_start: usize = 0;
    let mut prev_end: usize = 0;
    loop
        invariant
            d == pdf_data@,
            d.len() == pdf_data.len(),
            marker@ == eof_marker(),
            search_start <= d.len(),
            prev_end <= d.len(),
            revisions@.len() <= search_start,
            spec_detect_revisions(d) == revisions@ + spec_revisions_from(
                d,
                search_start as int,
                revisions@.len() as int,
                prev_end as int,
            ),
        decreases d.len() - search_start,
    {
        let found = find_bytes(pdf_data, marker.as_slice(), search_start);
        proof {
            lemma_find_bytes(d, eof_marker(), search_start as int);
        }
        match found {
            None => {
                assert(revisions@ + Seq::<RevisionInfo>::empty() =~= revisions@);
                return revisions;
            },
            Some(pos) => {
                proof {
                    let sp = spec_find_bytes(d, eof_marker(), search_start as int).unwrap();
                    assert(matches_at(d, eof_marker(), sp));
                    assert(sp + 5 <= d.len());
                    assert(pos as int == sp);
                }
                let eof_end = pos + 5;
                let mut actual_end = eof_end;
                while actual_end < pdf_data.len() && (pdf_data[actual_end] == 0x0D
                    || pdf_data[actual_end] == 0x0A)
                    invariant
                        eof_end <= actual_end <= pdf_data@.len(),
                        skip_newlines(pdf_data@, eof_end as int) == skip_newlines(
                            pdf_data@,
                            actual_end as int,
                        ),
                    decreases pdf_data@.len() - actual_end,
                {
                    actual_end = actual_end + 1;
                }
                let index = revisions.len();
                let byte_start = if index == 0 {
                    0
                } else {
                    prev_end
                };
                let info = RevisionInfo {
                    index,
                    eof_offset: eof_end,
                    byte_start,
                    byte_end: actual_end,
                };
                proof {
                    let rest = spec_revisions_from(d, eof_end as int, index + 1, actual_end as int);
                    assert(revisions@.push(info) + rest =~= revisions@ + (seq![info] + rest));
                }
                revisions.push(info);
                search_start = eof_end;
                prev_end = actual_end;
            },
        }
    }
}

/// Revisions are numbered from zero in order, each starts where the
/// previous one ended, and each ends at or after its `%%EOF` marker.
pub proof fn law_revisions_chain(d: Seq<u8>, i: int)
    requires
        d.len() <= usize::MAX,
        0 <= i < spec_detect_revisions(d).len(),
    ensures
        spec_detect_revisions(d)[i].index == i,
        spec_detect_revisions(d)[i].eof_offset <= spec_detect_revisions(d)[i].byte_end,
        i == 0 ==> spec_detect_revisions(d)[i].byte_start == 0,
        i > 0 ==> spec_detect_revisions(d)[i].byte_start == spec_detect_revisions(d)[i - 1].byte_end,
{
    lemma_revisions_chain(d, 0, 0, 0, i);
}

proof fn lemma_skip_newlines(d: Seq<u8>, p: int)
    requires
        0 <= p <= d.len(),
    ensures
        p <= skip_newlines(d, p) <= d.len(),
    decreases d.len() - p,
{
    if 0 <= p < d.len() && (d[p] == 0x0D || d[p] == 0x0A) {
        lemma_skip_newlines(d, p + 1);
    }
}

proof fn lemma_revisions_chain(d: Seq<u8>, start: int, index: int, prev_end: int, i: int)
    requires
        0 <= index <= start <= d.len(),
        d.len() <= usize::MAX,
        0 <= prev_end <= d.len(),
        0 <= i < spec_revisions_from(d, start, index, prev_end).len(),
    ensures
        ({
            let s = spec_revisions_from(d, start, index, prev_end);
            &&& s[i].index == index + i
            &&& s[i].eof_offset <= s[i].byte_end
            &&& (i == 0 && index == 0 ==> s[i].byte_start == 0)
            &&& (i == 0 && index > 0 ==> s[i].byte_start == prev_end)
            &&& (i > 0 ==> s[i].byte_start == s[i - 1].byte_end)
        }),
    decreases d.len() - start,
{
    lemma_find_bytes(d, eof_marker(), start);
    let pos = spec_find_bytes(d, eof_marker(), start).unwrap();
    let eof_end = pos + 5;
    let end = skip_newlines(d, eof_end);
    lemma_skip_newlines(d, eof_end);
    if i > 0 {
        lemma_revisions_chain(d, eof_end, index + 1, end, i - 1);
        if i > 1 {
            lemma_revisions_chain(d, eof_end, index + 1, end, i - 2);
        }
    }
}

} // verus!
