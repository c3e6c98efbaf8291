//! The PDF extraction engine: one `Title` element derived from the file's
//! base name (a placeholder metadata strategy), then one `Paragraph` per
//! blank-line-delimited segment of the decoded text whose trimmed form is
//! longer than twenty bytes — a deliberate noise filter against headers,
//! page numbers and short artifacts. Decoding the file into text is the
//! collaborator's job; everything after it is verified here.

use vstd::prelude::*;
use crate::documents_types::{DocumentElement, ElemModel};
use crate::text::{byte_len, trim_spec, trim_str};

verus! {

broadcast use vstd::slice::axiom_spec_len;

/// The position of the next blank-line separator (`\n\n`) at or after
/// `i`, or the text's length when none remains.
pub open spec fn next_sep(s: Seq<char>, i: int) -> int
    decreases s.len() - i,
{
    if i + 1 >= s.len() {
        s.len() as int
    } else if s[i] == '\n' && s[i + 1] == '\n' {
        i
    } else {
        next_sep(s, i + 1)
    }
}

proof fn lemma_next_sep(s: Seq<char>, i: int)
    ensures
        next_sep(s, i) < s.len() ==> next_sep(s, i) >= i && next_sep(s, i) + 1 < s.len(),
        next_sep(s, i) >= s.len() ==> next_sep(s, i) == s.len(),
    decreases s.len() - i,
{
    if i + 1 >= s.len() {
    } else if s[i] == '\n' && s[i + 1] == '\n' {
    } else {
        lemma_next_sep(s, i + 1);
    }
}

#[via_fn]
proof fn split_blank_from_decreases(s: Seq<char>, i: int) {
    lemma_next_sep(s, i);
}

/// The segments of `s` from position `i` on, split at each blank-line
/// separator, left to right and without overlap.
pub open spec fn split_blank_from(s: Seq<char>, i: int) -> Seq<Seq<char>>
    decreases s.len() - i,
    via split_blank_from_decreases
{
    let j = next_sep(s, i);
    if j >= s.len() {
        seq![s.subrange(i, s.len() as int)]
    } else {
        seq![s.subrange(i, j)] + split_blank_from(s, j + 2)
    }
}

/// A segment survives the noise filter when its trimmed form is longer
/// than twenty bytes.
pub open spec fn kept_segment(seg: Seq<char>) -> bool {
    byte_len(trim_spec(seg)) > 20
}

/// One `Paragraph` per kept segment among the first `k`, in source
/// order, each holding the segment's trimmed text.
pub open spec fn pdf_paragraphs_upto(segs: Seq<Seq<char>>, k: int) -> Seq<ElemModel>
    decreases k,
{
    if k <= 0 {
        seq![]
    } else {
        pdf_paragraphs_upto(segs, k - 1) + (if kept_segment(segs[k - 1]) {
            seq![ElemModel::Paragraph { text: trim_spec(segs[k - 1]) }]
        } else {
            seq![]
        })
    }
}

/// The paragraph elements of a decoded PDF text.
pub open spec fn pdf_paragraph_elems(text: Seq<char>) -> Seq<ElemModel> {
    let segs = split_blank_from(text, 0);
    pdf_paragraphs_upto(segs, segs.len() as int)
}

/// The start of the final path component: the position after the last
/// `/` among the first `k` characters.
pub open spec fn base_start(p: Seq<char>, k: int) -> int
    decreases k,
{
    if k <= 0 {
        0
    } else if p[k - 1] == '/' {
        k
    } else {
        base_start(p, k - 1)
    }
}

/// The final path component of `p`.
pub open spec fn base_name(p: Seq<char>) -> Seq<char> {
    p.subrange(base_start(p, p.len() as int), p.len() as int)
}

/// The index of the last `.` among the first `k` characters, or -1.
pub open spec fn last_dot(b: Seq<char>, k: int) -> int
    decreases k,
{
    if k <= 0 {
        -1
    } else if b[k - 1] == '.' {
        k - 1
    } else {
        last_dot(b, k - 1)
    }
}

/// The stem of a file name: everything before the final `.`, unless that
/// dot leads the name.
pub open spec fn stem_of(b: Seq<char>) -> Seq<char> {
    let d = last_dot(b, b.len() as int);
    if d > 0 {
        b.subrange(0, d)
    } else {
        b
    }
}

/// The metadata the engine derives from a PDF path: one `Title` from the
/// file name's stem, or nothing when the path has no final component.
pub open spec fn pdf_title_elems(p: Seq<char>) -> Seq<ElemModel> {
    let b = base_name(p);
    if b.len() == 0 {
        seq![]
    } else {
        seq![ElemModel::Title { text: stem_of(b) }]
    }
}

/// Everything the engine derives from a PDF: the title placeholder, then
/// the filtered paragraphs of the decoded text.
pub open spec fn pdf_document_of(path: Seq<char>, text: Seq<char>) -> Seq<ElemModel> {
    pdf_title_elems(path) + pdf_paragraph_elems(text)
}

/// Splits `s` at each blank-line separator.
fn split_blank_lines(s: &str) -> (r: Vec<String>)
    ensures
        r.deep_view() == split_blank_from(s@, 0),
{
    let n = s.unicode_len();
    let mut parts: Vec<String> = Vec::new();
    let mut cur: usize = 0;
    loop
        invariant_except_break
            0 <= cur <= n,
            n == s@.len(),
            parts.deep_view() + split_blank_from(s@, cur as int) =~= split_blank_from(s@, 0),
        ensures
            parts.deep_view() == split_blank_from(s@, 0),
        decreases n - cur,
    {
        let mut j: usize = cur;
        while n - j > 1 && !(s.get_char(j) == '\n' && s.get_char(j + 1) == '\n')
            invariant
                cur <= j <= n,
                n == s@.len(),
                next_sep(s@, cur as int) == next_sep(s@, j as int),
            decreases n - j,
        {
            j = j + 1;
        }
        if n - j > 1 {
            proof {
                assert(next_sep(s@, cur as int) == j as int);
            }
            let ghost pre = parts.deep_view();
            let seg = s.substring_char(cur, j);
            parts.push(seg.to_owned());
            proof {
                assert(parts.deep_view() =~= pre.push(s@.subrange(cur as int, j as int)));
                assert(split_blank_from(s@, cur as int) == seq![
                    s@.subrange(cur as int, j as int),
                ] + split_blank_from(s@, j + 2));
                assert(parts.deep_view() + split_blank_from(s@, j + 2) =~= pre + split_blank_from(
                    s@,
                    cur as int,
                ));
            }
            cur = j + 2;
        } else {
            proof {
                assert(next_sep(s@, cur as int) >= n);
                lemma_next_sep(s@, cur as int);
                assert(next_sep(s@, cur as int) == n as int);
            }
            let ghost pre = parts.deep_view();
            let seg = s.substring_char(cur, n);
            parts.push(seg.to_owned());
            proof {
                assert(parts.deep_view() =~= pre.push(s@.subrange(cur as int, n as int)));
                assert(split_blank_from(s@, cur as int) == seq![
                    s@.subrange(cur as int, n as int),
                ]);
                assert(parts.deep_view() =~= pre + split_blank_from(s@, cur as int));
            }
            break;
        }
    }
    parts
}

/// Extract the paragraph elements of a decoded PDF text: split on blank
/// lines, trim, keep only segments longer than twenty bytes.
pub fn extract_pdf_paragraphs(text: &str) -> (r: Vec<DocumentElement>)
    ensures
        r.deep_view() == pdf_paragraph_elems(text@),
{
    let parts = split_blank_lines(text);
    let mut out: Vec<DocumentElement> = Vec::new();
    let n = parts.len();
    let mut i: usize = 0;
    while i < n
        invariant
            0 <= i <= n,
            n == parts.deep_view().len(),
            parts.deep_view() == split_blank_from(text@, 0),
            out.deep_view() == pdf_paragraphs_upto(parts.deep_view(), i as int),
        decreases n - i,
    {
        let ghost pre = out.deep_view();
        let t = trim_str(parts[i].as_str());
        if t.as_bytes().len() > 20 {
            let e = DocumentElement::Paragraph { text: t.to_owned() };
            let ghost em = e@;
            out.push(e);
            proof {
                assert(out.deep_view() =~= pre.push(em));
                assert(pre.push(em) =~= pdf_paragraphs_upto(parts.deep_view(), i + 1));
            }
        } else {
            proof {
                assert(pdf_paragraphs_upto(parts.deep_view(), i + 1) =~= pre);
            }
        }
        i = i + 1;
    }
    out
}

/// Extract the metadata the engine derives from a PDF path: one `Title`
/// holding the file name's stem.
pub fn extract_pdf_metadata(path: &str) -> (r: Vec<DocumentElement>)
    ensures
        r.deep_view() == pdf_title_elems(path@),
{
    let n = path.unicode_len();
    let mut bs: usize = 0;
    let mut i: usize = 0;
    while i < n
        invariant
            0 <= i <= n,
            n == path@.len(),
            bs == base_start(path@, i as int),
            bs <= i,
        decreases n - i,
    {
        if path.get_char(i) == '/' {
            bs = i + 1;
        }
        i = i + 1;
    }
    let b = path.substring_char(bs, n);
    proof {
        assert(b@ == base_name(path@));
    }
    let m = b.unicode_len();
    if m == 0 {
        let r: Vec<DocumentElement> = Vec::new();
        proof {
            assert(r.deep_view() =~= pdf_title_elems(path@));
        }
        return r;
    }
    let mut has_dot = false;
    let mut ld: usize = 0;
    let mut j: usize = 0;
    while j < m
        invariant
            0 <= j <= m,
            m == b@.len(),
            last_dot(b@, j as int) == (if has_dot {
                ld as int
            } else {
                -1
            }),
            has_dot ==> ld < j,
        decreases m - j,
    {
        if b.get_char(j) == '.' {
            has_dot = true;
            ld = j;
        }
        j = j + 1;
    }
    let stem = if has_dot && ld > 0 {
        b.substring_char(0, ld)
    } else {
        b
    };
    proof {
        assert(stem@ == stem_of(b@));
    }
    let e = DocumentElement::Title { text: stem.to_owned() };
    let ghost em = e@;
    let mut r: Vec<DocumentElement> = Vec::new();
    let ghost pre = r.deep_view();
    r.push(e);
    proof {
        assert(r.deep_view() =~= pre.push(em));
        assert(pre.push(em) =~= pdf_title_elems(path@));
    }
    r
}

/// Everything the engine derives from a PDF, given its path and its
/// decoded text: the title placeholder, then the filtered paragraphs.
pub fn pdf_document_elements(path: &str, text: &str) -> (r: Vec<DocumentElement>)
    ensures
        r.deep_view() == pdf_document_of(path@, text@),
{
    let mut out = extract_pdf_metadata(path);
    let ghost s0 = out.deep_view();
    let mut paras = extract_pdf_paragraphs(text);
    let ghost pv = paras.deep_view();
    out.append(&mut paras);
    proof {
        assert(out.deep_view() =~= s0 + pv);
    }
    out
}

} // verus!
