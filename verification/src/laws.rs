//! Cross-cutting guarantees of the extraction engine, stated over the
//! specification functions that the extraction contracts use: every
//! emitted element is well formed (levels in range, texts trimmed and
//! non-blank where the engine trims and filters), the output sequence is
//! grouped by category in the fixed pass order, and a `<code>` under a
//! `<pre>` is never emitted by the inline pass.

use vstd::prelude::*;
use crate::documents_types::ElemModel;
use crate::converter_types::RecordModel;
use crate::jsonl_converter::{esc_char, hex_char, json_escape_spec, json_opt_string, jsonl_line_of};
use crate::dom::{attr_val, has_ancestor_tag, NodeModel};
use crate::html_parser::{
    blockquote_at, blockquotes_of, blockquotes_upto, code_block_at, code_blocks_of,
    code_blocks_upto, document_of, elements_of, heading_at, headings_of, headings_upto,
    image_at, images_of, images_upto, inline_code_at, inline_codes_of, inline_codes_upto,
    language_value, link_at, links_of, links_upto, list_at, list_items_upto,
    lists_of, lists_upto, meta_content_value, metadata_of, paragraph_at, paragraphs_of,
    paragraphs_upto, table_at, tables_of, tables_upto, table_headers_upto, table_rows_upto,
    row_cells_upto, title_value, alt_elems, caption_elems, first_figcaption_from, first_tag_from,
};
use crate::text::{dec_spec, is_trimmed, lemma_trim_idempotent, trim_spec};

verus! {

/// The per-element invariants the engine establishes: heading levels lie
/// in 1..=6; every text the engine trims is fixed under trimming and,
/// where the engine filters, non-blank; lists are never empty; a table
/// has a header or a row, and each row has a cell; inline code is
/// trimmed and non-blank; metadata values are non-blank.
pub open spec fn elem_wf(e: ElemModel) -> bool {
    match e {
        ElemModel::Title { text } => is_trimmed(text) && text.len() > 0,
        ElemModel::Description { text } => trim_spec(text).len() > 0,
        ElemModel::Keywords { text } => trim_spec(text).len() > 0,
        ElemModel::Author { text } => trim_spec(text).len() > 0,
        ElemModel::Language { text } => trim_spec(text).len() > 0,
        ElemModel::Heading { level, text } => 1 <= level <= 6 && is_trimmed(text) && text.len()
            > 0,
        ElemModel::Paragraph { text } => is_trimmed(text) && text.len() > 0,
        ElemModel::Blockquote { text } => is_trimmed(text) && text.len() > 0,
        ElemModel::List { items, .. } => items.len() > 0 && forall|j: int|
            0 <= j < items.len() ==> is_trimmed(#[trigger] items[j]) && items[j].len() > 0,
        ElemModel::Table { headers, rows } => (headers.len() > 0 || rows.len() > 0) && (forall|
            j: int,
        |
            0 <= j < headers.len() ==> is_trimmed(#[trigger] headers[j])) && (forall|j: int|
            0 <= j < rows.len() ==> (#[trigger] rows[j]).len() > 0 && forall|k: int|
                0 <= k < rows[j].len() ==> is_trimmed(#[trigger] rows[j][k])),
        ElemModel::Code { code, inline, .. } => inline ==> is_trimmed(code) && code.len() > 0,
        ElemModel::Link { text, url } => is_trimmed(text) && text.len() > 0 && url.len() > 0,
        ElemModel::Image { alt, .. } => is_trimmed(alt) && alt.len() > 0,
    }
}

/// The position of an element's category in the fixed pass order:
/// metadata first, then headings, paragraphs, blockquotes, lists,
/// tables, code blocks, inline code, links, images.
pub open spec fn category_rank(e: ElemModel) -> int {
    match e {
        ElemModel::Title { .. } => -1,
        ElemModel::Description { .. } => -1,
        ElemModel::Keywords { .. } => -1,
        ElemModel::Author { .. } => -1,
        ElemModel::Language { .. } => -1,
        ElemModel::Heading { .. } => 0,
        ElemModel::Paragraph { .. } => 1,
        ElemModel::Blockquote { .. } => 2,
        ElemModel::List { .. } => 3,
        ElemModel::Table { .. } => 4,
        ElemModel::Code { inline, .. } => if inline {
            6
        } else {
            5
        },
        ElemModel::Link { .. } => 7,
        ElemModel::Image { .. } => 8,
    }
}

/// Every element of `s` satisfies `elem_wf` and has rank `r`.
pub open spec fn all_rank_wf(s: Seq<ElemModel>, r: int) -> bool {
    forall|i: int| 0 <= i < s.len() ==> elem_wf(#[trigger] s[i]) && category_rank(s[i]) == r
}

proof fn lemma_all_rank_wf_concat(a: Seq<ElemModel>, b: Seq<ElemModel>, r: int)
    requires
        all_rank_wf(a, r),
        all_rank_wf(b, r),
    ensures
        all_rank_wf(a + b, r),
{
    assert forall|i: int| 0 <= i < (a + b).len() implies elem_wf(#[trigger] (a + b)[i])
        && category_rank((a + b)[i]) == r by {
        if i < a.len() {
            assert((a + b)[i] == a[i]);
        } else {
            assert((a + b)[i] == b[i - a.len()]);
        }
    }
}

proof fn lemma_headings_rank_wf(ns: Seq<NodeModel>, k: int)
    ensures
        all_rank_wf(headings_upto(ns, k), 0),
    decreases k,
{
    if k > 0 {
        lemma_headings_rank_wf(ns, k - 1);
        lemma_trim_idempotent(ns[k - 1].text);
        lemma_all_rank_wf_concat(headings_upto(ns, k - 1), heading_at(ns, k - 1), 0);
    }
}

proof fn lemma_paragraphs_rank_wf(ns: Seq<NodeModel>, k: int)
    ensures
        all_rank_wf(paragraphs_upto(ns, k), 1),
    decreases k,
{
    if k > 0 {
        lemma_paragraphs_rank_wf(ns, k - 1);
        lemma_trim_idempotent(ns[k - 1].text);
        lemma_all_rank_wf_concat(paragraphs_upto(ns, k - 1), paragraph_at(ns, k - 1), 1);
    }
}

proof fn lemma_blockquotes_rank_wf(ns: Seq<NodeModel>, k: int)
    ensures
        all_rank_wf(blockquotes_upto(ns, k), 2),
    decreases k,
{
    if k > 0 {
        lemma_blockquotes_rank_wf(ns, k - 1);
        lemma_trim_idempotent(ns[k - 1].text);
        lemma_all_rank_wf_concat(blockquotes_upto(ns, k - 1), blockquote_at(ns, k - 1), 2);
    }
}

proof fn lemma_list_items_wf(ns: Seq<NodeModel>, anc: int, k: int)
    ensures
        forall|j: int|
            0 <= j < list_items_upto(ns, anc, k).len() ==> is_trimmed(
                #[trigger] list_items_upto(ns, anc, k)[j],
            ) && list_items_upto(ns, anc, k)[j].len() > 0,
    decreases k,
{
    if k > 0 {
        lemma_list_items_wf(ns, anc, k - 1);
        lemma_trim_idempotent(ns[k - 1].text);
        assert forall|j: int| 0 <= j < list_items_upto(ns, anc, k).len() implies is_trimmed(
            #[trigger] list_items_upto(ns, anc, k)[j],
        ) && list_items_upto(ns, anc, k)[j].len() > 0 by {
            if j < list_items_upto(ns, anc, k - 1).len() {
                assert(list_items_upto(ns, anc, k)[j] == list_items_upto(ns, anc, k - 1)[j]);
            } else {
                assert(list_items_upto(ns, anc, k)[j] == trim_spec(ns[k - 1].text));
            }
        }
    }
}

proof fn lemma_lists_rank_wf(ns: Seq<NodeModel>, ordered: bool, k: int)
    ensures
        all_rank_wf(lists_upto(ns, ordered, k), 3),
    decreases k,
{
    if k > 0 {
        lemma_lists_rank_wf(ns, ordered, k - 1);
        lemma_list_items_wf(ns, k - 1, ns.len() as int);
        lemma_all_rank_wf_concat(lists_upto(ns, ordered, k - 1), list_at(ns, k - 1, ordered), 3);
    }
}

proof fn lemma_table_headers_wf(ns: Seq<NodeModel>, t: int, k: int)
    ensures
        forall|j: int|
            0 <= j < table_headers_upto(ns, t, k).len() ==> is_trimmed(
                #[trigger] table_headers_upto(ns, t, k)[j],
            ),
    decreases k,
{
    if k > 0 {
        lemma_table_headers_wf(ns, t, k - 1);
        lemma_trim_idempotent(ns[k - 1].text);
        assert forall|j: int| 0 <= j < table_headers_upto(ns, t, k).len() implies is_trimmed(
            #[trigger] table_headers_upto(ns, t, k)[j],
        ) by {
            if j < table_headers_upto(ns, t, k - 1).len() {
                assert(table_headers_upto(ns, t, k)[j] == table_headers_upto(ns, t, k - 1)[j]);
            } else {
                assert(table_headers_upto(ns, t, k)[j] == trim_spec(ns[k - 1].text));
            }
        }
    }
}

proof fn lemma_row_cells_wf(ns: Seq<NodeModel>, tr: int, k: int)
    ensures
        forall|j: int|
            0 <= j < row_cells_upto(ns, tr, k).len() ==> is_trimmed(
                #[trigger] row_cells_upto(ns, tr, k)[j],
            ),
    decreases k,
{
    if k > 0 {
        lemma_row_cells_wf(ns, tr, k - 1);
        lemma_trim_idempotent(ns[k - 1].text);
        assert forall|j: int| 0 <= j < row_cells_upto(ns, tr, k).len() implies is_trimmed(
            #[trigger] row_cells_upto(ns, tr, k)[j],
        ) by {
            if j < row_cells_upto(ns, tr, k - 1).len() {
                assert(row_cells_upto(ns, tr, k)[j] == row_cells_upto(ns, tr, k - 1)[j]);
            } else {
                assert(row_cells_upto(ns, tr, k)[j] == trim_spec(ns[k - 1].text));
            }
        }
    }
}

proof fn lemma_table_rows_wf(ns: Seq<NodeModel>, t: int, k: int)
    ensures
        forall|j: int|
            0 <= j < table_rows_upto(ns, t, k).len() ==> (#[trigger] table_rows_upto(
                ns,
                t,
                k,
            )[j]).len() > 0 && forall|c: int|
                0 <= c < table_rows_upto(ns, t, k)[j].len() ==> is_trimmed(
                    #[trigger] table_rows_upto(ns, t, k)[j][c],
                ),
    decreases k,
{
    if k > 0 {
        lemma_table_rows_wf(ns, t, k - 1);
        lemma_row_cells_wf(ns, k - 1, ns.len() as int);
        assert forall|j: int| 0 <= j < table_rows_upto(ns, t, k).len() implies (
        #[trigger] table_rows_upto(ns, t, k)[j]).len() > 0 && forall|c: int|
            0 <= c < table_rows_upto(ns, t, k)[j].len() ==> is_trimmed(
                #[trigger] table_rows_upto(ns, t, k)[j][c],
            ) by {
            if j < table_rows_upto(ns, t, k - 1).len() {
                assert(table_rows_upto(ns, t, k)[j] == table_rows_upto(ns, t, k - 1)[j]);
            } else {
                assert(table_rows_upto(ns, t, k)[j] == row_cells_upto(ns, k - 1, ns.len() as int));
            }
        }
    }
}

proof fn lemma_tables_rank_wf(ns: Seq<NodeModel>, k: int)
    ensures
        all_rank_wf(tables_upto(ns, k), 4),
    decreases k,
{
    if k > 0 {
        lemma_tables_rank_wf(ns, k - 1);
        lemma_table_headers_wf(ns, k - 1, ns.len() as int);
        lemma_table_rows_wf(ns, k - 1, ns.len() as int);
        lemma_all_rank_wf_concat(tables_upto(ns, k - 1), table_at(ns, k - 1), 4);
    }
}

proof fn lemma_code_blocks_rank_wf(ns: Seq<NodeModel>, k: int)
    ensures
        all_rank_wf(code_blocks_upto(ns, k), 5),
    decreases k,
{
    if k > 0 {
        lemma_code_blocks_rank_wf(ns, k - 1);
        lemma_all_rank_wf_concat(code_blocks_upto(ns, k - 1), code_block_at(ns, k - 1), 5);
    }
}

proof fn lemma_inline_codes_rank_wf(ns: Seq<NodeModel>, k: int)
    ensures
        all_rank_wf(inline_codes_upto(ns, k), 6),
    decreases k,
{
    if k > 0 {
        lemma_inline_codes_rank_wf(ns, k - 1);
        lemma_trim_idempotent(ns[k - 1].text);
        lemma_all_rank_wf_concat(inline_codes_upto(ns, k - 1), inline_code_at(ns, k - 1), 6);
    }
}

proof fn lemma_links_rank_wf(ns: Seq<NodeModel>, k: int)
    ensures
        all_rank_wf(links_upto(ns, k), 7),
    decreases k,
{
    if k > 0 {
        lemma_links_rank_wf(ns, k - 1);
        lemma_trim_idempotent(ns[k - 1].text);
        lemma_all_rank_wf_concat(links_upto(ns, k - 1), link_at(ns, k - 1), 7);
    }
}

proof fn lemma_images_rank_wf(ns: Seq<NodeModel>, k: int)
    ensures
        all_rank_wf(images_upto(ns, k), 8),
    decreases k,
{
    if k > 0 {
        lemma_images_rank_wf(ns, k - 1);
        match attr_val(ns[k - 1], "alt"@) {
            Some(a) => {
                lemma_trim_idempotent(a);
            },
            None => {},
        }
        match ns[k - 1].parent {
            Some(par) => {
                match first_figcaption_from(ns, par, 0) {
                    Some(c) => {
                        lemma_trim_idempotent(ns[c].text);
                    },
                    None => {},
                }
            },
            None => {},
        }
        lemma_all_rank_wf_concat(alt_elems(ns[k - 1]), caption_elems(ns, k - 1), 8);
        lemma_all_rank_wf_concat(images_upto(ns, k - 1), image_at(ns, k - 1), 8);
    }
}

proof fn lemma_metadata_rank_wf(ns: Seq<NodeModel>)
    ensures
        all_rank_wf(metadata_of(ns), -1),
{
    match first_tag_from(ns, "title"@, 0) {
        Some(ti) => {
            lemma_trim_idempotent(ns[ti].text);
        },
        None => {},
    }
    let m1 = (match title_value(ns) {
        Some(t) => seq![ElemModel::Title { text: t }],
        None => Seq::<ElemModel>::empty(),
    });
    let m2 = (match meta_content_value(ns, "description"@) {
        Some(t) => seq![ElemModel::Description { text: t }],
        None => Seq::<ElemModel>::empty(),
    });
    let m3 = (match meta_content_value(ns, "keywords"@) {
        Some(t) => seq![ElemModel::Keywords { text: t }],
        None => Seq::<ElemModel>::empty(),
    });
    let m4 = (match meta_content_value(ns, "author"@) {
        Some(t) => seq![ElemModel::Author { text: t }],
        None => Seq::<ElemModel>::empty(),
    });
    let m5 = (match language_value(ns) {
        Some(t) => seq![ElemModel::Language { text: t }],
        None => Seq::<ElemModel>::empty(),
    });
    assert(all_rank_wf(m1, -1));
    assert(all_rank_wf(m2, -1));
    assert(all_rank_wf(m3, -1));
    assert(all_rank_wf(m4, -1));
    assert(all_rank_wf(m5, -1));
    lemma_all_rank_wf_concat(m1, m2, -1);
    lemma_all_rank_wf_concat(m1 + m2, m3, -1);
    lemma_all_rank_wf_concat(m1 + m2 + m3, m4, -1);
    lemma_all_rank_wf_concat(m1 + m2 + m3 + m4, m5, -1);
}

/// Every element of `s` satisfies `elem_wf`.
pub open spec fn all_wf(s: Seq<ElemModel>) -> bool {
    forall|i: int| 0 <= i < s.len() ==> elem_wf(#[trigger] s[i])
}

proof fn lemma_rank_wf_implies_wf(s: Seq<ElemModel>, r: int)
    requires
        all_rank_wf(s, r),
    ensures
        all_wf(s),
{
}

proof fn lemma_all_wf_concat(a: Seq<ElemModel>, b: Seq<ElemModel>)
    requires
        all_wf(a),
        all_wf(b),
    ensures
        all_wf(a + b),
{
    assert forall|i: int| 0 <= i < (a + b).len() implies elem_wf(#[trigger] (a + b)[i]) by {
        if i < a.len() {
            assert((a + b)[i] == a[i]);
        } else {
            assert((a + b)[i] == b[i - a.len()]);
        }
    }
}

proof fn lemma_all_passes(ns: Seq<NodeModel>)
    ensures
        all_rank_wf(metadata_of(ns), -1),
        all_rank_wf(headings_of(ns), 0),
        all_rank_wf(paragraphs_of(ns), 1),
        all_rank_wf(blockquotes_of(ns), 2),
        all_rank_wf(lists_of(ns), 3),
        all_rank_wf(tables_of(ns), 4),
        all_rank_wf(code_blocks_of(ns), 5),
        all_rank_wf(inline_codes_of(ns), 6),
        all_rank_wf(links_of(ns), 7),
        all_rank_wf(images_of(ns), 8),
{
    let n = ns.len() as int;
    lemma_metadata_rank_wf(ns);
    lemma_headings_rank_wf(ns, n);
    lemma_paragraphs_rank_wf(ns, n);
    lemma_blockquotes_rank_wf(ns, n);
    lemma_lists_rank_wf(ns, false, n);
    lemma_lists_rank_wf(ns, true, n);
    lemma_all_rank_wf_concat(lists_upto(ns, false, n), lists_upto(ns, true, n), 3);
    lemma_tables_rank_wf(ns, n);
    lemma_code_blocks_rank_wf(ns, n);
    lemma_inline_codes_rank_wf(ns, n);
    lemma_links_rank_wf(ns, n);
    lemma_images_rank_wf(ns, n);
}

/// Every element the engine emits is well formed: heading levels lie in
/// 1..=6, and every text the engine trims equals its trimmed form —
/// trimming it again changes nothing — and is non-blank wherever the
/// engine filters blanks.
pub proof fn lemma_element_invariants(ns: Seq<NodeModel>)
    ensures
        forall|i: int|
            0 <= i < document_of(ns).len() ==> elem_wf(#[trigger] document_of(ns)[i]),
{
    lemma_all_passes(ns);
    lemma_rank_wf_implies_wf(metadata_of(ns), -1);
    lemma_rank_wf_implies_wf(headings_of(ns), 0);
    lemma_rank_wf_implies_wf(paragraphs_of(ns), 1);
    lemma_rank_wf_implies_wf(blockquotes_of(ns), 2);
    lemma_rank_wf_implies_wf(lists_of(ns), 3);
    lemma_rank_wf_implies_wf(tables_of(ns), 4);
    lemma_rank_wf_implies_wf(code_blocks_of(ns), 5);
    lemma_rank_wf_implies_wf(inline_codes_of(ns), 6);
    lemma_rank_wf_implies_wf(links_of(ns), 7);
    lemma_rank_wf_implies_wf(images_of(ns), 8);
    lemma_all_wf_concat(headings_of(ns), paragraphs_of(ns));
    lemma_all_wf_concat(headings_of(ns) + paragraphs_of(ns), blockquotes_of(ns));
    let s3 = headings_of(ns) + paragraphs_of(ns) + blockquotes_of(ns);
    lemma_all_wf_concat(s3, lists_of(ns));
    lemma_all_wf_concat(s3 + lists_of(ns), tables_of(ns));
    let s5 = s3 + lists_of(ns) + tables_of(ns);
    lemma_all_wf_concat(s5, code_blocks_of(ns));
    lemma_all_wf_concat(s5 + code_blocks_of(ns), inline_codes_of(ns));
    let s7 = s5 + code_blocks_of(ns) + inline_codes_of(ns);
    lemma_all_wf_concat(s7, links_of(ns));
    lemma_all_wf_concat(s7 + links_of(ns), images_of(ns));
    lemma_all_wf_concat(metadata_of(ns), elements_of(ns));
}

/// Ranks never decrease along `s`: the sequence is grouped by category.
pub open spec fn ranks_grouped(s: Seq<ElemModel>) -> bool {
    forall|i: int, j: int|
        #![trigger s[i], s[j]]
        0 <= i && i <= j && j < s.len() ==> category_rank(s[i]) <= category_rank(s[j])
}

/// Every rank in `s` is at most `m`.
pub open spec fn ranks_below(s: Seq<ElemModel>, m: int) -> bool {
    forall|i: int| 0 <= i < s.len() ==> category_rank(#[trigger] s[i]) <= m
}

/// Every rank in `s` is at least `m`.
pub open spec fn ranks_above(s: Seq<ElemModel>, m: int) -> bool {
    forall|i: int| 0 <= i < s.len() ==> category_rank(#[trigger] s[i]) >= m
}

proof fn lemma_const_grouped(s: Seq<ElemModel>, r: int)
    requires
        all_rank_wf(s, r),
    ensures
        ranks_grouped(s),
        ranks_below(s, r),
        ranks_above(s, r),
{
}

proof fn lemma_group_concat(a: Seq<ElemModel>, b: Seq<ElemModel>, m: int, lo: int, hi: int)
    requires
        ranks_grouped(a),
        ranks_grouped(b),
        ranks_below(a, m),
        ranks_above(b, m),
        ranks_above(a, lo),
        lo <= m,
        ranks_below(b, hi),
        m <= hi,
    ensures
        ranks_grouped(a + b),
        ranks_above(a + b, lo),
        ranks_below(a + b, hi),
{
    assert forall|i: int, j: int|
        #![trigger (a + b)[i], (a + b)[j]]
        0 <= i && i <= j && j < (a + b).len() implies category_rank((a + b)[i]) <= category_rank(
        (a + b)[j],
    ) by {
        if j < a.len() {
            assert((a + b)[i] == a[i]);
            assert((a + b)[j] == a[j]);
        } else if i < a.len() {
            assert((a + b)[i] == a[i]);
            assert((a + b)[j] == b[j - a.len()]);
        } else {
            assert((a + b)[i] == b[i - a.len()]);
            assert((a + b)[j] == b[j - a.len()]);
        }
    }
    assert forall|i: int| 0 <= i < (a + b).len() implies category_rank(#[trigger] (a + b)[i])
        >= lo && category_rank((a + b)[i]) <= hi by {
        if i < a.len() {
            assert((a + b)[i] == a[i]);
        } else {
            assert((a + b)[i] == b[i - a.len()]);
        }
    }
}

/// The output sequence is grouped by category in the fixed pass order:
/// along the whole extraction, an element's category position never
/// moves backwards, whatever the elements' positions in the source
/// markup were.
pub proof fn lemma_category_grouping(ns: Seq<NodeModel>)
    ensures
        ranks_grouped(document_of(ns)),
        ranks_grouped(elements_of(ns)),
{
    let n = ns.len() as int;
    lemma_all_passes(ns);
    lemma_const_grouped(metadata_of(ns), -1);
    lemma_const_grouped(headings_of(ns), 0);
    lemma_const_grouped(paragraphs_of(ns), 1);
    lemma_const_grouped(blockquotes_of(ns), 2);
    lemma_const_grouped(lists_of(ns), 3);
    lemma_const_grouped(tables_of(ns), 4);
    lemma_const_grouped(code_blocks_of(ns), 5);
    lemma_const_grouped(inline_codes_of(ns), 6);
    lemma_const_grouped(links_of(ns), 7);
    lemma_const_grouped(images_of(ns), 8);
    lemma_group_concat(headings_of(ns), paragraphs_of(ns), 1, 0, 1);
    lemma_group_concat(headings_of(ns) + paragraphs_of(ns), blockquotes_of(ns), 2, 0, 2);
    let s3 = headings_of(ns) + paragraphs_of(ns) + blockquotes_of(ns);
    lemma_group_concat(s3, lists_of(ns), 3, 0, 3);
    lemma_group_concat(s3 + lists_of(ns), tables_of(ns), 4, 0, 4);
    let s5 = s3 + lists_of(ns) + tables_of(ns);
    lemma_group_concat(s5, code_blocks_of(ns), 5, 0, 5);
    lemma_group_concat(s5 + code_blocks_of(ns), inline_codes_of(ns), 6, 0, 6);
    let s7 = s5 + code_blocks_of(ns) + inline_codes_of(ns);
    lemma_group_concat(s7, links_of(ns), 7, 0, 7);
    lemma_group_concat(s7 + links_of(ns), images_of(ns), 8, 0, 8);
    lemma_group_concat(metadata_of(ns), elements_of(ns), 0, -1, 8);
}

/// Inline code and code blocks exclude each other: a `<code>` below a
/// `<pre>` contributes nothing to the inline pass; every code-block
/// element has `inline` false and every inline element has it true; and
/// each `<pre>` yields exactly one code-block element.
pub proof fn lemma_code_exclusion(ns: Seq<NodeModel>)
    ensures
        forall|j: int|
            0 <= j < ns.len() && ns[j].tag == "code"@ && has_ancestor_tag(ns, j, "pre"@)
                ==> #[trigger] inline_code_at(ns, j) == Seq::<ElemModel>::empty(),
        forall|i: int|
            0 <= i < code_blocks_of(ns).len() ==> (#[trigger] code_blocks_of(
                ns,
            )[i]) matches ElemModel::Code { inline: false, .. },
        forall|i: int|
            0 <= i < inline_codes_of(ns).len() ==> (#[trigger] inline_codes_of(
                ns,
            )[i]) matches ElemModel::Code { inline: true, .. },
        forall|i: int|
            0 <= i < ns.len() && ns[i].tag == "pre"@ ==> (#[trigger] code_block_at(
                ns,
                i,
            )).len() == 1,
{
    let n = ns.len() as int;
    lemma_code_blocks_rank_wf(ns, n);
    lemma_inline_codes_rank_wf(ns, n);
    assert forall|j: int|
        0 <= j < ns.len() && ns[j].tag == "code"@ && has_ancestor_tag(
            ns,
            j,
            "pre"@,
        ) implies #[trigger] inline_code_at(ns, j) == Seq::<ElemModel>::empty() by {
        assert(inline_code_at(ns, j) =~= Seq::<ElemModel>::empty());
    }
    assert forall|i: int| 0 <= i < code_blocks_of(ns).len() implies (#[trigger] code_blocks_of(
        ns,
    )[i]) matches ElemModel::Code { inline: false, .. } by {
        assert(category_rank(code_blocks_of(ns)[i]) == 5);
    }
    assert forall|i: int| 0 <= i < inline_codes_of(ns).len() implies (#[trigger] inline_codes_of(
        ns,
    )[i]) matches ElemModel::Code { inline: true, .. } by {
        assert(category_rank(inline_codes_of(ns)[i]) == 6);
    }
}

/// A character with one of the short JSON escapes.
pub open spec fn short_escaped(c: char) -> bool {
    c == '"' || c == '\\' || c == '\u{8}' || c == '\t' || c == '\n' || c == '\u{c}' || c == '\r'
}

/// A character escaped as `\u00XX`.
pub open spec fn u_escaped(c: char) -> bool {
    !short_escaped(c) && (c as u32) < 0x20
}

proof fn lemma_hex_char_inj(d1: int, d2: int)
    requires
        0 <= d1 < 16,
        0 <= d2 < 16,
        hex_char(d1) == hex_char(d2),
    ensures
        d1 == d2,
{
}

proof fn lemma_concat_cancel(p: Seq<char>, q: Seq<char>, x: Seq<char>, y: Seq<char>)
    requires
        p + x == q + y,
        p.len() == q.len(),
    ensures
        x == y,
{
    assert((p + x).len() == p.len() + x.len());
    assert((q + y).len() == q.len() + y.len());
    assert(x.len() == y.len());
    assert forall|k: int| 0 <= k < x.len() implies x[k] == y[k] by {
        assert((p + x)[p.len() + k] == x[k]);
        assert((q + y)[q.len() + k] == y[k]);
    }
    assert(x =~= y);
}

/// No escape is a prefix of another character's escape: equal
/// concatenations force equal characters and equal tails.
proof fn lemma_esc_prefix(a: char, b: char, x: Seq<char>, y: Seq<char>)
    requires
        esc_char(a) + x == esc_char(b) + y,
    ensures
        a == b,
        x == y,
{
    let ea = esc_char(a);
    let eb = esc_char(b);
    assert(ea.len() >= 1 && eb.len() >= 1);
    assert((ea + x)[0] == ea[0]);
    assert((eb + y)[0] == eb[0]);
    assert(ea[0] == eb[0]);
    if !short_escaped(a) && !u_escaped(a) {
        assert(ea == seq![a]);
        if short_escaped(b) || u_escaped(b) {
            assert(eb[0] == '\\');
            assert(a == '\\');
            assert(false);
        } else {
            assert(eb == seq![b]);
            assert(a == b);
        }
    } else if short_escaped(a) {
        assert(ea.len() == 2);
        if !short_escaped(b) && !u_escaped(b) {
            assert(eb == seq![b]);
            assert(b == '\\');
            assert(false);
        } else {
            assert(eb.len() >= 2);
            assert((ea + x)[1] == ea[1]);
            assert((eb + y)[1] == eb[1]);
            assert(ea[1] == eb[1]);
            if u_escaped(b) {
                assert(eb[1] == 'u');
                assert(false);
            } else {
                assert(a == b);
            }
        }
    } else {
        assert(u_escaped(a));
        assert(ea.len() == 6);
        if !short_escaped(b) && !u_escaped(b) {
            assert(eb == seq![b]);
            assert(b == '\\');
            assert(false);
        } else if short_escaped(b) {
            assert((ea + x)[1] == ea[1]);
            assert((eb + y)[1] == eb[1]);
            assert(ea[1] == 'u');
            assert(false);
        } else {
            assert(eb.len() == 6);
            assert((ea + x)[4] == ea[4]);
            assert((eb + y)[4] == eb[4]);
            assert((ea + x)[5] == ea[5]);
            assert((eb + y)[5] == eb[5]);
            let ua = (a as u32) as int;
            let ub = (b as u32) as int;
            lemma_hex_char_inj(ua / 16, ub / 16);
            lemma_hex_char_inj(ua % 16, ub % 16);
            assert(ua == ub);
            vstd::utf8::char_u32_cast(a, a as u32);
            vstd::utf8::char_u32_cast(b, b as u32);
            assert(a == b);
        }
    }
    lemma_concat_cancel(ea, eb, x, y);
}

/// The JSON escaping is injective: a rendered string body determines the
/// text it encodes.
pub proof fn lemma_escape_injective(s1: Seq<char>, s2: Seq<char>)
    requires
        json_escape_spec(s1) == json_escape_spec(s2),
    ensures
        s1 == s2,
    decreases s1.len(),
{
    if s1.len() == 0 {
        if s2.len() > 0 {
            assert(json_escape_spec(s2) == esc_char(s2[0]) + json_escape_spec(s2.drop_first()));
            assert(esc_char(s2[0]).len() >= 1);
            assert(json_escape_spec(s2).len() >= 1);
            assert(false);
        }
        assert(s1 =~= s2);
    } else if s2.len() == 0 {
        assert(json_escape_spec(s1) == esc_char(s1[0]) + json_escape_spec(s1.drop_first()));
        assert(esc_char(s1[0]).len() >= 1);
        assert(false);
    } else {
        assert(json_escape_spec(s1) == esc_char(s1[0]) + json_escape_spec(s1.drop_first()));
        assert(json_escape_spec(s2) == esc_char(s2[0]) + json_escape_spec(s2.drop_first()));
        lemma_esc_prefix(
            s1[0],
            s2[0],
            json_escape_spec(s1.drop_first()),
            json_escape_spec(s2.drop_first()),
        );
        lemma_escape_injective(s1.drop_first(), s2.drop_first());
        assert forall|k: int| 0 <= k < s1.len() implies s1[k] == s2[k] by {
            if k > 0 {
                assert(s1.drop_first()[k - 1] == s1[k]);
                assert(s2.drop_first()[k - 1] == s2[k]);
            }
        }
        assert(s1 =~= s2);
    }
}

proof fn lemma_assoc3(a: Seq<char>, b: Seq<char>, c: Seq<char>)
    ensures
        (a + b) + c == a + (b + c),
{
    assert((a + b) + c =~= a + (b + c));
}

/// An escaped string body never starts with a bare quote, so the first
/// unescaped quote ends the field: equal quote-terminated fields force
/// equal texts and equal remainders.
proof fn lemma_quoted_field(s1: Seq<char>, s2: Seq<char>, r1: Seq<char>, r2: Seq<char>)
    requires
        (json_escape_spec(s1) + seq!['"']) + r1 == (json_escape_spec(s2) + seq!['"']) + r2,
    ensures
        s1 == s2,
        r1 == r2,
    decreases s1.len(),
{
    let q = seq!['"'];
    if s1.len() == 0 {
        if s2.len() > 0 {
            assert(json_escape_spec(s2) == esc_char(s2[0]) + json_escape_spec(s2.drop_first()));
            assert(esc_char(s2[0]).len() >= 1);
            assert(((json_escape_spec(s2) + q) + r2)[0] == esc_char(s2[0])[0]);
            assert(esc_char(s2[0])[0] != '"');
            assert(((json_escape_spec(s1) + q) + r1)[0] == '"');
            assert(false);
        }
        assert(s1 =~= s2);
        lemma_concat_cancel(
            json_escape_spec(s1) + q,
            json_escape_spec(s2) + q,
            r1,
            r2,
        );
    } else if s2.len() == 0 {
        assert(json_escape_spec(s1) == esc_char(s1[0]) + json_escape_spec(s1.drop_first()));
        assert(esc_char(s1[0]).len() >= 1);
        assert(((json_escape_spec(s1) + q) + r1)[0] == esc_char(s1[0])[0]);
        assert(esc_char(s1[0])[0] != '"');
        assert(((json_escape_spec(s2) + q) + r2)[0] == '"');
        assert(false);
    } else {
        assert(json_escape_spec(s1) == esc_char(s1[0]) + json_escape_spec(s1.drop_first()));
        assert(json_escape_spec(s2) == esc_char(s2[0]) + json_escape_spec(s2.drop_first()));
        lemma_assoc3(esc_char(s1[0]), json_escape_spec(s1.drop_first()), q);
        lemma_assoc3(esc_char(s1[0]), json_escape_spec(s1.drop_first()) + q, r1);
        lemma_assoc3(esc_char(s2[0]), json_escape_spec(s2.drop_first()), q);
        lemma_assoc3(esc_char(s2[0]), json_escape_spec(s2.drop_first()) + q, r2);
        lemma_esc_prefix(
            s1[0],
            s2[0],
            (json_escape_spec(s1.drop_first()) + q) + r1,
            (json_escape_spec(s2.drop_first()) + q) + r2,
        );
        lemma_quoted_field(s1.drop_first(), s2.drop_first(), r1, r2);
        assert forall|k: int| 0 <= k < s1.len() implies s1[k] == s2[k] by {
            if k > 0 {
                assert(s1.drop_first()[k - 1] == s1[k]);
                assert(s2.drop_first()[k - 1] == s2[k]);
            }
        }
        assert(s1 =~= s2);
    }
}

/// Reassociates a rendered line into header, quote-terminated text
/// field, and quote-terminated element-type field followed by the rest
/// of the record.
proof fn lemma_line_shape(r: RecordModel)
    ensures
        jsonl_line_of(r) == "{\"text\":\""@ + ((json_escape_spec(r.text) + seq!['"'])
            + (",\"element_type\":\""@ + ((json_escape_spec(r.element_type) + seq!['"'])
            + (",\"metadata\":{\"source_file\":\""@ + line_rest(r))))),
{
    let q = seq!['"'];
    let p1 = "{\"text\":\""@;
    let p2 = "\",\"element_type\":\""@;
    let p2s = ",\"element_type\":\""@;
    let p3 = "\",\"metadata\":{\"source_file\":\""@;
    let p3s = ",\"metadata\":{\"source_file\":\""@;
    let a = json_escape_spec(r.text);
    let b = json_escape_spec(r.element_type);
    let z2 = line_rest(r);
    reveal_strlit("\",\"element_type\":\"");
    reveal_strlit(",\"element_type\":\"");
    reveal_strlit("\",\"metadata\":{\"source_file\":\"");
    reveal_strlit(",\"metadata\":{\"source_file\":\"");
    assert(p2 =~= q + p2s);
    assert(p3 =~= q + p3s);
    let t2 = (p1 + a) + p2;
    let c = json_escape_spec(r.metadata.source_file);
    let p4 = "\",\"document_type\":\""@;
    let d = json_escape_spec(r.metadata.document_type);
    let p5 = "\",\"content_length\":"@;
    let f = dec_spec(r.metadata.content_length);
    let p6 = ",\"language\":"@;
    let g = json_opt_string(r.metadata.language);
    let p7 = ",\"timestamp\":\""@;
    let h = json_escape_spec(r.metadata.timestamp);
    let p8 = "\"}}"@;
    // Fold the line into t2 + z, peeling one chunk at a time.
    lemma_assoc3(t2, b, p3);
    lemma_assoc3(t2, b + p3, c);
    lemma_assoc3(t2, (b + p3) + c, p4);
    lemma_assoc3(t2, ((b + p3) + c) + p4, d);
    lemma_assoc3(t2, (((b + p3) + c) + p4) + d, p5);
    lemma_assoc3(t2, ((((b + p3) + c) + p4) + d) + p5, f);
    lemma_assoc3(t2, (((((b + p3) + c) + p4) + d) + p5) + f, p6);
    lemma_assoc3(t2, ((((((b + p3) + c) + p4) + d) + p5) + f) + p6, g);
    lemma_assoc3(t2, (((((((b + p3) + c) + p4) + d) + p5) + f) + p6) + g, p7);
    lemma_assoc3(t2, ((((((((b + p3) + c) + p4) + d) + p5) + f) + p6) + g) + p7, h);
    lemma_assoc3(t2, (((((((((b + p3) + c) + p4) + d) + p5) + f) + p6) + g) + p7) + h, p8);
    let z = ((((((((((b + p3) + c) + p4) + d) + p5) + f) + p6) + g) + p7) + h) + p8;
    assert(jsonl_line_of(r) == t2 + z);
    // Fold z into (b + p3) + z2, where z2 is the rest of the record.
    let w = b + p3;
    lemma_assoc3(w, c, p4);
    lemma_assoc3(w, c + p4, d);
    lemma_assoc3(w, (c + p4) + d, p5);
    lemma_assoc3(w, ((c + p4) + d) + p5, f);
    lemma_assoc3(w, (((c + p4) + d) + p5) + f, p6);
    lemma_assoc3(w, ((((c + p4) + d) + p5) + f) + p6, g);
    lemma_assoc3(w, (((((c + p4) + d) + p5) + f) + p6) + g, p7);
    lemma_assoc3(w, ((((((c + p4) + d) + p5) + f) + p6) + g) + p7, h);
    lemma_assoc3(w, (((((((c + p4) + d) + p5) + f) + p6) + g) + p7) + h, p8);
    assert(z == w + z2);
    // Split the separators at their leading quote.
    lemma_assoc3(b, q, p3s);
    assert(w == (b + q) + p3s);
    lemma_assoc3(b + q, p3s, z2);
    assert(z == (b + q) + (p3s + z2));
    lemma_assoc3(p1, a, p2);
    lemma_assoc3(a, q, p2s);
    assert(t2 == p1 + ((a + q) + p2s));
    lemma_assoc3(p1, (a + q) + p2s, z);
    lemma_assoc3(a + q, p2s, z);
    assert(jsonl_line_of(r) == p1 + ((a + q) + (p2s + ((b + q) + (p3s + z2)))));
}

/// Everything in a rendered line after the element-type field.
spec fn line_rest(r: RecordModel) -> Seq<char> {
    ((((((((json_escape_spec(r.metadata.source_file) + "\",\"document_type\":\""@)
        + json_escape_spec(r.metadata.document_type)) + "\",\"content_length\":"@) + dec_spec(
        r.metadata.content_length,
    )) + ",\"language\":"@) + json_opt_string(r.metadata.language)) + ",\"timestamp\":\""@)
        + json_escape_spec(r.metadata.timestamp)) + "\"}}"@
}

/// A rendered JSONL line determines the record's `text` and
/// `element_type`: parsing a line back recovers exactly the values the
/// element mapped to.
pub proof fn lemma_line_determines_record(r1: RecordModel, r2: RecordModel)
    requires
        jsonl_line_of(r1) == jsonl_line_of(r2),
    ensures
        r1.text == r2.text,
        r1.element_type == r2.element_type,
{
    let q = seq!['"'];
    let p1 = "{\"text\":\""@;
    let p2s = ",\"element_type\":\""@;
    let p3s = ",\"metadata\":{\"source_file\":\""@;
    lemma_line_shape(r1);
    lemma_line_shape(r2);
    let a1 = json_escape_spec(r1.text);
    let a2 = json_escape_spec(r2.text);
    let b1 = json_escape_spec(r1.element_type);
    let b2 = json_escape_spec(r2.element_type);
    let k1 = (b1 + q) + (p3s + line_rest(r1));
    let k2 = (b2 + q) + (p3s + line_rest(r2));
    lemma_concat_cancel(p1, p1, (a1 + q) + (p2s + k1), (a2 + q) + (p2s + k2));
    lemma_quoted_field(r1.text, r2.text, p2s + k1, p2s + k2);
    lemma_concat_cancel(p2s, p2s, k1, k2);
    lemma_quoted_field(r1.element_type, r2.element_type, p3s + line_rest(r1), p3s + line_rest(r2));
}

} // verus!
