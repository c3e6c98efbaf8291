//! The HTML extraction engine: independent category passes over the whole
//! document tree, appended in a fixed pass order (headings, paragraphs,
//! blockquotes, lists, tables, code blocks, inline code, links, image
//! descriptions), preceded by a metadata phase (title, description,
//! keywords, author, language). The emitted sequence reflects category
//! grouping, not document position: that fixed order is the contract
//! consumers rely on.

use vstd::prelude::*;
use crate::documents_types::{DocumentElement, ElemModel};
use crate::dom::{attr_val, has_ancestor_tag, parent_ok, strict_in_subtree, Dom, NodeModel};
use crate::text::{trim_spec, trim_str};

verus! {

/// Tags that the heading pass selects.
pub open spec fn is_heading_tag(tag: Seq<char>) -> bool {
    tag == "h1"@ || tag == "h2"@ || tag == "h3"@ || tag == "h4"@ || tag == "h5"@ || tag == "h6"@
}

/// The level a heading tag denotes: the numeric suffix of `h1`..`h6`.
pub open spec fn heading_level_of(tag: Seq<char>) -> int {
    if tag == "h1"@ {
        1
    } else if tag == "h2"@ {
        2
    } else if tag == "h3"@ {
        3
    } else if tag == "h4"@ {
        4
    } else if tag == "h5"@ {
        5
    } else if tag == "h6"@ {
        6
    } else {
        1
    }
}

/// What the heading pass emits for node `i`: one `Heading` with the tag's
/// level and the node's trimmed text, or nothing when the text is blank.
pub open spec fn heading_at(ns: Seq<NodeModel>, i: int) -> Seq<ElemModel> {
    if is_heading_tag(ns[i].tag) && trim_spec(ns[i].text).len() > 0 {
        seq![
            ElemModel::Heading {
                level: heading_level_of(ns[i].tag),
                text: trim_spec(ns[i].text),
            },
        ]
    } else {
        seq![]
    }
}

pub open spec fn headings_upto(ns: Seq<NodeModel>, k: int) -> Seq<ElemModel>
    decreases k,
{
    if k <= 0 {
        seq![]
    } else {
        headings_upto(ns, k - 1) + heading_at(ns, k - 1)
    }
}

/// All headings of the document, in document order.
pub open spec fn headings_of(ns: Seq<NodeModel>) -> Seq<ElemModel> {
    headings_upto(ns, ns.len() as int)
}

/// What the paragraph pass emits for node `i`.
pub open spec fn paragraph_at(ns: Seq<NodeModel>, i: int) -> Seq<ElemModel> {
    if ns[i].tag == "p"@ && trim_spec(ns[i].text).len() > 0 {
        seq![ElemModel::Paragraph { text: trim_spec(ns[i].text) }]
    } else {
        seq![]
    }
}

pub open spec fn paragraphs_upto(ns: Seq<NodeModel>, k: int) -> Seq<ElemModel>
    decreases k,
{
    if k <= 0 {
        seq![]
    } else {
        paragraphs_upto(ns, k - 1) + paragraph_at(ns, k - 1)
    }
}

/// All paragraphs of the document, in document order.
pub open spec fn paragraphs_of(ns: Seq<NodeModel>) -> Seq<ElemModel> {
    paragraphs_upto(ns, ns.len() as int)
}

/// What the blockquote pass emits for node `i`.
pub open spec fn blockquote_at(ns: Seq<NodeModel>, i: int) -> Seq<ElemModel> {
    if ns[i].tag == "blockquote"@ && trim_spec(ns[i].text).len() > 0 {
        seq![ElemModel::Blockquote { text: trim_spec(ns[i].text) }]
    } else {
        seq![]
    }
}

pub open spec fn blockquotes_upto(ns: Seq<NodeModel>, k: int) -> Seq<ElemModel>
    decreases k,
{
    if k <= 0 {
        seq![]
    } else {
        blockquotes_upto(ns, k - 1) + blockquote_at(ns, k - 1)
    }
}

/// All blockquotes of the document, in document order.
pub open spec fn blockquotes_of(ns: Seq<NodeModel>) -> Seq<ElemModel> {
    blockquotes_upto(ns, ns.len() as int)
}

/// The trimmed, non-blank texts of the `<li>` descendants of node `anc`
/// among the first `k` nodes, in document order.
pub open spec fn list_items_upto(ns: Seq<NodeModel>, anc: int, k: int) -> Seq<Seq<char>>
    decreases k,
{
    if k <= 0 {
        seq![]
    } else {
        list_items_upto(ns, anc, k - 1) + (if ns[k - 1].tag == "li"@ && strict_in_subtree(
            ns,
            anc,
            k - 1,
        ) && trim_spec(ns[k - 1].text).len() > 0 {
            seq![trim_spec(ns[k - 1].text)]
        } else {
            seq![]
        })
    }
}

/// The items of the list rooted at node `anc`.
pub open spec fn list_items(ns: Seq<NodeModel>, anc: int) -> Seq<Seq<char>> {
    list_items_upto(ns, anc, ns.len() as int)
}

/// What the list pass emits for node `i`: one `List` when the node is a
/// `<ul>` (or `<ol>` for the ordered pass) that yields at least one item.
pub open spec fn list_at(ns: Seq<NodeModel>, i: int, ordered: bool) -> Seq<ElemModel> {
    let tag = if ordered {
        "ol"@
    } else {
        "ul"@
    };
    if ns[i].tag == tag && list_items(ns, i).len() > 0 {
        seq![ElemModel::List { items: list_items(ns, i), ordered }]
    } else {
        seq![]
    }
}

pub open spec fn lists_upto(ns: Seq<NodeModel>, ordered: bool, k: int) -> Seq<ElemModel>
    decreases k,
{
    if k <= 0 {
        seq![]
    } else {
        lists_upto(ns, ordered, k - 1) + list_at(ns, k - 1, ordered)
    }
}

/// All lists of the document: every unordered list first, then every
/// ordered list, each in document order.
pub open spec fn lists_of(ns: Seq<NodeModel>) -> Seq<ElemModel> {
    lists_upto(ns, false, ns.len() as int) + lists_upto(ns, true, ns.len() as int)
}

/// The trimmed texts of the `<th>` descendants of table `t` among the
/// first `k` nodes.
pub open spec fn table_headers_upto(ns: Seq<NodeModel>, t: int, k: int) -> Seq<Seq<char>>
    decreases k,
{
    if k <= 0 {
        seq![]
    } else {
        table_headers_upto(ns, t, k - 1) + (if ns[k - 1].tag == "th"@ && strict_in_subtree(
            ns,
            t,
            k - 1,
        ) {
            seq![trim_spec(ns[k - 1].text)]
        } else {
            seq![]
        })
    }
}

pub open spec fn table_headers(ns: Seq<NodeModel>, t: int) -> Seq<Seq<char>> {
    table_headers_upto(ns, t, ns.len() as int)
}

/// The trimmed texts of the `<td>` descendants of row `tr` among the
/// first `k` nodes.
pub open spec fn row_cells_upto(ns: Seq<NodeModel>, tr: int, k: int) -> Seq<Seq<char>>
    decreases k,
{
    if k <= 0 {
        seq![]
    } else {
        row_cells_upto(ns, tr, k - 1) + (if ns[k - 1].tag == "td"@ && strict_in_subtree(
            ns,
            tr,
            k - 1,
        ) {
            seq![trim_spec(ns[k - 1].text)]
        } else {
            seq![]
        })
    }
}

pub open spec fn row_cells(ns: Seq<NodeModel>, tr: int) -> Seq<Seq<char>> {
    row_cells_upto(ns, tr, ns.len() as int)
}

/// The rows of table `t` among the first `k` nodes: one row per `<tr>`
/// descendant, rows without any `<td>` cell dropped.
pub open spec fn table_rows_upto(ns: Seq<NodeModel>, t: int, k: int) -> Seq<Seq<Seq<char>>>
    decreases k,
{
    if k <= 0 {
        seq![]
    } else {
        table_rows_upto(ns, t, k - 1) + (if ns[k - 1].tag == "tr"@ && strict_in_subtree(
            ns,
            t,
            k - 1,
        ) && row_cells(ns, k - 1).len() > 0 {
            seq![row_cells(ns, k - 1)]
        } else {
            seq![]
        })
    }
}

pub open spec fn table_rows(ns: Seq<NodeModel>, t: int) -> Seq<Seq<Seq<char>>> {
    table_rows_upto(ns, t, ns.len() as int)
}

/// What the table pass emits for node `i`: one `Table` when the node is a
/// `<table>` with at least one header or one row.
pub open spec fn table_at(ns: Seq<NodeModel>, i: int) -> Seq<ElemModel> {
    if ns[i].tag == "table"@ && (table_headers(ns, i).len() > 0 || table_rows(ns, i).len() > 0) {
        seq![ElemModel::Table { headers: table_headers(ns, i), rows: table_rows(ns, i) }]
    } else {
        seq![]
    }
}

pub open spec fn tables_upto(ns: Seq<NodeModel>, k: int) -> Seq<ElemModel>
    decreases k,
{
    if k <= 0 {
        seq![]
    } else {
        tables_upto(ns, k - 1) + table_at(ns, k - 1)
    }
}

/// All tables of the document, in document order.
pub open spec fn tables_of(ns: Seq<NodeModel>) -> Seq<ElemModel> {
    tables_upto(ns, ns.len() as int)
}

/// The language named by a `class` attribute of the form `language-<X>`:
/// everything after that prefix, or nothing.
pub open spec fn code_lang_of(n: NodeModel) -> Option<Seq<char>> {
    match attr_val(n, "class"@) {
        Some(cls) => if cls.len() >= 9 && cls.subrange(0, 9) == "language-"@ {
            Some(cls.subrange(9, cls.len() as int))
        } else {
            None
        },
        None => None,
    }
}

/// The first `<code>` descendant of node `pre` at or after position `k`.
pub open spec fn first_code_from(ns: Seq<NodeModel>, pre: int, k: int) -> Option<int>
    decreases ns.len() - k,
{
    if !(0 <= k < ns.len()) {
        None
    } else if ns[k].tag == "code"@ && strict_in_subtree(ns, pre, k) {
        Some(k)
    } else {
        first_code_from(ns, pre, k + 1)
    }
}

/// What the code-block pass emits for node `i`: per `<pre>`, one block
/// `Code` from its first `<code>` descendant (raw text, language from its
/// `class`), or from the `<pre>`'s own raw text when it has none.
pub open spec fn code_block_at(ns: Seq<NodeModel>, i: int) -> Seq<ElemModel> {
    if ns[i].tag == "pre"@ {
        match first_code_from(ns, i, 0) {
            Some(c) => seq![
                ElemModel::Code { code: ns[c].text, language: code_lang_of(ns[c]), inline: false },
            ],
            None => seq![ElemModel::Code { code: ns[i].text, language: None, inline: false }],
        }
    } else {
        seq![]
    }
}

pub open spec fn code_blocks_upto(ns: Seq<NodeModel>, k: int) -> Seq<ElemModel>
    decreases k,
{
    if k <= 0 {
        seq![]
    } else {
        code_blocks_upto(ns, k - 1) + code_block_at(ns, k - 1)
    }
}

/// All code blocks of the document, in document order.
pub open spec fn code_blocks_of(ns: Seq<NodeModel>) -> Seq<ElemModel> {
    code_blocks_upto(ns, ns.len() as int)
}

/// What the inline-code pass emits for node `i`: a `<code>` with no
/// `<pre>` ancestor and non-blank trimmed text. The ancestor exclusion
/// keeps this pass and the code-block pass from emitting the same node
/// twice.
pub open spec fn inline_code_at(ns: Seq<NodeModel>, i: int) -> Seq<ElemModel> {
    if ns[i].tag == "code"@ && !has_ancestor_tag(ns, i, "pre"@) && trim_spec(ns[i].text).len()
        > 0 {
        seq![
            ElemModel::Code { code: trim_spec(ns[i].text), language: None, inline: true },
        ]
    } else {
        seq![]
    }
}

pub open spec fn inline_codes_upto(ns: Seq<NodeModel>, k: int) -> Seq<ElemModel>
    decreases k,
{
    if k <= 0 {
        seq![]
    } else {
        inline_codes_upto(ns, k - 1) + inline_code_at(ns, k - 1)
    }
}

/// All inline code spans of the document, in document order.
pub open spec fn inline_codes_of(ns: Seq<NodeModel>) -> Seq<ElemModel> {
    inline_codes_upto(ns, ns.len() as int)
}

/// What the link pass emits for node `i`: an `<a>` with a non-empty
/// `href` value and non-blank trimmed anchor text.
pub open spec fn link_at(ns: Seq<NodeModel>, i: int) -> Seq<ElemModel> {
    match attr_val(ns[i], "href"@) {
        Some(u) => if ns[i].tag == "a"@ && u.len() > 0 && trim_spec(ns[i].text).len() > 0 {
            seq![ElemModel::Link { text: trim_spec(ns[i].text), url: u }]
        } else {
            seq![]
        },
        None => seq![],
    }
}

pub open spec fn links_upto(ns: Seq<NodeModel>, k: int) -> Seq<ElemModel>
    decreases k,
{
    if k <= 0 {
        seq![]
    } else {
        links_upto(ns, k - 1) + link_at(ns, k - 1)
    }
}

/// All links of the document, in document order.
pub open spec fn links_of(ns: Seq<NodeModel>) -> Seq<ElemModel> {
    links_upto(ns, ns.len() as int)
}

/// What an `<img>`'s `alt` attribute contributes: its trimmed text,
/// unless blank or one of the low-information literal values `image` and
/// `photo`.
pub open spec fn alt_elems(n: NodeModel) -> Seq<ElemModel> {
    match attr_val(n, "alt"@) {
        Some(a) => if trim_spec(a).len() > 0 && a != "image"@ && a != "photo"@ {
            seq![ElemModel::Image { alt: trim_spec(a), url: None }]
        } else {
            seq![]
        },
        None => seq![],
    }
}

/// The first `<figcaption>` at or after position `k` whose parent is the
/// node `par`.
pub open spec fn first_figcaption_from(ns: Seq<NodeModel>, par: int, k: int) -> Option<int>
    decreases ns.len() - k,
{
    if !(0 <= k < ns.len()) {
        None
    } else if ns[k].tag == "figcaption"@ && ns[k].parent == Some(par) {
        Some(k)
    } else {
        first_figcaption_from(ns, par, k + 1)
    }
}

/// What an `<img>`'s sibling `<figcaption>` contributes: the trimmed text
/// of the first caption sharing the image's parent, unless blank. A
/// best-effort pairing by structural sibling identity, not a guaranteed
/// association.
pub open spec fn caption_elems(ns: Seq<NodeModel>, i: int) -> Seq<ElemModel> {
    match ns[i].parent {
        Some(par) => match first_figcaption_from(ns, par, 0) {
            Some(c) => if trim_spec(ns[c].text).len() > 0 {
                seq![ElemModel::Image { alt: trim_spec(ns[c].text), url: None }]
            } else {
                seq![]
            },
            None => seq![],
        },
        None => seq![],
    }
}

/// What the image pass emits for node `i`: zero, one, or two `Image`
/// elements (alt text, then caption).
pub open spec fn image_at(ns: Seq<NodeModel>, i: int) -> Seq<ElemModel> {
    if ns[i].tag == "img"@ {
        alt_elems(ns[i]) + caption_elems(ns, i)
    } else {
        seq![]
    }
}

pub open spec fn images_upto(ns: Seq<NodeModel>, k: int) -> Seq<ElemModel>
    decreases k,
{
    if k <= 0 {
        seq![]
    } else {
        images_upto(ns, k - 1) + image_at(ns, k - 1)
    }
}

/// All image descriptions of the document, in document order.
pub open spec fn images_of(ns: Seq<NodeModel>) -> Seq<ElemModel> {
    images_upto(ns, ns.len() as int)
}

/// The language named by node `i`'s `class` attribute, per `code_lang_of`.
fn extract_code_language(doc: &Dom, i: usize) -> (r: Option<String>)
    requires
        i < doc@.len(),
    ensures
        r.deep_view() == code_lang_of(doc@[i as int]),
{
    match doc.attr(i, "class") {
        None => None,
        Some(cls) => {
            let cl = cls.as_str();
            let m = cl.unicode_len();
            if m >= 9 && crate::text::str_eq(cl.substring_char(0, 9), "language-") {
                Some(cl.substring_char(9, m).to_owned())
            } else {
                None
            }
        },
    }
}

/// The first `<code>` descendant of node `pre`, if any.
fn find_first_code(doc: &Dom, pre: usize) -> (r: Option<usize>)
    requires
        doc.wf(),
        pre < doc@.len(),
    ensures
        match r {
            Some(c) => first_code_from(doc@, pre as int, 0) == Some(c as int) && c < doc@.len(),
            None => first_code_from(doc@, pre as int, 0) is None,
        },
{
    let n = doc.len();
    let mut k: usize = 0;
    while k < n
        invariant
            0 <= k <= n,
            n == doc@.len(),
            doc.wf(),
            pre < doc@.len(),
            first_code_from(doc@, pre as int, 0) == first_code_from(doc@, pre as int, k as int),
        decreases n - k,
    {
        if doc.tag_is(k, "code") && doc.is_descendant(pre, k) {
            return Some(k);
        }
        k = k + 1;
    }
    None
}

/// Extract code blocks: one block per `<pre>`, raw (untrimmed) text from
/// its first `<code>` descendant when present, else from the `<pre>`
/// itself; the language is read from a `language-` class.
pub fn extract_code_blocks(doc: &Dom) -> (r: Vec<DocumentElement>)
    requires
        doc.wf(),
    ensures
        r.deep_view() == code_blocks_of(doc@),
{
    let mut out: Vec<DocumentElement> = Vec::new();
    let n = doc.len();
    let mut i: usize = 0;
    while i < n
        invariant
            0 <= i <= n,
            n == doc@.len(),
            doc.wf(),
            out.deep_view() == code_blocks_upto(doc@, i as int),
        decreases n - i,
    {
        let ghost pre = out.deep_view();
        if doc.tag_is(i, "pre") {
            let e = match find_first_code(doc, i) {
                Some(c) => {
                    let code = doc.text_of(c).clone();
                    let language = extract_code_language(doc, c);
                    DocumentElement::Code { code, language, inline: false }
                },
                None => {
                    let code = doc.text_of(i).clone();
                    DocumentElement::Code { code, language: None, inline: false }
                },
            };
            let ghost em = e@;
            out.push(e);
            proof {
                assert(out.deep_view() =~= pre.push(em));
                assert(pre.push(em) =~= pre + code_block_at(doc@, i as int));
            }
        } else {
            proof {
                assert(pre + code_block_at(doc@, i as int) =~= pre);
            }
        }
        i = i + 1;
    }
    out
}

/// Extract inline code: every `<code>` without a `<pre>` ancestor, text
/// trimmed, blank spans skipped.
pub fn extract_inline_codes(doc: &Dom) -> (r: Vec<DocumentElement>)
    requires
        doc.wf(),
    ensures
        r.deep_view() == inline_codes_of(doc@),
{
    let mut out: Vec<DocumentElement> = Vec::new();
    let n = doc.len();
    let mut i: usize = 0;
    while i < n
        invariant
            0 <= i <= n,
            n == doc@.len(),
            doc.wf(),
            out.deep_view() == inline_codes_upto(doc@, i as int),
        decreases n - i,
    {
        let ghost pre = out.deep_view();
        if doc.tag_is(i, "code") && !doc.has_ancestor(i, "pre") {
            let t = trim_str(doc.text_of(i).as_str());
            if t.unicode_len() > 0 {
                let e = DocumentElement::Code {
                    code: t.to_owned(),
                    language: None,
                    inline: true,
                };
                let ghost em = e@;
                out.push(e);
                proof {
                    assert(out.deep_view() =~= pre.push(em));
                    assert(pre.push(em) =~= pre + inline_code_at(doc@, i as int));
                }
            } else {
                proof {
                    assert(pre + inline_code_at(doc@, i as int) =~= pre);
                }
            }
        } else {
            proof {
                assert(pre + inline_code_at(doc@, i as int) =~= pre);
            }
        }
        i = i + 1;
    }
    out
}

/// Extract links: every `<a>` whose `href` value and trimmed anchor text
/// are both non-empty.
pub fn extract_links(doc: &Dom) -> (r: Vec<DocumentElement>)
    ensures
        r.deep_view() == links_of(doc@),
{
    let mut out: Vec<DocumentElement> = Vec::new();
    let n = doc.len();
    let mut i: usize = 0;
    while i < n
        invariant
            0 <= i <= n,
            n == doc@.len(),
            out.deep_view() == links_upto(doc@, i as int),
        decreases n - i,
    {
        let ghost pre = out.deep_view();
        let mut emitted = false;
        if doc.tag_is(i, "a") {
            match doc.attr(i, "href") {
                Some(url) => {
                    let t = trim_str(doc.text_of(i).as_str());
                    if url.as_str().unicode_len() > 0 && t.unicode_len() > 0 {
                        let e = DocumentElement::Link { text: t.to_owned(), url };
                        let ghost em = e@;
                        out.push(e);
                        emitted = true;
                        proof {
                            assert(out.deep_view() =~= pre.push(em));
                            assert(pre.push(em) =~= pre + link_at(doc@, i as int));
                        }
                    }
                },
                None => {},
            }
        }
        if !emitted {
            proof {
                assert(pre + link_at(doc@, i as int) =~= pre);
            }
        }
        i = i + 1;
    }
    out
}

/// The first `<figcaption>` whose parent is node `par`, if any.
fn find_caption(doc: &Dom, par: usize) -> (r: Option<usize>)
    requires
        par < doc@.len(),
    ensures
        match r {
            Some(c) => first_figcaption_from(doc@, par as int, 0) == Some(c as int) && c
                < doc@.len(),
            None => first_figcaption_from(doc@, par as int, 0) is None,
        },
{
    let n = doc.len();
    let mut k: usize = 0;
    while k < n
        invariant
            0 <= k <= n,
            n == doc@.len(),
            par < doc@.len(),
            first_figcaption_from(doc@, par as int, 0) == first_figcaption_from(
                doc@,
                par as int,
                k as int,
            ),
        decreases n - k,
    {
        if doc.tag_is(k, "figcaption") {
            let is_sibling = match doc.parent_of(k) {
                Some(pp) => pp == par,
                None => false,
            };
            if is_sibling {
                return Some(k);
            }
        }
        k = k + 1;
    }
    None
}

/// Extract image descriptions: per `<img>`, its acceptable `alt` text and
/// the trimmed text of a sibling `<figcaption>`, each when present.
pub fn extract_image_descriptions(doc: &Dom) -> (r: Vec<DocumentElement>)
    requires
        doc.wf(),
    ensures
        r.deep_view() == images_of(doc@),
{
    let mut out: Vec<DocumentElement> = Vec::new();
    let n = doc.len();
    let mut i: usize = 0;
    while i < n
        invariant
            0 <= i <= n,
            n == doc@.len(),
            doc.wf(),
            out.deep_view() == images_upto(doc@, i as int),
        decreases n - i,
    {
        let ghost pre = out.deep_view();
        if doc.tag_is(i, "img") {
            match doc.attr(i, "alt") {
                Some(alt) => {
                    let t = trim_str(alt.as_str());
                    if t.unicode_len() > 0 && !crate::text::str_eq(alt.as_str(), "image")
                        && !crate::text::str_eq(alt.as_str(), "photo") {
                        let e = DocumentElement::Image { alt: t.to_owned(), url: None };
                        let ghost em = e@;
                        out.push(e);
                        proof {
                            assert(out.deep_view() =~= pre.push(em));
                        }
                    }
                },
                None => {},
            }
            proof {
                assert(out.deep_view() =~= pre + alt_elems(doc@[i as int]));
            }
            let ghost mid = out.deep_view();
            match doc.parent_of(i) {
                Some(par) => {
                    proof {
                        assert(parent_ok(doc@, i as int));
                    }
                    match find_caption(doc, par) {
                        Some(c) => {
                            let t = trim_str(doc.text_of(c).as_str());
                            if t.unicode_len() > 0 {
                                let e = DocumentElement::Image { alt: t.to_owned(), url: None };
                                let ghost em = e@;
                                out.push(e);
                                proof {
                                    assert(out.deep_view() =~= mid.push(em));
                                }
                            }
                        },
                        None => {},
                    }
                },
                None => {},
            }
            proof {
                assert(out.deep_view() =~= mid + caption_elems(doc@, i as int));
                assert(out.deep_view() =~= pre + image_at(doc@, i as int));
            }
        } else {
            proof {
                assert(pre + image_at(doc@, i as int) =~= pre);
            }
        }
        i = i + 1;
    }
    out
}

/// All content elements, appended in the fixed pass order: headings,
/// paragraphs, blockquotes, lists, tables, code blocks, inline code,
/// links, image descriptions.
pub open spec fn elements_of(ns: Seq<NodeModel>) -> Seq<ElemModel> {
    headings_of(ns) + paragraphs_of(ns) + blockquotes_of(ns) + lists_of(ns) + tables_of(ns)
        + code_blocks_of(ns) + inline_codes_of(ns) + links_of(ns) + images_of(ns)
}

/// Extract every content element of the document, grouped by category in
/// the fixed pass order.
pub fn extract_elements(doc: &Dom) -> (r: Vec<DocumentElement>)
    requires
        doc.wf(),
    ensures
        r.deep_view() == elements_of(doc@),
{
    let mut out = extract_headings(doc);
    let ghost s1 = out.deep_view();
    let mut part = extract_paragraphs(doc);
    let ghost p2 = part.deep_view();
    out.append(&mut part);
    proof {
        assert(out.deep_view() =~= s1 + p2);
    }
    let ghost s2 = out.deep_view();
    let mut part = extract_blockquotes(doc);
    let ghost p3 = part.deep_view();
    out.append(&mut part);
    proof {
        assert(out.deep_view() =~= s2 + p3);
    }
    let ghost s3 = out.deep_view();
    let mut part = extract_lists(doc);
    let ghost p4 = part.deep_view();
    out.append(&mut part);
    proof {
        assert(out.deep_view() =~= s3 + p4);
    }
    let ghost s4 = out.deep_view();
    let mut part = extract_tables(doc);
    let ghost p5 = part.deep_view();
    out.append(&mut part);
    proof {
        assert(out.deep_view() =~= s4 + p5);
    }
    let ghost s5 = out.deep_view();
    let mut part = extract_code_blocks(doc);
    let ghost p6 = part.deep_view();
    out.append(&mut part);
    proof {
        assert(out.deep_view() =~= s5 + p6);
    }
    let ghost s6 = out.deep_view();
    let mut part = extract_inline_codes(doc);
    let ghost p7 = part.deep_view();
    out.append(&mut part);
    proof {
        assert(out.deep_view() =~= s6 + p7);
    }
    let ghost s7 = out.deep_view();
    let mut part = extract_links(doc);
    let ghost p8 = part.deep_view();
    out.append(&mut part);
    proof {
        assert(out.deep_view() =~= s7 + p8);
    }
    let ghost s8 = out.deep_view();
    let mut part = extract_image_descriptions(doc);
    let ghost p9 = part.deep_view();
    out.append(&mut part);
    proof {
        assert(out.deep_view() =~= s8 + p9);
    }
    out
}

/// The first node carrying the tag `tag`, at or after position `k`.
pub open spec fn first_tag_from(ns: Seq<NodeModel>, tag: Seq<char>, k: int) -> Option<int>
    decreases ns.len() - k,
{
    if !(0 <= k < ns.len()) {
        None
    } else if ns[k].tag == tag {
        Some(k)
    } else {
        first_tag_from(ns, tag, k + 1)
    }
}

/// The first `<meta>` whose `name` attribute equals `name`, at or after
/// position `k`.
pub open spec fn first_meta_from(ns: Seq<NodeModel>, name: Seq<char>, k: int) -> Option<int>
    decreases ns.len() - k,
{
    if !(0 <= k < ns.len()) {
        None
    } else if ns[k].tag == "meta"@ && attr_val(ns[k], "name"@) == Some(name) {
        Some(k)
    } else {
        first_meta_from(ns, name, k + 1)
    }
}

/// The first `<meta http-equiv=content-language>`, at or after position
/// `k`.
pub open spec fn first_lang_meta_from(ns: Seq<NodeModel>, k: int) -> Option<int>
    decreases ns.len() - k,
{
    if !(0 <= k < ns.len()) {
        None
    } else if ns[k].tag == "meta"@ && attr_val(ns[k], "http-equiv"@) == Some(
        "content-language"@,
    ) {
        Some(k)
    } else {
        first_lang_meta_from(ns, k + 1)
    }
}

/// The document title: the trimmed text of the first `<title>`, when
/// non-blank.
pub open spec fn title_value(ns: Seq<NodeModel>) -> Option<Seq<char>> {
    match first_tag_from(ns, "title"@, 0) {
        Some(i) => if trim_spec(ns[i].text).len() > 0 {
            Some(trim_spec(ns[i].text))
        } else {
            None
        },
        None => None,
    }
}

/// The `content` attribute of the first `<meta name=...>`, kept as
/// written, when present and non-blank.
pub open spec fn meta_content_value(ns: Seq<NodeModel>, name: Seq<char>) -> Option<Seq<char>> {
    match first_meta_from(ns, name, 0) {
        Some(i) => match attr_val(ns[i], "content"@) {
            Some(v) => if trim_spec(v).len() > 0 {
                Some(v)
            } else {
                None
            },
            None => None,
        },
        None => None,
    }
}

/// The `content` attribute of the first `<meta
/// http-equiv=content-language>`, when present and non-blank.
pub open spec fn lang_meta_value(ns: Seq<NodeModel>) -> Option<Seq<char>> {
    match first_lang_meta_from(ns, 0) {
        Some(i) => match attr_val(ns[i], "content"@) {
            Some(v) => if trim_spec(v).len() > 0 {
                Some(v)
            } else {
                None
            },
            None => None,
        },
        None => None,
    }
}

/// The document language: the `lang` attribute of the first `<html>`
/// element when present and non-blank, else the `content-language` meta
/// value. The first present non-blank value wins, never both.
pub open spec fn language_value(ns: Seq<NodeModel>) -> Option<Seq<char>> {
    match first_tag_from(ns, "html"@, 0) {
        Some(i) => match attr_val(ns[i], "lang"@) {
            Some(v) => if trim_spec(v).len() > 0 {
                Some(v)
            } else {
                lang_meta_value(ns)
            },
            None => lang_meta_value(ns),
        },
        None => lang_meta_value(ns),
    }
}

/// The metadata phase, in its fixed order: title, description, keywords,
/// author, language, each independently optional.
pub open spec fn metadata_of(ns: Seq<NodeModel>) -> Seq<ElemModel> {
    (match title_value(ns) {
        Some(t) => seq![ElemModel::Title { text: t }],
        None => seq![],
    }) + (match meta_content_value(ns, "description"@) {
        Some(t) => seq![ElemModel::Description { text: t }],
        None => seq![],
    }) + (match meta_content_value(ns, "keywords"@) {
        Some(t) => seq![ElemModel::Keywords { text: t }],
        None => seq![],
    }) + (match meta_content_value(ns, "author"@) {
        Some(t) => seq![ElemModel::Author { text: t }],
        None => seq![],
    }) + (match language_value(ns) {
        Some(t) => seq![ElemModel::Language { text: t }],
        None => seq![],
    })
}

/// The whole extraction: the metadata phase, then every content element
/// in the fixed pass order.
pub open spec fn document_of(ns: Seq<NodeModel>) -> Seq<ElemModel> {
    metadata_of(ns) + elements_of(ns)
}

/// The first node carrying the tag `tag`, if any.
fn find_first_tag(doc: &Dom, tag: &str) -> (r: Option<usize>)
    ensures
        match r {
            Some(i) => first_tag_from(doc@, tag@, 0) == Some(i as int) && i < doc@.len(),
            None => first_tag_from(doc@, tag@, 0) is None,
        },
{
    let n = doc.len();
    let mut k: usize = 0;
    while k < n
        invariant
            0 <= k <= n,
            n == doc@.len(),
            first_tag_from(doc@, tag@, 0) == first_tag_from(doc@, tag@, k as int),
        decreases n - k,
    {
        if doc.tag_is(k, tag) {
            return Some(k);
        }
        k = k + 1;
    }
    None
}

/// The first `<meta>` whose `name` attribute equals `name`, if any.
fn find_first_meta(doc: &Dom, name: &str) -> (r: Option<usize>)
    ensures
        match r {
            Some(i) => first_meta_from(doc@, name@, 0) == Some(i as int) && i < doc@.len(),
            None => first_meta_from(doc@, name@, 0) is None,
        },
{
    let n = doc.len();
    let mut k: usize = 0;
    while k < n
        invariant
            0 <= k <= n,
            n == doc@.len(),
            first_meta_from(doc@, name@, 0) == first_meta_from(doc@, name@, k as int),
        decreases n - k,
    {
        if doc.tag_is(k, "meta") {
            let named = match doc.attr(k, "name") {
                Some(v) => crate::text::str_eq(v.as_str(), name),
                None => false,
            };
            if named {
                return Some(k);
            }
        }
        k = k + 1;
    }
    None
}

/// The first `<meta http-equiv=content-language>`, if any.
fn find_lang_meta(doc: &Dom) -> (r: Option<usize>)
    ensures
        match r {
            Some(i) => first_lang_meta_from(doc@, 0) == Some(i as int) && i < doc@.len(),
            None => first_lang_meta_from(doc@, 0) is None,
        },
{
    let n = doc.len();
    let mut k: usize = 0;
    while k < n
        invariant
            0 <= k <= n,
            n == doc@.len(),
            first_lang_meta_from(doc@, 0) == first_lang_meta_from(doc@, k as int),
        decreases n - k,
    {
        if doc.tag_is(k, "meta") {
            let named = match doc.attr(k, "http-equiv") {
                Some(v) => crate::text::str_eq(v.as_str(), "content-language"),
                None => false,
            };
            if named {
                return Some(k);
            }
        }
        k = k + 1;
    }
    None
}

/// Extract the document title from the first `<title>` element.
pub fn extract_title(doc: &Dom) -> (r: Option<String>)
    ensures
        r.deep_view() == title_value(doc@),
{
    match find_first_tag(doc, "title") {
        Some(i) => {
            let t = trim_str(doc.text_of(i).as_str());
            if t.unicode_len() > 0 {
                Some(t.to_owned())
            } else {
                None
            }
        },
        None => None,
    }
}

/// The non-blank `content` of the first `<meta>` named `name`, as
/// written.
fn meta_content(doc: &Dom, name: &str) -> (r: Option<String>)
    ensures
        r.deep_view() == meta_content_value(doc@, name@),
{
    match find_first_meta(doc, name) {
        Some(i) => {
            match doc.attr(i, "content") {
                Some(v) => {
                    let t = trim_str(v.as_str());
                    if t.unicode_len() > 0 {
                        Some(v)
                    } else {
                        None
                    }
                },
                None => None,
            }
        },
        None => None,
    }
}

/// Extract the document description metadata.
pub fn extract_meta_description(doc: &Dom) -> (r: Option<String>)
    ensures
        r.deep_view() == meta_content_value(doc@, "description"@),
{
    meta_content(doc, "description")
}

/// Extract the raw keyword metadata string.
pub fn extract_meta_keywords(doc: &Dom) -> (r: Option<String>)
    ensures
        r.deep_view() == meta_content_value(doc@, "keywords"@),
{
    meta_content(doc, "keywords")
}

/// Extract the document author metadata.
pub fn extract_meta_author(doc: &Dom) -> (r: Option<String>)
    ensures
        r.deep_view() == meta_content_value(doc@, "author"@),
{
    meta_content(doc, "author")
}

/// Extract the document language: the `<html lang>` attribute first, the
/// `content-language` meta as fallback.
pub fn extract_document_language(doc: &Dom) -> (r: Option<String>)
    ensures
        r.deep_view() == language_value(doc@),
{
    match find_first_tag(doc, "html") {
        Some(i) => {
            match doc.attr(i, "lang") {
                Some(v) => {
                    let t = trim_str(v.as_str());
                    if t.unicode_len() > 0 {
                        return Some(v);
                    }
                },
                None => {},
            }
        },
        None => {},
    }
    match find_lang_meta(doc) {
        Some(i) => {
            match doc.attr(i, "content") {
                Some(v) => {
                    let t = trim_str(v.as_str());
                    if t.unicode_len() > 0 {
                        Some(v)
                    } else {
                        None
                    }
                },
                None => None,
            }
        },
        None => None,
    }
}

/// Extract the metadata phase in its fixed order: title, description,
/// keywords, author, language.
pub fn extract_metadata(doc: &Dom) -> (r: Vec<DocumentElement>)
    ensures
        r.deep_view() == metadata_of(doc@),
{
    let mut out: Vec<DocumentElement> = Vec::new();
    let ghost s0 = out.deep_view();
    if let Some(text) = extract_title(doc) {
        let e = DocumentElement::Title { text };
        let ghost em = e@;
        out.push(e);
        proof {
            assert(out.deep_view() =~= s0.push(em));
        }
    }
    let ghost m1 = (match title_value(doc@) {
        Some(t) => seq![ElemModel::Title { text: t }],
        None => Seq::<ElemModel>::empty(),
    });
    proof {
        assert(out.deep_view() =~= s0 + m1);
    }
    let ghost s1 = out.deep_view();
    if let Some(text) = extract_meta_description(doc) {
        let e = DocumentElement::Description { text };
        let ghost em = e@;
        out.push(e);
        proof {
            assert(out.deep_view() =~= s1.push(em));
        }
    }
    let ghost m2 = (match meta_content_value(doc@, "description"@) {
        Some(t) => seq![ElemModel::Description { text: t }],
        None => Seq::<ElemModel>::empty(),
    });
    proof {
        assert(out.deep_view() =~= s1 + m2);
    }
    let ghost s2 = out.deep_view();
    if let Some(text) = extract_meta_keywords(doc) {
        let e = DocumentElement::Keywords { text };
        let ghost em = e@;
        out.push(e);
        proof {
            assert(out.deep_view() =~= s2.push(em));
        }
    }
    let ghost m3 = (match meta_content_value(doc@, "keywords"@) {
        Some(t) => seq![ElemModel::Keywords { text: t }],
        None => Seq::<ElemModel>::empty(),
    });
    proof {
        assert(out.deep_view() =~= s2 + m3);
    }
    let ghost s3 = out.deep_view();
    if let Some(text) = extract_meta_author(doc) {
        let e = DocumentElement::Author { text };
        let ghost em = e@;
        out.push(e);
        proof {
            assert(out.deep_view() =~= s3.push(em));
        }
    }
    let ghost m4 = (match meta_content_value(doc@, "author"@) {
        Some(t) => seq![ElemModel::Author { text: t }],
        None => Seq::<ElemModel>::empty(),
    });
    proof {
        assert(out.deep_view() =~= s3 + m4);
    }
    let ghost s4 = out.deep_view();
    if let Some(text) = extract_document_language(doc) {
        let e = DocumentElement::Language { text };
        let ghost em = e@;
        out.push(e);
        proof {
            assert(out.deep_view() =~= s4.push(em));
        }
    }
    let ghost m5 = (match language_value(doc@) {
        Some(t) => seq![ElemModel::Language { text: t }],
        None => Seq::<ElemModel>::empty(),
    });
    proof {
        assert(out.deep_view() =~= s4 + m5);
        assert(out.deep_view() =~= metadata_of(doc@));
    }
    out
}

/// Extract everything the engine derives from a document: the metadata
/// phase, then every content element, in the fixed category order.
pub fn extract_document(doc: &Dom) -> (r: Vec<DocumentElement>)
    requires
        doc.wf(),
    ensures
        r.deep_view() == document_of(doc@),
{
    let mut out = extract_metadata(doc);
    let ghost s0 = out.deep_view();
    let mut content = extract_elements(doc);
    let ghost cv = content.deep_view();
    out.append(&mut content);
    proof {
        assert(out.deep_view() =~= s0 + cv);
    }
    out
}

/// Collects the trimmed, non-blank texts of all `<li>` descendants of
/// node `anc`.
fn collect_list_items(doc: &Dom, anc: usize) -> (r: Vec<String>)
    requires
        doc.wf(),
        anc < doc@.len(),
    ensures
        r.deep_view() == list_items(doc@, anc as int),
{
    let mut items: Vec<String> = Vec::new();
    let n = doc.len();
    let mut j: usize = 0;
    while j < n
        invariant
            0 <= j <= n,
            n == doc@.len(),
            doc.wf(),
            anc < doc@.len(),
            items.deep_view() == list_items_upto(doc@, anc as int, j as int),
        decreases n - j,
    {
        let ghost pre = items.deep_view();
        if doc.tag_is(j, "li") && doc.is_descendant(anc, j) {
            let t = trim_str(doc.text_of(j).as_str());
            if t.unicode_len() > 0 {
                items.push(t.to_owned());
                proof {
                    assert(items.deep_view() =~= pre.push(trim_spec(doc@[j as int].text)));
                    assert(pre.push(trim_spec(doc@[j as int].text)) =~= list_items_upto(
                        doc@,
                        anc as int,
                        j + 1,
                    ));
                }
            } else {
                proof {
                    assert(list_items_upto(doc@, anc as int, j + 1) =~= pre);
                }
            }
        } else {
            proof {
                assert(list_items_upto(doc@, anc as int, j + 1) =~= pre);
            }
        }
        j = j + 1;
    }
    items
}

/// One sweep of the list pass for one source tag (`<ul>` or `<ol>`),
/// appending to `out`.
fn extract_lists_tagged(doc: &Dom, ordered: bool, out: &mut Vec<DocumentElement>)
    requires
        doc.wf(),
    ensures
        final(out).deep_view() == old(out).deep_view() + lists_upto(
            doc@,
            ordered,
            doc@.len() as int,
        ),
{
    let tag = if ordered {
        "ol"
    } else {
        "ul"
    };
    let ghost base = out.deep_view();
    let n = doc.len();
    let mut i: usize = 0;
    while i < n
        invariant
            0 <= i <= n,
            n == doc@.len(),
            doc.wf(),
            tag@ == (if ordered {
                "ol"@
            } else {
                "ul"@
            }),
            out.deep_view() == base + lists_upto(doc@, ordered, i as int),
        decreases n - i,
    {
        let ghost pre = out.deep_view();
        if doc.tag_is(i, tag) {
            let items = collect_list_items(doc, i);
            if items.len() > 0 {
                let e = DocumentElement::List { items, ordered };
                let ghost em = e@;
                out.push(e);
                proof {
                    assert(out.deep_view() =~= pre.push(em));
                    assert(pre.push(em) =~= pre + list_at(doc@, i as int, ordered));
                    assert(pre + list_at(doc@, i as int, ordered) =~= base + lists_upto(
                        doc@,
                        ordered,
                        i + 1,
                    ));
                }
            } else {
                proof {
                    assert(items.deep_view().len() == 0);
                    assert(pre + list_at(doc@, i as int, ordered) =~= pre);
                    assert(base + lists_upto(doc@, ordered, i + 1) =~= pre);
                }
            }
        } else {
            proof {
                assert(pre + list_at(doc@, i as int, ordered) =~= pre);
                assert(base + lists_upto(doc@, ordered, i + 1) =~= pre);
            }
        }
        i = i + 1;
    }
}

/// Extract lists: every `<ul>` first, then every `<ol>`; items are the
/// trimmed, non-blank `<li>` texts, and a list without items is skipped.
pub fn extract_lists(doc: &Dom) -> (r: Vec<DocumentElement>)
    requires
        doc.wf(),
    ensures
        r.deep_view() == lists_of(doc@),
{
    let mut out: Vec<DocumentElement> = Vec::new();
    proof {
        assert(out.deep_view() =~= Seq::<ElemModel>::empty());
    }
    extract_lists_tagged(doc, false, &mut out);
    proof {
        assert(Seq::<ElemModel>::empty() + lists_upto(doc@, false, doc@.len() as int)
            =~= lists_upto(doc@, false, doc@.len() as int));
    }
    extract_lists_tagged(doc, true, &mut out);
    out
}

/// Collects the trimmed texts of all `<th>` descendants of table `t`.
fn collect_table_headers(doc: &Dom, t: usize) -> (r: Vec<String>)
    requires
        doc.wf(),
        t < doc@.len(),
    ensures
        r.deep_view() == table_headers(doc@, t as int),
{
    let mut headers: Vec<String> = Vec::new();
    let n = doc.len();
    let mut j: usize = 0;
    while j < n
        invariant
            0 <= j <= n,
            n == doc@.len(),
            doc.wf(),
            t < doc@.len(),
            headers.deep_view() == table_headers_upto(doc@, t as int, j as int),
        decreases n - j,
    {
        let ghost pre = headers.deep_view();
        if doc.tag_is(j, "th") && doc.is_descendant(t, j) {
            let tx = trim_str(doc.text_of(j).as_str());
            headers.push(tx.to_owned());
            proof {
                assert(headers.deep_view() =~= pre.push(trim_spec(doc@[j as int].text)));
                assert(pre.push(trim_spec(doc@[j as int].text)) =~= table_headers_upto(
                    doc@,
                    t as int,
                    j + 1,
                ));
            }
        } else {
            proof {
                assert(table_headers_upto(doc@, t as int, j + 1) =~= pre);
            }
        }
        j = j + 1;
    }
    headers
}

/// Collects the trimmed texts of all `<td>` descendants of row `tr`.
fn collect_row_cells(doc: &Dom, tr: usize) -> (r: Vec<String>)
    requires
        doc.wf(),
        tr < doc@.len(),
    ensures
        r.deep_view() == row_cells(doc@, tr as int),
{
    let mut cells: Vec<String> = Vec::new();
    let n = doc.len();
    let mut j: usize = 0;
    while j < n
        invariant
            0 <= j <= n,
            n == doc@.len(),
            doc.wf(),
            tr < doc@.len(),
            cells.deep_view() == row_cells_upto(doc@, tr as int, j as int),
        decreases n - j,
    {
        let ghost pre = cells.deep_view();
        if doc.tag_is(j, "td") && doc.is_descendant(tr, j) {
            let tx = trim_str(doc.text_of(j).as_str());
            cells.push(tx.to_owned());
            proof {
                assert(cells.deep_view() =~= pre.push(trim_spec(doc@[j as int].text)));
                assert(pre.push(trim_spec(doc@[j as int].text)) =~= row_cells_upto(
                    doc@,
                    tr as int,
                    j + 1,
                ));
            }
        } else {
            proof {
                assert(row_cells_upto(doc@, tr as int, j + 1) =~= pre);
            }
        }
        j = j + 1;
    }
    cells
}

/// Collects the rows of table `t`: the cells of each `<tr>` descendant,
/// dropping rows without cells.
fn collect_table_rows(doc: &Dom, t: usize) -> (r: Vec<Vec<String>>)
    requires
        doc.wf(),
        t < doc@.len(),
    ensures
        r.deep_view() == table_rows(doc@, t as int),
{
    let mut rows: Vec<Vec<String>> = Vec::new();
    let n = doc.len();
    let mut j: usize = 0;
    while j < n
        invariant
            0 <= j <= n,
            n == doc@.len(),
            doc.wf(),
            t < doc@.len(),
            rows.deep_view() == table_rows_upto(doc@, t as int, j as int),
        decreases n - j,
    {
        let ghost pre = rows.deep_view();
        if doc.tag_is(j, "tr") && doc.is_descendant(t, j) {
            let cells = collect_row_cells(doc, j);
            if cells.len() > 0 {
                let ghost cm = cells.deep_view();
                rows.push(cells);
                proof {
                    assert(rows.deep_view() =~= pre.push(cm));
                    assert(pre.push(cm) =~= table_rows_upto(doc@, t as int, j + 1));
                }
            } else {
                proof {
                    assert(cells.deep_view().len() == 0);
                    assert(table_rows_upto(doc@, t as int, j + 1) =~= pre);
                }
            }
        } else {
            proof {
                assert(table_rows_upto(doc@, t as int, j + 1) =~= pre);
            }
        }
        j = j + 1;
    }
    rows
}

/// Extract tables: per `<table>`, headers from its `<th>` descendants and
/// rows from its `<tr>` descendants; emitted when at least one header or
/// one row exists.
pub fn extract_tables(doc: &Dom) -> (r: Vec<DocumentElement>)
    requires
        doc.wf(),
    ensures
        r.deep_view() == tables_of(doc@),
{
    let mut out: Vec<DocumentElement> = Vec::new();
    let n = doc.len();
    let mut i: usize = 0;
    while i < n
        invariant
            0 <= i <= n,
            n == doc@.len(),
            doc.wf(),
            out.deep_view() == tables_upto(doc@, i as int),
        decreases n - i,
    {
        let ghost pre = out.deep_view();
        if doc.tag_is(i, "table") {
            let headers = collect_table_headers(doc, i);
            let rows = collect_table_rows(doc, i);
            if headers.len() > 0 || rows.len() > 0 {
                let e = DocumentElement::Table { headers, rows };
                let ghost em = e@;
                out.push(e);
                proof {
                    assert(out.deep_view() =~= pre.push(em));
                    assert(pre.push(em) =~= pre + table_at(doc@, i as int));
                }
            } else {
                proof {
                    assert(headers.deep_view().len() == 0);
                    assert(rows.deep_view().len() == 0);
                    assert(pre + table_at(doc@, i as int) =~= pre);
                }
            }
        } else {
            proof {
                assert(pre + table_at(doc@, i as int) =~= pre);
            }
        }
        i = i + 1;
    }
    out
}

/// Extract headings `h1`..`h6`: level from the tag, text trimmed, blank
/// headings skipped.
pub fn extract_headings(doc: &Dom) -> (r: Vec<DocumentElement>)
    ensures
        r.deep_view() == headings_of(doc@),
{
    let mut out: Vec<DocumentElement> = Vec::new();
    let n = doc.len();
    let mut i: usize = 0;
    while i < n
        invariant
            0 <= i <= n,
            n == doc@.len(),
            out.deep_view() == headings_upto(doc@, i as int),
        decreases n - i,
    {
        let mut level: u8 = 0;
        if doc.tag_is(i, "h1") {
            level = 1;
        } else if doc.tag_is(i, "h2") {
            level = 2;
        } else if doc.tag_is(i, "h3") {
            level = 3;
        } else if doc.tag_is(i, "h4") {
            level = 4;
        } else if doc.tag_is(i, "h5") {
            level = 5;
        } else if doc.tag_is(i, "h6") {
            level = 6;
        }
        let ghost pre = out.deep_view();
        if level > 0 {
            let t = trim_str(doc.text_of(i).as_str());
            if t.unicode_len() > 0 {
                let text = t.to_owned();
                let e = DocumentElement::Heading { level, text };
                let ghost em = e@;
                out.push(e);
                proof {
                    assert(out.deep_view() =~= pre.push(em));
                    assert(pre.push(em) =~= pre + heading_at(doc@, i as int));
                }
            } else {
                proof {
                    assert(pre + heading_at(doc@, i as int) =~= pre);
                }
            }
        } else {
            proof {
                assert(pre + heading_at(doc@, i as int) =~= pre);
            }
        }
        i = i + 1;
    }
    out
}

/// Extract paragraphs: `<p>` text trimmed, blank paragraphs skipped.
pub fn extract_paragraphs(doc: &Dom) -> (r: Vec<DocumentElement>)
    ensures
        r.deep_view() == paragraphs_of(doc@),
{
    let mut out: Vec<DocumentElement> = Vec::new();
    let n = doc.len();
    let mut i: usize = 0;
    while i < n
        invariant
            0 <= i <= n,
            n == doc@.len(),
            out.deep_view() == paragraphs_upto(doc@, i as int),
        decreases n - i,
    {
        let ghost pre = out.deep_view();
        if doc.tag_is(i, "p") {
            let t = trim_str(doc.text_of(i).as_str());
            if t.unicode_len() > 0 {
                let e = DocumentElement::Paragraph { text: t.to_owned() };
                let ghost em = e@;
                out.push(e);
                proof {
                    assert(out.deep_view() =~= pre.push(em));
                    assert(pre.push(em) =~= pre + paragraph_at(doc@, i as int));
                }
            } else {
                proof {
                    assert(pre + paragraph_at(doc@, i as int) =~= pre);
                }
            }
        } else {
            proof {
                assert(pre + paragraph_at(doc@, i as int) =~= pre);
            }
        }
        i = i + 1;
    }
    out
}

/// Extract blockquotes: `<blockquote>` text trimmed, blank ones skipped.
pub fn extract_blockquotes(doc: &Dom) -> (r: Vec<DocumentElement>)
    ensures
        r.deep_view() == blockquotes_of(doc@),
{
    let mut out: Vec<DocumentElement> = Vec::new();
    let n = doc.len();
    let mut i: usize = 0;
    while i < n
        invariant
            0 <= i <= n,
            n == doc@.len(),
            out.deep_view() == blockquotes_upto(doc@, i as int),
        decreases n - i,
    {
        let ghost pre = out.deep_view();
        if doc.tag_is(i, "blockquote") {
            let t = trim_str(doc.text_of(i).as_str());
            if t.unicode_len() > 0 {
                let e = DocumentElement::Blockquote { text: t.to_owned() };
                let ghost em = e@;
                out.push(e);
                proof {
                    assert(out.deep_view() =~= pre.push(em));
                    assert(pre.push(em) =~= pre + blockquote_at(doc@, i as int));
                }
            } else {
                proof {
                    assert(pre + blockquote_at(doc@, i as int) =~= pre);
                }
            }
        } else {
            proof {
                assert(pre + blockquote_at(doc@, i as int) =~= pre);
            }
        }
        i = i + 1;
    }
    out
}

} // verus!
