//! The canonical element model: one closed tagged union for every unit of
//! content or metadata extracted from a document, independent of the source
//! format. Renderers dispatch exhaustively over it, so adding a variant is a
//! compile-time obligation on every consumer.

use vstd::prelude::*;

verus! {

/// One extracted unit of document content or metadata.
#[derive(Debug, Clone, PartialEq)]
pub enum DocumentElement {
    /// Document title, from `<title>` or from a file name.
    Title { text: String },
    /// Document summary metadata.
    Description { text: String },
    /// Raw keyword metadata string.
    Keywords { text: String },
    /// Document author metadata.
    Author { text: String },
    /// Document language code.
    Language { text: String },
    /// Section heading with its level.
    Heading { level: u8, text: String },
    /// Block of prose.
    Paragraph { text: String },
    /// Quoted block.
    Blockquote { text: String },
    /// Bullet or numbered list.
    List { items: Vec<String>, ordered: bool },
    /// Tabular data: header cells and rows of cells.
    Table { headers: Vec<String>, rows: Vec<Vec<String>> },
    /// Code span or code block.
    Code { code: String, language: Option<String>, inline: bool },
    /// Hyperlink with its anchor text.
    Link { text: String, url: String },
    /// Image description: alt text or figure caption.
    Image { alt: String, url: Option<String> },
}

/// The mathematical model of a `DocumentElement`, with every string seen
/// as its character sequence.
pub enum ElemModel {
    Title { text: Seq<char> },
    Description { text: Seq<char> },
    Keywords { text: Seq<char> },
    Author { text: Seq<char> },
    Language { text: Seq<char> },
    Heading { level: int, text: Seq<char> },
    Paragraph { text: Seq<char> },
    Blockquote { text: Seq<char> },
    List { items: Seq<Seq<char>>, ordered: bool },
    Table { headers: Seq<Seq<char>>, rows: Seq<Seq<Seq<char>>> },
    Code { code: Seq<char>, language: Option<Seq<char>>, inline: bool },
    Link { text: Seq<char>, url: Seq<char> },
    Image { alt: Seq<char>, url: Option<Seq<char>> },
}

impl View for DocumentElement {
    type V = ElemModel;

    open spec fn view(&self) -> ElemModel {
        match self {
            DocumentElement::Title { text } => ElemModel::Title { text: text@ },
            DocumentElement::Description { text } => ElemModel::Description { text: text@ },
            DocumentElement::Keywords { text } => ElemModel::Keywords { text: text@ },
            DocumentElement::Author { text } => ElemModel::Author { text: text@ },
            DocumentElement::Language { text } => ElemModel::Language { text: text@ },
            DocumentElement::Heading { level, text } => ElemModel::Heading {
                level: *level as int,
                text: text@,
            },
            DocumentElement::Paragraph { text } => ElemModel::Paragraph { text: text@ },
            DocumentElement::Blockquote { text } => ElemModel::Blockquote { text: text@ },
            DocumentElement::List { items, ordered } => ElemModel::List {
                items: items.deep_view(),
                ordered: *ordered,
            },
            DocumentElement::Table { headers, rows } => ElemModel::Table {
                headers: headers.deep_view(),
                rows: rows.deep_view(),
            },
            DocumentElement::Code { code, language, inline } => ElemModel::Code {
                code: code@,
                language: language.deep_view(),
                inline: *inline,
            },
            DocumentElement::Link { text, url } => ElemModel::Link { text: text@, url: url@ },
            DocumentElement::Image { alt, url } => ElemModel::Image {
                alt: alt@,
                url: url.deep_view(),
            },
        }
    }
}

impl DeepView for DocumentElement {
    type V = ElemModel;

    open spec fn deep_view(&self) -> ElemModel {
        self.view()
    }
}

/// A document-metadata element: title, description, keywords, author or
/// language.
pub open spec fn is_metadata_elem(e: ElemModel) -> bool {
    match e {
        ElemModel::Title { .. } => true,
        ElemModel::Description { .. } => true,
        ElemModel::Keywords { .. } => true,
        ElemModel::Author { .. } => true,
        ElemModel::Language { .. } => true,
        _ => false,
    }
}

/// How many of the first `k` elements satisfy `pred`.
pub open spec fn count_upto(s: Seq<ElemModel>, pred: spec_fn(ElemModel) -> bool, k: int) -> int
    decreases k,
{
    if k <= 0 {
        0
    } else {
        count_upto(s, pred, k - 1) + (if pred(s[k - 1]) {
            1int
        } else {
            0
        })
    }
}

proof fn lemma_count_upto_bound(s: Seq<ElemModel>, pred: spec_fn(ElemModel) -> bool, k: int)
    ensures
        0 <= count_upto(s, pred, k),
        k >= 0 ==> count_upto(s, pred, k) <= k,
    decreases k,
{
    if k > 0 {
        lemma_count_upto_bound(s, pred, k - 1);
    }
}

/// How many elements of each category an extraction produced.
#[derive(Debug, Clone, PartialEq)]
pub struct ElementTally {
    pub metadata: usize,
    pub headings: usize,
    pub paragraphs: usize,
    pub blockquotes: usize,
    pub lists: usize,
    pub tables: usize,
    pub code: usize,
    pub links: usize,
    pub images: usize,
    pub total: usize,
}

/// Counts the elements of each category; `total` is the sequence length.
pub fn tally_elements(elements: &Vec<DocumentElement>) -> (t: ElementTally)
    ensures
        t.metadata == count_upto(
            elements.deep_view(),
            (|e: ElemModel| is_metadata_elem(e)),
            elements.deep_view().len() as int,
        ),
        t.headings == count_upto(
            elements.deep_view(),
            (|e: ElemModel| e is Heading),
            elements.deep_view().len() as int,
        ),
        t.paragraphs == count_upto(
            elements.deep_view(),
            (|e: ElemModel| e is Paragraph),
            elements.deep_view().len() as int,
        ),
        t.blockquotes == count_upto(
            elements.deep_view(),
            (|e: ElemModel| e is Blockquote),
            elements.deep_view().len() as int,
        ),
        t.lists == count_upto(
            elements.deep_view(),
            (|e: ElemModel| e is List),
            elements.deep_view().len() as int,
        ),
        t.tables == count_upto(
            elements.deep_view(),
            (|e: ElemModel| e is Table),
            elements.deep_view().len() as int,
        ),
        t.code == count_upto(
            elements.deep_view(),
            (|e: ElemModel| e is Code),
            elements.deep_view().len() as int,
        ),
        t.links == count_upto(
            elements.deep_view(),
            (|e: ElemModel| e is Link),
            elements.deep_view().len() as int,
        ),
        t.images == count_upto(
            elements.deep_view(),
            (|e: ElemModel| e is Image),
            elements.deep_view().len() as int,
        ),
        t.total == elements.deep_view().len(),
{
    let mut t = ElementTally {
        metadata: 0,
        headings: 0,
        paragraphs: 0,
        blockquotes: 0,
        lists: 0,
        tables: 0,
        code: 0,
        links: 0,
        images: 0,
        total: 0,
    };
    let n = elements.len();
    let ghost dv = elements.deep_view();
    let mut i: usize = 0;
    while i < n
        invariant
            0 <= i <= n,
            n == dv.len(),
            dv == elements.deep_view(),
            t.metadata == count_upto(dv, (|e: ElemModel| is_metadata_elem(e)), i as int),
            t.headings == count_upto(dv, (|e: ElemModel| e is Heading), i as int),
            t.paragraphs == count_upto(dv, (|e: ElemModel| e is Paragraph), i as int),
            t.blockquotes == count_upto(dv, (|e: ElemModel| e is Blockquote), i as int),
            t.lists == count_upto(dv, (|e: ElemModel| e is List), i as int),
            t.tables == count_upto(dv, (|e: ElemModel| e is Table), i as int),
            t.code == count_upto(dv, (|e: ElemModel| e is Code), i as int),
            t.links == count_upto(dv, (|e: ElemModel| e is Link), i as int),
            t.images == count_upto(dv, (|e: ElemModel| e is Image), i as int),
        decreases n - i,
    {
        proof {
            lemma_count_upto_bound(dv, (|e: ElemModel| is_metadata_elem(e)), i as int);
            lemma_count_upto_bound(dv, (|e: ElemModel| e is Heading), i as int);
            lemma_count_upto_bound(dv, (|e: ElemModel| e is Paragraph), i as int);
            lemma_count_upto_bound(dv, (|e: ElemModel| e is Blockquote), i as int);
            lemma_count_upto_bound(dv, (|e: ElemModel| e is List), i as int);
            lemma_count_upto_bound(dv, (|e: ElemModel| e is Table), i as int);
            lemma_count_upto_bound(dv, (|e: ElemModel| e is Code), i as int);
            lemma_count_upto_bound(dv, (|e: ElemModel| e is Link), i as int);
            lemma_count_upto_bound(dv, (|e: ElemModel| e is Image), i as int);
        }
        match &elements[i] {
            DocumentElement::Title { .. } => {
                t.metadata = t.metadata + 1;
            },
            DocumentElement::Description { .. } => {
                t.metadata = t.metadata + 1;
            },
            DocumentElement::Keywords { .. } => {
                t.metadata = t.metadata + 1;
            },
            DocumentElement::Author { .. } => {
                t.metadata = t.metadata + 1;
            },
            DocumentElement::Language { .. } => {
                t.metadata = t.metadata + 1;
            },
            DocumentElement::Heading { .. } => {
                t.headings = t.headings + 1;
            },
            DocumentElement::Paragraph { .. } => {
                t.paragraphs = t.paragraphs + 1;
            },
            DocumentElement::Blockquote { .. } => {
                t.blockquotes = t.blockquotes + 1;
            },
            DocumentElement::List { .. } => {
                t.lists = t.lists + 1;
            },
            DocumentElement::Table { .. } => {
                t.tables = t.tables + 1;
            },
            DocumentElement::Code { .. } => {
                t.code = t.code + 1;
            },
            DocumentElement::Link { .. } => {
                t.links = t.links + 1;
            },
            DocumentElement::Image { .. } => {
                t.images = t.images + 1;
            },
        }
        i = i + 1;
    }
    t.total = n;
    t
}

} // verus!
