use oxidoc::documents_types::DocumentElement;
use oxidoc::dom::{Attr, Dom};
use oxidoc::html_parser::{
    extract_blockquotes, extract_code_blocks, extract_document, extract_elements,
    extract_headings, extract_image_descriptions, extract_inline_codes, extract_links,
    extract_lists, extract_metadata, extract_paragraphs, extract_tables, extract_title,
};

fn push(doc: &mut Dom, tag: &str, attrs: Vec<(&str, &str)>, text: &str, parent: Option<usize>) {
    let attrs = attrs
        .into_iter()
        .map(|(n, v)| Attr { name: n.to_string(), value: v.to_string() })
        .collect();
    assert!(doc.push_node(tag.to_string(), attrs, text.to_string(), parent));
}

#[test]
fn sample_document_order_and_values() {
    // <html lang="en"><head><title>T</title></head><body><h1>Hi</h1><p>World</p></body></html>
    let mut doc = Dom::new();
    push(&mut doc, "html", vec![("lang", "en")], "THiWorld", None);
    push(&mut doc, "head", vec![], "T", Some(0));
    push(&mut doc, "title", vec![], "T", Some(1));
    push(&mut doc, "body", vec![], "HiWorld", Some(0));
    push(&mut doc, "h1", vec![], "Hi", Some(3));
    push(&mut doc, "p", vec![], "World", Some(3));
    let elements = extract_document(&doc);
    assert_eq!(
        elements,
        vec![
            DocumentElement::Title { text: "T".to_string() },
            DocumentElement::Language { text: "en".to_string() },
            DocumentElement::Heading { level: 1, text: "Hi".to_string() },
            DocumentElement::Paragraph { text: "World".to_string() },
        ]
    );
}

#[test]
fn unordered_list_drops_empty_items() {
    // <ul><li>a</li><li></li><li>b</li></ul>
    let mut doc = Dom::new();
    push(&mut doc, "ul", vec![], "ab", None);
    push(&mut doc, "li", vec![], "a", Some(0));
    push(&mut doc, "li", vec![], "", Some(0));
    push(&mut doc, "li", vec![], "b", Some(0));
    let lists = extract_lists(&doc);
    assert_eq!(
        lists,
        vec![DocumentElement::List {
            items: vec!["a".to_string(), "b".to_string()],
            ordered: false,
        }]
    );
}

#[test]
fn list_without_items_is_skipped() {
    let mut doc = Dom::new();
    push(&mut doc, "ul", vec![], " ", None);
    push(&mut doc, "li", vec![], "   ", Some(0));
    assert_eq!(extract_lists(&doc), vec![]);
}

#[test]
fn ordered_lists_follow_unordered_lists() {
    let mut doc = Dom::new();
    push(&mut doc, "ol", vec![], "n", None);
    push(&mut doc, "li", vec![], "n", Some(0));
    push(&mut doc, "ul", vec![], "b", None);
    push(&mut doc, "li", vec![], "b", Some(2));
    let lists = extract_lists(&doc);
    assert_eq!(
        lists,
        vec![
            DocumentElement::List { items: vec!["b".to_string()], ordered: false },
            DocumentElement::List { items: vec!["n".to_string()], ordered: true },
        ]
    );
}

#[test]
fn category_grouping_ignores_source_order() {
    // Source order: p, h1, ul(li), p, h2 — output groups headings, then
    // paragraphs, then the list.
    let mut doc = Dom::new();
    push(&mut doc, "body", vec![], "", None);
    push(&mut doc, "p", vec![], "first", Some(0));
    push(&mut doc, "h1", vec![], "top", Some(0));
    push(&mut doc, "ul", vec![], "item", Some(0));
    push(&mut doc, "li", vec![], "item", Some(3));
    push(&mut doc, "p", vec![], "second", Some(0));
    push(&mut doc, "h2", vec![], "sub", Some(0));
    let elements = extract_elements(&doc);
    assert_eq!(
        elements,
        vec![
            DocumentElement::Heading { level: 1, text: "top".to_string() },
            DocumentElement::Heading { level: 2, text: "sub".to_string() },
            DocumentElement::Paragraph { text: "first".to_string() },
            DocumentElement::Paragraph { text: "second".to_string() },
            DocumentElement::List { items: vec!["item".to_string()], ordered: false },
        ]
    );
}

#[test]
fn heading_levels_and_trimming() {
    let mut doc = Dom::new();
    push(&mut doc, "h6", vec![], "  deep  ", None);
    push(&mut doc, "h3", vec![], "\n mid \t", None);
    push(&mut doc, "h1", vec![], "   ", None);
    let headings = extract_headings(&doc);
    assert_eq!(
        headings,
        vec![
            DocumentElement::Heading { level: 6, text: "deep".to_string() },
            DocumentElement::Heading { level: 3, text: "mid".to_string() },
        ]
    );
}

#[test]
fn paragraphs_and_blockquotes_trim_and_filter() {
    let mut doc = Dom::new();
    push(&mut doc, "p", vec![], "  text  ", None);
    push(&mut doc, "p", vec![], " \t ", None);
    push(&mut doc, "blockquote", vec![], " quoted ", None);
    assert_eq!(
        extract_paragraphs(&doc),
        vec![DocumentElement::Paragraph { text: "text".to_string() }]
    );
    assert_eq!(
        extract_blockquotes(&doc),
        vec![DocumentElement::Blockquote { text: "quoted".to_string() }]
    );
}

#[test]
fn code_inside_pre_is_a_block_not_inline() {
    // <pre><code>x = 1</code></pre><code>y</code>
    let mut doc = Dom::new();
    push(&mut doc, "pre", vec![], "x = 1", None);
    push(&mut doc, "code", vec![], "x = 1", Some(0));
    push(&mut doc, "code", vec![], "y", None);
    let blocks = extract_code_blocks(&doc);
    assert_eq!(
        blocks,
        vec![DocumentElement::Code {
            code: "x = 1".to_string(),
            language: None,
            inline: false,
        }]
    );
    let inline = extract_inline_codes(&doc);
    assert_eq!(
        inline,
        vec![DocumentElement::Code { code: "y".to_string(), language: None, inline: true }]
    );
}

#[test]
fn code_block_language_from_class() {
    let mut doc = Dom::new();
    push(&mut doc, "pre", vec![], "fn main() {}", None);
    push(
        &mut doc,
        "code",
        vec![("class", "language-rust")],
        "fn main() {}",
        Some(0),
    );
    assert_eq!(
        extract_code_blocks(&doc),
        vec![DocumentElement::Code {
            code: "fn main() {}".to_string(),
            language: Some("rust".to_string()),
            inline: false,
        }]
    );
}

#[test]
fn pre_without_code_child_uses_its_own_text() {
    let mut doc = Dom::new();
    push(&mut doc, "pre", vec![], "raw text\n", None);
    assert_eq!(
        extract_code_blocks(&doc),
        vec![DocumentElement::Code {
            code: "raw text\n".to_string(),
            language: None,
            inline: false,
        }]
    );
}

#[test]
fn links_need_href_and_text() {
    let mut doc = Dom::new();
    push(&mut doc, "a", vec![("href", "https://a.example")], " here ", None);
    push(&mut doc, "a", vec![("href", "")], "ignored", None);
    push(&mut doc, "a", vec![("href", "https://b.example")], "  ", None);
    push(&mut doc, "a", vec![], "no href", None);
    assert_eq!(
        extract_links(&doc),
        vec![DocumentElement::Link {
            text: "here".to_string(),
            url: "https://a.example".to_string(),
        }]
    );
}

#[test]
fn image_alt_and_caption() {
    // <figure><img alt="A chart"/><figcaption> Figure one </figcaption></figure>
    let mut doc = Dom::new();
    push(&mut doc, "figure", vec![], " Figure one ", None);
    push(&mut doc, "img", vec![("alt", "A chart")], "", Some(0));
    push(&mut doc, "figcaption", vec![], " Figure one ", Some(0));
    assert_eq!(
        extract_image_descriptions(&doc),
        vec![
            DocumentElement::Image { alt: "A chart".to_string(), url: None },
            DocumentElement::Image { alt: "Figure one".to_string(), url: None },
        ]
    );
}

#[test]
fn image_placeholder_alts_are_suppressed() {
    let mut doc = Dom::new();
    push(&mut doc, "img", vec![("alt", "image")], "", None);
    push(&mut doc, "img", vec![("alt", "photo")], "", None);
    push(&mut doc, "img", vec![("alt", "  ")], "", None);
    push(&mut doc, "img", vec![], "", None);
    assert_eq!(extract_image_descriptions(&doc), vec![]);
}

#[test]
fn tables_headers_and_rows() {
    // <table><tr><th>h1</th><th>h2</th></tr><tr><td>a</td><td>b</td></tr><tr></tr></table>
    let mut doc = Dom::new();
    push(&mut doc, "table", vec![], "", None);
    push(&mut doc, "tr", vec![], "", Some(0));
    push(&mut doc, "th", vec![], " h1 ", Some(1));
    push(&mut doc, "th", vec![], "h2", Some(1));
    push(&mut doc, "tr", vec![], "", Some(0));
    push(&mut doc, "td", vec![], "a", Some(4));
    push(&mut doc, "td", vec![], " b ", Some(4));
    push(&mut doc, "tr", vec![], "", Some(0));
    assert_eq!(
        extract_tables(&doc),
        vec![DocumentElement::Table {
            headers: vec!["h1".to_string(), "h2".to_string()],
            rows: vec![vec!["a".to_string(), "b".to_string()]],
        }]
    );
}

#[test]
fn empty_table_is_skipped() {
    let mut doc = Dom::new();
    push(&mut doc, "table", vec![], "", None);
    assert_eq!(extract_tables(&doc), vec![]);
}

#[test]
fn metadata_fields_from_meta_tags() {
    let mut doc = Dom::new();
    push(&mut doc, "html", vec![], "", None);
    push(&mut doc, "head", vec![], "", Some(0));
    push(
        &mut doc,
        "meta",
        vec![("name", "description"), ("content", "a summary")],
        "",
        Some(1),
    );
    push(
        &mut doc,
        "meta",
        vec![("name", "keywords"), ("content", "k1, k2")],
        "",
        Some(1),
    );
    push(
        &mut doc,
        "meta",
        vec![("name", "author"), ("content", "A. Writer")],
        "",
        Some(1),
    );
    let metadata = extract_metadata(&doc);
    assert_eq!(
        metadata,
        vec![
            DocumentElement::Description { text: "a summary".to_string() },
            DocumentElement::Keywords { text: "k1, k2".to_string() },
            DocumentElement::Author { text: "A. Writer".to_string() },
        ]
    );
}

#[test]
fn blank_meta_content_is_omitted() {
    let mut doc = Dom::new();
    push(
        &mut doc,
        "meta",
        vec![("name", "description"), ("content", "   ")],
        "",
        None,
    );
    assert_eq!(extract_metadata(&doc), vec![]);
}

#[test]
fn title_trimmed_and_blank_title_omitted() {
    let mut doc = Dom::new();
    push(&mut doc, "title", vec![], "  My Page  ", None);
    assert_eq!(extract_title(&doc), Some("My Page".to_string()));
    let mut blank = Dom::new();
    push(&mut blank, "title", vec![], "   ", None);
    assert_eq!(extract_title(&blank), None);
}

#[test]
fn language_falls_back_to_content_language_meta() {
    // <html> without lang, <meta http-equiv="content-language" content="fr">
    let mut doc = Dom::new();
    push(&mut doc, "html", vec![], "", None);
    push(
        &mut doc,
        "meta",
        vec![("http-equiv", "content-language"), ("content", "fr")],
        "",
        Some(0),
    );
    assert_eq!(
        extract_metadata(&doc),
        vec![DocumentElement::Language { text: "fr".to_string() }]
    );
    // A blank lang attribute also falls through to the meta value.
    let mut blank = Dom::new();
    push(&mut blank, "html", vec![("lang", "  ")], "", None);
    push(
        &mut blank,
        "meta",
        vec![("http-equiv", "content-language"), ("content", "de")],
        "",
        Some(0),
    );
    assert_eq!(
        extract_metadata(&blank),
        vec![DocumentElement::Language { text: "de".to_string() }]
    );
}

#[test]
fn deeply_nested_code_in_pre_stays_a_block() {
    // <pre><span><code>x</code></span></pre>: the block pass takes the
    // descendant <code>; the inline pass skips it for its <pre> ancestor.
    let mut doc = Dom::new();
    push(&mut doc, "pre", vec![], "x", None);
    push(&mut doc, "span", vec![], "x", Some(0));
    push(&mut doc, "code", vec![], "x", Some(1));
    assert_eq!(
        extract_code_blocks(&doc),
        vec![DocumentElement::Code { code: "x".to_string(), language: None, inline: false }]
    );
    assert_eq!(extract_inline_codes(&doc), vec![]);
}

#[test]
fn nested_list_items_count_for_both_lists() {
    // <ul><li>outer</li><ul><li>inner</li></ul></ul>: the inner item is a
    // descendant of both lists, so both collect it.
    let mut doc = Dom::new();
    push(&mut doc, "ul", vec![], "outerinner", None);
    push(&mut doc, "li", vec![], "outer", Some(0));
    push(&mut doc, "ul", vec![], "inner", Some(0));
    push(&mut doc, "li", vec![], "inner", Some(2));
    assert_eq!(
        extract_lists(&doc),
        vec![
            DocumentElement::List {
                items: vec!["outer".to_string(), "inner".to_string()],
                ordered: false,
            },
            DocumentElement::List { items: vec!["inner".to_string()], ordered: false },
        ]
    );
}

#[test]
fn figcaption_under_another_parent_is_not_a_caption() {
    let mut doc = Dom::new();
    push(&mut doc, "figure", vec![], "", None);
    push(&mut doc, "img", vec![], "", Some(0));
    push(&mut doc, "div", vec![], "elsewhere", None);
    push(&mut doc, "figcaption", vec![], "elsewhere", Some(2));
    assert_eq!(extract_image_descriptions(&doc), vec![]);
}

#[test]
fn all_six_heading_levels() {
    let mut doc = Dom::new();
    for (i, tag) in ["h1", "h2", "h3", "h4", "h5", "h6"].iter().enumerate() {
        push(&mut doc, tag, vec![], &format!("t{}", i + 1), None);
    }
    let headings = extract_headings(&doc);
    assert_eq!(headings.len(), 6);
    for (i, h) in headings.iter().enumerate() {
        assert_eq!(
            h,
            &DocumentElement::Heading {
                level: (i + 1) as u8,
                text: format!("t{}", i + 1),
            }
        );
    }
}

#[test]
fn empty_document_yields_no_elements() {
    let doc = Dom::new();
    assert_eq!(extract_document(&doc), vec![]);
}
