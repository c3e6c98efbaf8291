use oxidoc::documents_types::{tally_elements, DocumentElement};
use oxidoc::download::{jsonl_file_name, txt_file_name};
use oxidoc::jsonl_converter::make_record;

#[test]
fn output_names_get_extensions_once() {
    assert_eq!(jsonl_file_name("out"), "out.jsonl");
    assert_eq!(jsonl_file_name("out.jsonl"), "out.jsonl");
    assert_eq!(txt_file_name("out"), "out.txt");
    assert_eq!(txt_file_name("out.txt"), "out.txt");
    assert_eq!(txt_file_name("archive.jsonl"), "archive.jsonl.txt");
}

#[test]
fn tally_counts_each_category() {
    let elements = vec![
        DocumentElement::Title { text: "t".to_string() },
        DocumentElement::Language { text: "en".to_string() },
        DocumentElement::Heading { level: 1, text: "h".to_string() },
        DocumentElement::Heading { level: 2, text: "h2".to_string() },
        DocumentElement::Paragraph { text: "p".to_string() },
        DocumentElement::Blockquote { text: "q".to_string() },
        DocumentElement::List { items: vec!["i".to_string()], ordered: false },
        DocumentElement::Table { headers: vec!["h".to_string()], rows: vec![] },
        DocumentElement::Code { code: "c".to_string(), language: None, inline: true },
        DocumentElement::Link { text: "l".to_string(), url: "u".to_string() },
        DocumentElement::Image { alt: "a".to_string(), url: None },
    ];
    let tally = tally_elements(&elements);
    assert_eq!(tally.metadata, 2);
    assert_eq!(tally.headings, 2);
    assert_eq!(tally.paragraphs, 1);
    assert_eq!(tally.blockquotes, 1);
    assert_eq!(tally.lists, 1);
    assert_eq!(tally.tables, 1);
    assert_eq!(tally.code, 1);
    assert_eq!(tally.links, 1);
    assert_eq!(tally.images, 1);
    assert_eq!(tally.total, 11);
}

#[test]
fn record_fields_for_a_heading() {
    let record = make_record(
        &DocumentElement::Heading { level: 5, text: "deep".to_string() },
        "a.html",
        "html",
        "2024-02-03T04:05:06+00:00",
    );
    assert_eq!(record.text, "deep");
    assert_eq!(record.element_type, "heading_5");
    assert_eq!(record.metadata.source_file, "a.html");
    assert_eq!(record.metadata.document_type, "html");
    assert_eq!(record.metadata.content_length, 4);
    assert_eq!(record.metadata.language, None);
    assert_eq!(record.metadata.timestamp, "2024-02-03T04:05:06+00:00");
}
