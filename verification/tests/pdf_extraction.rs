use oxidoc::documents_types::DocumentElement;
use oxidoc::pdf_parser::{extract_pdf_metadata, extract_pdf_paragraphs, pdf_document_elements};

#[test]
fn short_segments_are_filtered() {
    let text =
        "Header\n\nThis is a long enough paragraph to pass the twenty-byte filter.\n\nhi";
    let paragraphs = extract_pdf_paragraphs(text);
    assert_eq!(
        paragraphs,
        vec![DocumentElement::Paragraph {
            text: "This is a long enough paragraph to pass the twenty-byte filter."
                .to_string(),
        }]
    );
}

#[test]
fn segments_are_trimmed_before_the_filter() {
    let twenty = "aaaaaaaaaaaaaaaaaaaa";
    let twenty_one = "bbbbbbbbbbbbbbbbbbbbb";
    let text = format!("  {}  \n\n  {}  ", twenty, twenty_one);
    // After trimming, the first segment is 20 bytes (dropped) and the
    // second 21 (kept).
    let paragraphs = extract_pdf_paragraphs(&text);
    assert_eq!(
        paragraphs,
        vec![DocumentElement::Paragraph { text: twenty_one.to_string() }]
    );
}

#[test]
fn paragraphs_keep_source_order() {
    let a = "First paragraph, long enough to pass.";
    let b = "Second paragraph, also long enough.";
    let text = format!("{}\n\n{}", a, b);
    assert_eq!(
        extract_pdf_paragraphs(&text),
        vec![
            DocumentElement::Paragraph { text: a.to_string() },
            DocumentElement::Paragraph { text: b.to_string() },
        ]
    );
}

#[test]
fn empty_text_yields_no_paragraphs() {
    assert_eq!(extract_pdf_paragraphs(""), vec![]);
}

#[test]
fn title_from_file_stem() {
    assert_eq!(
        extract_pdf_metadata("test_files/pdf_test.pdf"),
        vec![DocumentElement::Title { text: "pdf_test".to_string() }]
    );
    assert_eq!(
        extract_pdf_metadata("report.final.pdf"),
        vec![DocumentElement::Title { text: "report.final".to_string() }]
    );
    assert_eq!(
        extract_pdf_metadata(".hidden"),
        vec![DocumentElement::Title { text: ".hidden".to_string() }]
    );
    assert_eq!(
        extract_pdf_metadata("plain"),
        vec![DocumentElement::Title { text: "plain".to_string() }]
    );
    assert_eq!(extract_pdf_metadata(""), vec![]);
}

#[test]
fn pdf_document_is_title_then_paragraphs() {
    let text = "A paragraph long enough to pass the filter.";
    assert_eq!(
        pdf_document_elements("docs/sample.pdf", text),
        vec![
            DocumentElement::Title { text: "sample".to_string() },
            DocumentElement::Paragraph { text: text.to_string() },
        ]
    );
}
