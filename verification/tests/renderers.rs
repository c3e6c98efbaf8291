use oxidoc::converter_types::TrainingRecord;
use oxidoc::documents_types::DocumentElement;
use oxidoc::jsonl_converter::{export_to_jsonl, export_to_jsonl_at, make_record, record_json_line};
use oxidoc::txt_converter::export_to_txt;

fn every_variant() -> Vec<DocumentElement> {
    vec![
        DocumentElement::Title { text: "T".to_string() },
        DocumentElement::Description { text: "D".to_string() },
        DocumentElement::Keywords { text: "k1, k2".to_string() },
        DocumentElement::Author { text: "A".to_string() },
        DocumentElement::Language { text: "en".to_string() },
        DocumentElement::Heading { level: 2, text: "H".to_string() },
        DocumentElement::Paragraph { text: "P".to_string() },
        DocumentElement::Blockquote { text: "Q".to_string() },
        DocumentElement::List { items: vec!["a".to_string(), "b".to_string()], ordered: true },
        DocumentElement::Table {
            headers: vec!["h1".to_string(), "h2".to_string()],
            rows: vec![vec!["c1".to_string(), "c2".to_string()]],
        },
        DocumentElement::Code {
            code: "let x = 1;".to_string(),
            language: Some("rust".to_string()),
            inline: false,
        },
        DocumentElement::Link {
            text: "here".to_string(),
            url: "https://a.example".to_string(),
        },
        DocumentElement::Image {
            alt: "chart".to_string(),
            url: Some("img.png".to_string()),
        },
    ]
}

fn expected_text_and_type(e: &DocumentElement) -> (String, String) {
    match e {
        DocumentElement::Title { text } => (text.clone(), "title".to_string()),
        DocumentElement::Description { text } => (text.clone(), "description".to_string()),
        DocumentElement::Keywords { text } => (text.clone(), "keywords".to_string()),
        DocumentElement::Author { text } => (text.clone(), "author".to_string()),
        DocumentElement::Language { text } => (text.clone(), "language".to_string()),
        DocumentElement::Heading { level, text } => {
            (text.clone(), format!("heading_{}", level))
        },
        DocumentElement::Paragraph { text } => (text.clone(), "paragraph".to_string()),
        DocumentElement::Blockquote { text } => (text.clone(), "blockquote".to_string()),
        DocumentElement::List { items, ordered } => (
            items.join(" | "),
            if *ordered { "ordered_list" } else { "unordered_list" }.to_string(),
        ),
        DocumentElement::Table { headers, rows } => {
            let mut t = format!("Headers: {} | ", headers.join(", "));
            for row in rows {
                t.push_str(&format!("Row: {} | ", row.join(", ")));
            }
            (t, "table".to_string())
        },
        DocumentElement::Code { code, inline, .. } => (
            code.clone(),
            if *inline { "inline_code" } else { "code_block" }.to_string(),
        ),
        DocumentElement::Link { text, url } => {
            (format!("{} -> {}", text, url), "link".to_string())
        },
        DocumentElement::Image { alt, url } => (
            match url {
                Some(u) => format!("{} ({})", alt, u),
                None => alt.clone(),
            },
            "image".to_string(),
        ),
    }
}

#[test]
fn jsonl_round_trip_every_variant() {
    let elements = every_variant();
    let ts = "2024-05-01T12:00:00+00:00";
    let out = export_to_jsonl_at(&elements, "doc.html", "html", ts);
    let lines: Vec<&str> = out.split('\n').collect();
    assert_eq!(lines.len(), elements.len());
    for (element, line) in elements.iter().zip(lines.iter()) {
        let v: serde_json::Value = serde_json::from_str(line).unwrap();
        let (text, element_type) = expected_text_and_type(element);
        assert_eq!(v["text"].as_str(), Some(text.as_str()));
        assert_eq!(v["element_type"].as_str(), Some(element_type.as_str()));
        assert_eq!(v["metadata"]["source_file"].as_str(), Some("doc.html"));
        assert_eq!(v["metadata"]["document_type"].as_str(), Some("html"));
        assert_eq!(v["metadata"]["timestamp"].as_str(), Some(ts));
    }
}

#[test]
fn content_length_is_byte_length_of_text() {
    let elements = vec![
        DocumentElement::Paragraph { text: "caf\u{e9}".to_string() },
        DocumentElement::List { items: vec!["a".to_string(), "b".to_string()], ordered: false },
        DocumentElement::Link { text: "t".to_string(), url: "u".to_string() },
    ];
    let out = export_to_jsonl_at(&elements, "s", "html", "2024-01-01T00:00:00+00:00");
    for line in out.split('\n') {
        let v: serde_json::Value = serde_json::from_str(line).unwrap();
        let text = v["text"].as_str().unwrap();
        assert_eq!(
            v["metadata"]["content_length"].as_u64(),
            Some(text.len() as u64)
        );
    }
    // "café" is four characters but five bytes.
    let first: serde_json::Value =
        serde_json::from_str(out.split('\n').next().unwrap()).unwrap();
    assert_eq!(first["metadata"]["content_length"].as_u64(), Some(5));
}

#[test]
fn jsonl_language_only_for_language_and_code() {
    let elements = vec![
        DocumentElement::Language { text: "en".to_string() },
        DocumentElement::Code {
            code: "x".to_string(),
            language: Some("rust".to_string()),
            inline: true,
        },
        DocumentElement::Paragraph { text: "p".to_string() },
    ];
    let out = export_to_jsonl_at(&elements, "s", "html", "2024-01-01T00:00:00+00:00");
    let lines: Vec<serde_json::Value> = out
        .split('\n')
        .map(|l| serde_json::from_str(l).unwrap())
        .collect();
    assert_eq!(lines[0]["metadata"]["language"].as_str(), Some("en"));
    assert_eq!(lines[1]["metadata"]["language"].as_str(), Some("rust"));
    assert!(lines[2]["metadata"]["language"].is_null());
}

#[test]
fn jsonl_exact_line() {
    let elements = vec![DocumentElement::Paragraph { text: "Hi".to_string() }];
    let out = export_to_jsonl_at(&elements, "s.html", "html", "2020-01-01T00:00:00+00:00");
    assert_eq!(
        out,
        "{\"text\":\"Hi\",\"element_type\":\"paragraph\",\"metadata\":{\"source_file\":\"s.html\",\"document_type\":\"html\",\"content_length\":2,\"language\":null,\"timestamp\":\"2020-01-01T00:00:00+00:00\"}}"
    );
}

#[test]
fn jsonl_escapes_match_serde() {
    let tricky = "a\"b\\c\nd\te\r\u{8}\u{c}\u{1f}\u{7f}caf\u{e9}";
    let elements = vec![DocumentElement::Paragraph { text: tricky.to_string() }];
    let out = export_to_jsonl_at(&elements, "s\"q", "html", "t");
    let v: serde_json::Value = serde_json::from_str(&out).unwrap();
    assert_eq!(v["text"].as_str(), Some(tricky));
    assert_eq!(v["metadata"]["source_file"].as_str(), Some("s\"q"));
    // The string encoding is exactly serde_json's.
    assert!(out.contains(&serde_json::to_string(tricky).unwrap()));
}

#[test]
fn record_line_matches_serde_encoding_of_record() {
    let record = make_record(
        &DocumentElement::Heading { level: 3, text: "A \"quoted\" title".to_string() },
        "src.html",
        "html",
        "2024-01-01T00:00:00+00:00",
    );
    let line = record_json_line(&record);
    let v: serde_json::Value = serde_json::from_str(&line).unwrap();
    assert_eq!(v["element_type"].as_str(), Some("heading_3"));
    assert_eq!(v["text"].as_str(), Some("A \"quoted\" title"));
    let TrainingRecord { text, metadata, .. } = record;
    assert_eq!(metadata.content_length, text.len());
}

#[test]
fn export_to_jsonl_captures_a_real_timestamp() {
    let elements = vec![DocumentElement::Paragraph { text: "p".to_string() }];
    let out = export_to_jsonl(&elements, "s", "html");
    let v: serde_json::Value = serde_json::from_str(&out).unwrap();
    let ts = v["metadata"]["timestamp"].as_str().unwrap();
    assert!(chrono::DateTime::parse_from_rfc3339(ts).is_ok());
}

#[test]
fn txt_rendering_exact() {
    let elements = vec![
        DocumentElement::Title { text: "T".to_string() },
        DocumentElement::Heading { level: 2, text: "H".to_string() },
        DocumentElement::Paragraph { text: "P".to_string() },
        DocumentElement::Blockquote { text: "Q".to_string() },
    ];
    let out = export_to_txt(&elements, "doc.html");
    assert_eq!(
        out,
        "# Document: doc.html\n\nTITLE: T\n\n## H\n\nP\n\n> Q\n"
    );
}

#[test]
fn txt_lists_numbered_and_bulleted() {
    let ordered = vec![DocumentElement::List {
        items: vec!["a".to_string(), "b".to_string(), "c".to_string()],
        ordered: true,
    }];
    let out = export_to_txt(&ordered, "d");
    assert_eq!(out, "# Document: d\n\n1. a\n2. b\n3. c\n");
    let bulleted = vec![DocumentElement::List {
        items: vec!["a".to_string(), "b".to_string()],
        ordered: false,
    }];
    let out = export_to_txt(&bulleted, "d");
    assert_eq!(out, "# Document: d\n\n- a\n- b\n");
}

#[test]
fn txt_code_fences_and_inline() {
    let block = vec![DocumentElement::Code {
        code: "let x;".to_string(),
        language: Some("rust".to_string()),
        inline: false,
    }];
    assert_eq!(
        export_to_txt(&block, "d"),
        "# Document: d\n\n```rust\nlet x;\n```\n"
    );
    let plain = vec![DocumentElement::Code {
        code: "y".to_string(),
        language: None,
        inline: false,
    }];
    assert_eq!(export_to_txt(&plain, "d"), "# Document: d\n\n```\ny\n```\n");
    let inline = vec![DocumentElement::Code {
        code: "z".to_string(),
        language: None,
        inline: true,
    }];
    assert_eq!(export_to_txt(&inline, "d"), "# Document: d\n\n`z`\n");
}

#[test]
fn txt_links_images_and_metadata_prefixes() {
    let elements = vec![
        DocumentElement::Description { text: "D".to_string() },
        DocumentElement::Keywords { text: "K".to_string() },
        DocumentElement::Author { text: "A".to_string() },
        DocumentElement::Language { text: "en".to_string() },
        DocumentElement::Link { text: "t".to_string(), url: "u".to_string() },
        DocumentElement::Image { alt: "a".to_string(), url: Some("u".to_string()) },
        DocumentElement::Image { alt: "b".to_string(), url: None },
    ];
    assert_eq!(
        export_to_txt(&elements, "d"),
        "# Document: d\n\nDESCRIPTION: D\n\nKEYWORDS: K\n\nAUTHOR: A\n\nLANGUAGE: en\n\n[t](u)\n\n[IMAGE: a (u)]\n\n[IMAGE: b]\n"
    );
}

#[test]
fn txt_table_pipes_and_separator() {
    let elements = vec![DocumentElement::Table {
        headers: vec!["h1".to_string(), "h2".to_string()],
        rows: vec![
            vec!["a".to_string(), "b".to_string()],
            vec!["c".to_string(), "d".to_string()],
        ],
    }];
    assert_eq!(
        export_to_txt(&elements, "d"),
        "# Document: d\n\n| h1 | h2 |\n|---|---||\n| a | b |\n| c | d |\n"
    );
}

#[test]
fn empty_inputs_render_empty_outputs() {
    let none: Vec<DocumentElement> = vec![];
    assert_eq!(export_to_jsonl_at(&none, "s", "html", "t"), "");
    assert_eq!(export_to_txt(&none, "s"), "# Document: s\n");
}
