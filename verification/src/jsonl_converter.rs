//! The JSONL renderer: one JSON object per element, newline-joined. Every
//! element maps deterministically to one `element_type` tag and one
//! synthesized `text`; the record's `content_length` is the byte length
//! of that text. The JSON encoding itself (field order, string escaping)
//! is rendered here and specified exactly.

use vstd::prelude::*;
use crate::converter_types::{MetadataModel, RecordMetadata, RecordModel, TrainingRecord};
use crate::documents_types::{DocumentElement, ElemModel};
use crate::text::{byte_len, dec_of, dec_spec, join_strs, join_with};

verus! {

broadcast use vstd::slice::axiom_spec_len;

/// The lower-case hexadecimal digit character for `d` in 0..=15.
pub open spec fn hex_char(d: int) -> char {
    if d == 0 {
        '0'
    } else if d == 1 {
        '1'
    } else if d == 2 {
        '2'
    } else if d == 3 {
        '3'
    } else if d == 4 {
        '4'
    } else if d == 5 {
        '5'
    } else if d == 6 {
        '6'
    } else if d == 7 {
        '7'
    } else if d == 8 {
        '8'
    } else if d == 9 {
        '9'
    } else if d == 10 {
        'a'
    } else if d == 11 {
        'b'
    } else if d == 12 {
        'c'
    } else if d == 13 {
        'd'
    } else if d == 14 {
        'e'
    } else {
        'f'
    }
}

/// How one character appears inside a JSON string: quote and backslash
/// escaped, the five short control escapes, `\u00XX` for the remaining
/// control characters, every other character as itself.
pub open spec fn esc_char(c: char) -> Seq<char> {
    if c == '"' {
        seq!['\\', '"']
    } else if c == '\\' {
        seq!['\\', '\\']
    } else if c == '\u{8}' {
        seq!['\\', 'b']
    } else if c == '\t' {
        seq!['\\', 't']
    } else if c == '\n' {
        seq!['\\', 'n']
    } else if c == '\u{c}' {
        seq!['\\', 'f']
    } else if c == '\r' {
        seq!['\\', 'r']
    } else if (c as u32) < 0x20 {
        seq!['\\', 'u', '0', '0', hex_char((c as u32) as int / 16), hex_char((c as u32) as int % 16)]
    } else {
        seq![c]
    }
}

/// The JSON string-body encoding of `s`: each character escaped.
pub open spec fn json_escape_spec(s: Seq<char>) -> Seq<char>
    decreases s.len(),
{
    if s.len() == 0 {
        Seq::empty()
    } else {
        esc_char(s[0]) + json_escape_spec(s.drop_first())
    }
}

/// Escaping one more character appends that character's escape.
pub proof fn lemma_escape_push(t: Seq<char>, c: char)
    ensures
        json_escape_spec(t.push(c)) == json_escape_spec(t) + esc_char(c),
    decreases t.len(),
{
    if t.len() == 0 {
        assert(t.push(c)[0] == c);
        assert(t.push(c).drop_first() =~= t);
        assert(json_escape_spec(t.push(c)) == esc_char(c) + json_escape_spec(t));
        assert(esc_char(c) + json_escape_spec(t) =~= json_escape_spec(t) + esc_char(c));
    } else {
        assert(t.push(c)[0] == t[0]);
        assert(t.push(c).drop_first() =~= t.drop_first().push(c));
        lemma_escape_push(t.drop_first(), c);
        assert(json_escape_spec(t.push(c)) == esc_char(t[0]) + json_escape_spec(
            t.drop_first().push(c),
        ));
        assert(json_escape_spec(t) == esc_char(t[0]) + json_escape_spec(t.drop_first()));
        assert(esc_char(t[0]) + (json_escape_spec(t.drop_first()) + esc_char(c)) =~= (esc_char(
            t[0],
        ) + json_escape_spec(t.drop_first())) + esc_char(c));
        assert(json_escape_spec(t.push(c)) == json_escape_spec(t) + esc_char(c));
    }
}

fn hex_str(d: u32) -> (r: &'static str)
    requires
        d < 16,
    ensures
        r@ == seq![hex_char(d as int)],
{
    if d == 0 {
        proof {
            reveal_strlit("0");
        }
        assert("0"@ =~= seq!['0']);
        "0"
    } else if d == 1 {
        proof {
            reveal_strlit("1");
        }
        assert("1"@ =~= seq!['1']);
        "1"
    } else if d == 2 {
        proof {
            reveal_strlit("2");
        }
        assert("2"@ =~= seq!['2']);
        "2"
    } else if d == 3 {
        proof {
            reveal_strlit("3");
        }
        assert("3"@ =~= seq!['3']);
        "3"
    } else if d == 4 {
        proof {
            reveal_strlit("4");
        }
        assert("4"@ =~= seq!['4']);
        "4"
    } else if d == 5 {
        proof {
            reveal_strlit("5");
        }
        assert("5"@ =~= seq!['5']);
        "5"
    } else if d == 6 {
        proof {
            reveal_strlit("6");
        }
        assert("6"@ =~= seq!['6']);
        "6"
    } else if d == 7 {
        proof {
            reveal_strlit("7");
        }
        assert("7"@ =~= seq!['7']);
        "7"
    } else if d == 8 {
        proof {
            reveal_strlit("8");
        }
        assert("8"@ =~= seq!['8']);
        "8"
    } else if d == 9 {
        proof {
            reveal_strlit("9");
        }
        assert("9"@ =~= seq!['9']);
        "9"
    } else if d == 10 {
        proof {
            reveal_strlit("a");
        }
        assert("a"@ =~= seq!['a']);
        "a"
    } else if d == 11 {
        proof {
            reveal_strlit("b");
        }
        assert("b"@ =~= seq!['b']);
        "b"
    } else if d == 12 {
        proof {
            reveal_strlit("c");
        }
        assert("c"@ =~= seq!['c']);
        "c"
    } else if d == 13 {
        proof {
            reveal_strlit("d");
        }
        assert("d"@ =~= seq!['d']);
        "d"
    } else if d == 14 {
        proof {
            reveal_strlit("e");
        }
        assert("e"@ =~= seq!['e']);
        "e"
    } else {
        proof {
            reveal_strlit("f");
        }
        assert("f"@ =~= seq!['f']);
        "f"
    }
}

/// Escapes `s` for use inside a JSON string literal.
pub fn json_escape(s: &str) -> (r: String)
    ensures
        r@ == json_escape_spec(s@),
{
    let n = s.unicode_len();
    let mut r = String::new();
    let mut i: usize = 0;
    proof {
        assert(s@.take(0) =~= Seq::<char>::empty());
    }
    while i < n
        invariant
            0 <= i <= n,
            n == s@.len(),
            r@ == json_escape_spec(s@.take(i as int)),
        decreases n - i,
    {
        let ghost pre = r@;
        let c = s.get_char(i);
        if c == '"' {
            r.append("\\\"");
            proof {
                reveal_strlit("\\\"");
                assert("\\\""@ =~= esc_char(c));
            }
        } else if c == '\\' {
            r.append("\\\\");
            proof {
                reveal_strlit("\\\\");
                assert("\\\\"@ =~= esc_char(c));
            }
        } else if c == '\u{8}' {
            r.append("\\b");
            proof {
                reveal_strlit("\\b");
                assert("\\b"@ =~= esc_char(c));
            }
        } else if c == '\t' {
            r.append("\\t");
            proof {
                reveal_strlit("\\t");
                assert("\\t"@ =~= esc_char(c));
            }
        } else if c == '\n' {
            r.append("\\n");
            proof {
                reveal_strlit("\\n");
                assert("\\n"@ =~= esc_char(c));
            }
        } else if c == '\u{c}' {
            r.append("\\f");
            proof {
                reveal_strlit("\\f");
                assert("\\f"@ =~= esc_char(c));
            }
        } else if c == '\r' {
            r.append("\\r");
            proof {
                reveal_strlit("\\r");
                assert("\\r"@ =~= esc_char(c));
            }
        } else if (c as u32) < 0x20 {
            let u = c as u32;
            r.append("\\u00");
            r.append(hex_str(u / 16));
            r.append(hex_str(u % 16));
            proof {
                reveal_strlit("\\u00");
                assert(r@ =~= pre + esc_char(c));
            }
        } else {
            r.append(s.substring_char(i, i + 1));
            proof {
                assert(s@.subrange(i as int, i + 1) =~= seq![s@[i as int]]);
                assert(r@ =~= pre + esc_char(c));
            }
        }
        proof {
            assert(r@ =~= pre + esc_char(c));
            assert(s@.take(i + 1) =~= s@.take(i as int).push(c));
            lemma_escape_push(s@.take(i as int), c);
        }
        i = i + 1;
    }
    proof {
        assert(s@.take(n as int) =~= s@);
    }
    r
}

/// The `element_type` tag of one element: `heading_{level}` for
/// headings, `ordered_list`/`unordered_list` for lists,
/// `inline_code`/`code_block` for code, else the lower-case variant
/// name.
pub open spec fn element_type_of(e: ElemModel) -> Seq<char> {
    match e {
        ElemModel::Title { .. } => "title"@,
        ElemModel::Description { .. } => "description"@,
        ElemModel::Keywords { .. } => "keywords"@,
        ElemModel::Author { .. } => "author"@,
        ElemModel::Language { .. } => "language"@,
        ElemModel::Heading { level, .. } => "heading_"@ + dec_spec(level),
        ElemModel::Paragraph { .. } => "paragraph"@,
        ElemModel::Blockquote { .. } => "blockquote"@,
        ElemModel::List { ordered, .. } => if ordered {
            "ordered_list"@
        } else {
            "unordered_list"@
        },
        ElemModel::Table { .. } => "table"@,
        ElemModel::Code { inline, .. } => if inline {
            "inline_code"@
        } else {
            "code_block"@
        },
        ElemModel::Link { .. } => "link"@,
        ElemModel::Image { .. } => "image"@,
    }
}

/// The row portion of a table's synthesized text: one `Row: c1, c2 | `
/// chunk per row among the first `k`.
pub open spec fn table_rows_chunk(rows: Seq<Seq<Seq<char>>>, k: int) -> Seq<char>
    decreases k,
{
    if k <= 0 {
        Seq::empty()
    } else {
        table_rows_chunk(rows, k - 1) + ("Row: "@ + join_with(rows[k - 1], ", "@) + " | "@)
    }
}

/// A table's synthesized text: `Headers: h1, h2 | Row: c1, c2 | ...`.
pub open spec fn table_text(headers: Seq<Seq<char>>, rows: Seq<Seq<Seq<char>>>) -> Seq<char> {
    "Headers: "@ + join_with(headers, ", "@) + " | "@ + table_rows_chunk(rows, rows.len() as int)
}

/// The `text` value of one record: the element's own text, or the
/// composite rendering for lists, tables, links and images.
pub open spec fn jsonl_text_of(e: ElemModel) -> Seq<char> {
    match e {
        ElemModel::Title { text } => text,
        ElemModel::Description { text } => text,
        ElemModel::Keywords { text } => text,
        ElemModel::Author { text } => text,
        ElemModel::Language { text } => text,
        ElemModel::Heading { text, .. } => text,
        ElemModel::Paragraph { text } => text,
        ElemModel::Blockquote { text } => text,
        ElemModel::List { items, .. } => join_with(items, " | "@),
        ElemModel::Table { headers, rows } => table_text(headers, rows),
        ElemModel::Code { code, .. } => code,
        ElemModel::Link { text, url } => text + " -> "@ + url,
        ElemModel::Image { alt, url } => match url {
            Some(u) => alt + " ("@ + u + ")"@,
            None => alt,
        },
    }
}

/// The metadata `language` of one record: populated only by the
/// `Language` element's own text and the `Code` element's language.
pub open spec fn record_language_of(e: ElemModel) -> Option<Seq<char>> {
    match e {
        ElemModel::Language { text } => Some(text),
        ElemModel::Code { language, .. } => language,
        _ => None,
    }
}

/// The record for one element: its synthesized text and type tag, with
/// `content_length` the byte length of that text.
pub open spec fn record_model_of(
    e: ElemModel,
    source_file: Seq<char>,
    document_type: Seq<char>,
    timestamp: Seq<char>,
) -> RecordModel {
    RecordModel {
        text: jsonl_text_of(e),
        element_type: element_type_of(e),
        metadata: MetadataModel {
            source_file: source_file,
            document_type: document_type,
            content_length: byte_len(jsonl_text_of(e)) as int,
            language: record_language_of(e),
            timestamp: timestamp,
        },
    }
}

/// A JSON string value: quoted escaped text, or `null` when absent.
pub open spec fn json_opt_string(l: Option<Seq<char>>) -> Seq<char> {
    match l {
        Some(v) => "\""@ + json_escape_spec(v) + "\""@,
        None => "null"@,
    }
}

/// The one-line JSON object for a record, fields in declaration order,
/// no added whitespace.
pub open spec fn jsonl_line_of(r: RecordModel) -> Seq<char> {
    "{\"text\":\""@ + json_escape_spec(r.text) + "\",\"element_type\":\""@ + json_escape_spec(
        r.element_type,
    ) + "\",\"metadata\":{\"source_file\":\""@ + json_escape_spec(r.metadata.source_file)
        + "\",\"document_type\":\""@ + json_escape_spec(r.metadata.document_type)
        + "\",\"content_length\":"@ + dec_spec(r.metadata.content_length) + ",\"language\":"@
        + json_opt_string(r.metadata.language) + ",\"timestamp\":\""@ + json_escape_spec(
        r.metadata.timestamp,
    ) + "\"}}"@
}

/// The JSONL lines for the first `k` elements, one per element.
pub open spec fn jsonl_lines_upto(
    elems: Seq<ElemModel>,
    source_file: Seq<char>,
    document_type: Seq<char>,
    timestamp: Seq<char>,
    k: int,
) -> Seq<Seq<char>>
    decreases k,
{
    if k <= 0 {
        seq![]
    } else {
        jsonl_lines_upto(elems, source_file, document_type, timestamp, k - 1) + seq![
            jsonl_line_of(record_model_of(elems[k - 1], source_file, document_type, timestamp)),
        ]
    }
}

/// The whole JSONL rendering: one JSON object per element, joined by
/// newlines, all records carrying the same capture timestamp.
pub open spec fn jsonl_render(
    elems: Seq<ElemModel>,
    source_file: Seq<char>,
    document_type: Seq<char>,
    timestamp: Seq<char>,
) -> Seq<char> {
    join_with(
        jsonl_lines_upto(elems, source_file, document_type, timestamp, elems.len() as int),
        "\n"@,
    )
}

/// Renders a table's synthesized text.
fn render_table_text(headers: &Vec<String>, rows: &Vec<Vec<String>>) -> (r: String)
    ensures
        r@ == table_text(headers.deep_view(), rows.deep_view()),
{
    let mut s = "Headers: ".to_owned();
    s.append(join_strs(headers, ", ").as_str());
    s.append(" | ");
    let ghost head = s@;
    let n = rows.len();
    let mut j: usize = 0;
    while j < n
        invariant
            0 <= j <= n,
            n == rows.deep_view().len(),
            s@ == head + table_rows_chunk(rows.deep_view(), j as int),
        decreases n - j,
    {
        s.append("Row: ");
        s.append(join_strs(&rows[j], ", ").as_str());
        s.append(" | ");
        proof {
            assert(s@ =~= head + table_rows_chunk(rows.deep_view(), j + 1));
        }
        j = j + 1;
    }
    proof {
        assert(head + table_rows_chunk(rows.deep_view(), 0) =~= head);
    }
    s
}

/// Synthesizes the record text for one element.
fn jsonl_text(e: &DocumentElement) -> (r: String)
    ensures
        r@ == jsonl_text_of(e@),
{
    match e {
        DocumentElement::Title { text } => text.clone(),
        DocumentElement::Description { text } => text.clone(),
        DocumentElement::Keywords { text } => text.clone(),
        DocumentElement::Author { text } => text.clone(),
        DocumentElement::Language { text } => text.clone(),
        DocumentElement::Heading { text, .. } => text.clone(),
        DocumentElement::Paragraph { text } => text.clone(),
        DocumentElement::Blockquote { text } => text.clone(),
        DocumentElement::List { items, .. } => join_strs(items, " | "),
        DocumentElement::Table { headers, rows } => render_table_text(headers, rows),
        DocumentElement::Code { code, .. } => code.clone(),
        DocumentElement::Link { text, url } => {
            let mut s = text.clone();
            s.append(" -> ");
            s.append(url.as_str());
            s
        },
        DocumentElement::Image { alt, url } => {
            match url {
                Some(u) => {
                    let mut s = alt.clone();
                    s.append(" (");
                    s.append(u.as_str());
                    s.append(")");
                    s
                },
                None => alt.clone(),
            }
        },
    }
}

/// The element-type tag for one element.
fn element_type_str(e: &DocumentElement) -> (r: String)
    ensures
        r@ == element_type_of(e@),
{
    match e {
        DocumentElement::Title { .. } => "title".to_owned(),
        DocumentElement::Description { .. } => "description".to_owned(),
        DocumentElement::Keywords { .. } => "keywords".to_owned(),
        DocumentElement::Author { .. } => "author".to_owned(),
        DocumentElement::Language { .. } => "language".to_owned(),
        DocumentElement::Heading { level, .. } => {
            let mut s = "heading_".to_owned();
            s.append(dec_of(*level as usize).as_str());
            s
        },
        DocumentElement::Paragraph { .. } => "paragraph".to_owned(),
        DocumentElement::Blockquote { .. } => "blockquote".to_owned(),
        DocumentElement::List { ordered, .. } => if *ordered {
            "ordered_list".to_owned()
        } else {
            "unordered_list".to_owned()
        },
        DocumentElement::Table { .. } => "table".to_owned(),
        DocumentElement::Code { inline, .. } => if *inline {
            "inline_code".to_owned()
        } else {
            "code_block".to_owned()
        },
        DocumentElement::Link { .. } => "link".to_owned(),
        DocumentElement::Image { .. } => "image".to_owned(),
    }
}

/// The metadata language for one element.
fn element_language(e: &DocumentElement) -> (r: Option<String>)
    ensures
        r.deep_view() == record_language_of(e@),
{
    match e {
        DocumentElement::Language { text } => Some(text.clone()),
        DocumentElement::Code { language, .. } => match language {
            Some(l) => Some(l.clone()),
            None => None,
        },
        _ => None,
    }
}

/// Builds the training record for one element: synthesized text, type
/// tag, and metadata whose `content_length` is the byte length of the
/// text.
pub fn make_record(
    element: &DocumentElement,
    source_file: &str,
    document_type: &str,
    timestamp: &str,
) -> (r: TrainingRecord)
    ensures
        r@ == record_model_of(element@, source_file@, document_type@, timestamp@),
        r@.metadata.content_length == byte_len(r@.text),
{
    let text = jsonl_text(element);
    let element_type = element_type_str(element);
    let language = element_language(element);
    let content_length = text.as_str().as_bytes().len();
    TrainingRecord {
        text,
        element_type,
        metadata: RecordMetadata {
            source_file: source_file.to_owned(),
            document_type: document_type.to_owned(),
            content_length,
            language,
            timestamp: timestamp.to_owned(),
        },
    }
}

/// Serializes one record as its one-line JSON object.
pub fn record_json_line(r: &TrainingRecord) -> (line: String)
    ensures
        line@ == jsonl_line_of(r@),
{
    let mut s = "{\"text\":\"".to_owned();
    s.append(json_escape(r.text.as_str()).as_str());
    s.append("\",\"element_type\":\"");
    s.append(json_escape(r.element_type.as_str()).as_str());
    s.append("\",\"metadata\":{\"source_file\":\"");
    s.append(json_escape(r.metadata.source_file.as_str()).as_str());
    s.append("\",\"document_type\":\"");
    s.append(json_escape(r.metadata.document_type.as_str()).as_str());
    s.append("\",\"content_length\":");
    s.append(dec_of(r.metadata.content_length).as_str());
    s.append(",\"language\":");
    let lang_part = match &r.metadata.language {
        Some(v) => {
            let mut p = "\"".to_owned();
            p.append(json_escape(v.as_str()).as_str());
            p.append("\"");
            p
        },
        None => "null".to_owned(),
    };
    proof {
        assert(lang_part@ == json_opt_string(r@.metadata.language));
    }
    s.append(lang_part.as_str());
    s.append(",\"timestamp\":\"");
    s.append(json_escape(r.metadata.timestamp.as_str()).as_str());
    s.append("\"}}");
    s
}

/// Renders the element sequence as JSONL with the given capture
/// timestamp on every record: line `N` is the record of element `N`.
pub fn export_to_jsonl_at(
    elements: &Vec<DocumentElement>,
    source_file: &str,
    document_type: &str,
    timestamp: &str,
) -> (r: String)
    ensures
        r@ == jsonl_render(elements.deep_view(), source_file@, document_type@, timestamp@),
{
    let mut lines: Vec<String> = Vec::new();
    let n = elements.len();
    let mut i: usize = 0;
    while i < n
        invariant
            0 <= i <= n,
            n == elements.deep_view().len(),
            lines.deep_view() == jsonl_lines_upto(
                elements.deep_view(),
                source_file@,
                document_type@,
                timestamp@,
                i as int,
            ),
        decreases n - i,
    {
        let ghost pre = lines.deep_view();
        let record = make_record(&elements[i], source_file, document_type, timestamp);
        let line = record_json_line(&record);
        let ghost lv = line@;
        lines.push(line);
        proof {
            assert(lines.deep_view() =~= pre.push(lv));
            assert(pre.push(lv) =~= jsonl_lines_upto(
                elements.deep_view(),
                source_file@,
                document_type@,
                timestamp@,
                i + 1,
            ));
        }
        i = i + 1;
    }
    join_strs(&lines, "\n")
}

/// Relies on chrono: `Utc::now()` captures the current instant, and
/// `DateTime::to_rfc3339` renders it. The result depends on the clock,
/// so nothing is promised of it.
#[verifier::external_body]
fn now_rfc3339() -> String {
    chrono::Utc::now().to_rfc3339()
}

/// Renders the element sequence as JSONL, capturing one timestamp for
/// the whole call: for some capture instant, the output is exactly the
/// timestamped rendering.
pub fn export_to_jsonl(
    elements: &Vec<DocumentElement>,
    source_file: &str,
    document_type: &str,
) -> (r: String)
    ensures
        exists|ts: Seq<char>|
            r@ == jsonl_render(elements.deep_view(), source_file@, document_type@, ts),
{
    let ts = now_rfc3339();
    let r = export_to_jsonl_at(elements, source_file, document_type, ts.as_str());
    proof {
        assert(r@ == jsonl_render(elements.deep_view(), source_file@, document_type@, ts@));
    }
    r
}

} // verus!
