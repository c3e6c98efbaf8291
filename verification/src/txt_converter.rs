//! The text renderer: one human-readable, markdown-flavored block per
//! element, each followed by a blank separator line, preceded by a
//! document header line and a blank line.

use vstd::prelude::*;
use crate::documents_types::{DocumentElement, ElemModel};
use crate::text::{dec_of, dec_spec, join_strs, join_with, repeat_seq, repeat_str};

verus! {

/// The numbered lines of an ordered list: `1. a`, `2. b`, ...
pub open spec fn numbered_items(items: Seq<Seq<char>>) -> Seq<Seq<char>> {
    Seq::new(items.len(), |i: int| dec_spec(i + 1) + ". "@ + items[i])
}

/// The bulleted lines of an unordered list: `- a`, `- b`, ...
pub open spec fn bulleted_items(items: Seq<Seq<char>>) -> Seq<Seq<char>> {
    Seq::new(items.len(), |i: int| "- "@ + items[i])
}

/// One pipe-delimited table line: `| c1 | c2 |`.
pub open spec fn table_line(cells: Seq<Seq<char>>) -> Seq<char> {
    "| "@ + join_with(cells, " | "@) + " |"@
}

/// A table rendering: the header line, a separator line of dashes, then
/// one line per row, joined by newlines.
pub open spec fn table_txt(headers: Seq<Seq<char>>, rows: Seq<Seq<Seq<char>>>) -> Seq<char> {
    let lines = seq![
        table_line(headers),
        "|"@ + repeat_seq("---|"@, headers.len() as int) + "|"@,
    ] + Seq::new(rows.len(), |i: int| table_line(rows[i]));
    join_with(lines, "\n"@)
}

/// The human-readable block for one element.
pub open spec fn txt_block_of(e: ElemModel) -> Seq<char> {
    match e {
        ElemModel::Title { text } => "TITLE: "@ + text,
        ElemModel::Description { text } => "DESCRIPTION: "@ + text,
        ElemModel::Keywords { text } => "KEYWORDS: "@ + text,
        ElemModel::Author { text } => "AUTHOR: "@ + text,
        ElemModel::Language { text } => "LANGUAGE: "@ + text,
        ElemModel::Heading { level, text } => repeat_seq("#"@, level) + " "@ + text,
        ElemModel::Paragraph { text } => text,
        ElemModel::Blockquote { text } => "> "@ + text,
        ElemModel::List { items, ordered } => if ordered {
            join_with(numbered_items(items), "\n"@)
        } else {
            join_with(bulleted_items(items), "\n"@)
        },
        ElemModel::Code { code, language, inline } => if inline {
            "`"@ + code + "`"@
        } else {
            "```"@ + (match language {
                Some(l) => l,
                None => Seq::empty(),
            }) + "\n"@ + code + "\n```"@
        },
        ElemModel::Link { text, url } => "["@ + text + "]("@ + url + ")"@,
        ElemModel::Image { alt, url } => match url {
            Some(u) => "[IMAGE: "@ + alt + " ("@ + u + ")]"@,
            None => "[IMAGE: "@ + alt + "]"@,
        },
        ElemModel::Table { headers, rows } => table_txt(headers, rows),
    }
}

/// The line list for the first `k` elements: each element's block
/// followed by a blank line.
pub open spec fn txt_lines_upto(elems: Seq<ElemModel>, k: int) -> Seq<Seq<char>>
    decreases k,
{
    if k <= 0 {
        seq![]
    } else {
        txt_lines_upto(elems, k - 1) + seq![txt_block_of(elems[k - 1]), Seq::<char>::empty()]
    }
}

/// The whole text rendering: a `# Document:` header, a blank line, then
/// each element's block with its blank separator, joined by newlines.
pub open spec fn txt_render(elems: Seq<ElemModel>, source_file: Seq<char>) -> Seq<char> {
    join_with(
        seq!["# Document: "@ + source_file, Seq::<char>::empty()] + txt_lines_upto(
            elems,
            elems.len() as int,
        ),
        "\n"@,
    )
}

/// Renders the numbered lines of an ordered list.
fn numbered_lines(items: &Vec<String>) -> (r: Vec<String>)
    ensures
        r.deep_view() == numbered_items(items.deep_view()),
{
    let mut lines: Vec<String> = Vec::new();
    let n = items.len();
    let mut j: usize = 0;
    while j < n
        invariant
            0 <= j <= n,
            n == items.deep_view().len(),
            lines.deep_view() == numbered_items(items.deep_view()).take(j as int),
        decreases n - j,
    {
        let ghost pre = lines.deep_view();
        let mut s = dec_of(j + 1);
        s.append(". ");
        s.append(items[j].as_str());
        let ghost sv = s@;
        lines.push(s);
        proof {
            assert(lines.deep_view() =~= pre.push(sv));
            assert(pre.push(sv) =~= numbered_items(items.deep_view()).take(j + 1));
        }
        j = j + 1;
    }
    proof {
        assert(numbered_items(items.deep_view()).take(n as int) =~= numbered_items(
            items.deep_view(),
        ));
    }
    lines
}

/// Renders the bulleted lines of an unordered list.
fn bulleted_lines(items: &Vec<String>) -> (r: Vec<String>)
    ensures
        r.deep_view() == bulleted_items(items.deep_view()),
{
    let mut lines: Vec<String> = Vec::new();
    let n = items.len();
    let mut j: usize = 0;
    while j < n
        invariant
            0 <= j <= n,
            n == items.deep_view().len(),
            lines.deep_view() == bulleted_items(items.deep_view()).take(j as int),
        decreases n - j,
    {
        let ghost pre = lines.deep_view();
        let mut s = "- ".to_owned();
        s.append(items[j].as_str());
        let ghost sv = s@;
        lines.push(s);
        proof {
            assert(lines.deep_view() =~= pre.push(sv));
            assert(pre.push(sv) =~= bulleted_items(items.deep_view()).take(j + 1));
        }
        j = j + 1;
    }
    proof {
        assert(bulleted_items(items.deep_view()).take(n as int) =~= bulleted_items(
            items.deep_view(),
        ));
    }
    lines
}

/// Renders one pipe-delimited table line.
fn render_table_line(cells: &Vec<String>) -> (r: String)
    ensures
        r@ == table_line(cells.deep_view()),
{
    let mut s = "| ".to_owned();
    s.append(join_strs(cells, " | ").as_str());
    s.append(" |");
    s
}

/// Renders one table: header line, dash separator, one line per row.
fn render_table(headers: &Vec<String>, rows: &Vec<Vec<String>>) -> (r: String)
    ensures
        r@ == table_txt(headers.deep_view(), rows.deep_view()),
{
    let mut lines: Vec<String> = Vec::new();
    lines.push(render_table_line(headers));
    let mut sep = "|".to_owned();
    sep.append(repeat_str("---|", headers.len()).as_str());
    sep.append("|");
    lines.push(sep);
    let ghost base = lines.deep_view();
    proof {
        assert(base =~= seq![
            table_line(headers.deep_view()),
            "|"@ + repeat_seq("---|"@, headers.deep_view().len() as int) + "|"@,
        ]);
    }
    let n = rows.len();
    let mut j: usize = 0;
    while j < n
        invariant
            0 <= j <= n,
            n == rows.deep_view().len(),
            lines.deep_view() == base + Seq::new(rows.deep_view().len(), |i: int|
                table_line(rows.deep_view()[i])).take(j as int),
        decreases n - j,
    {
        let ghost pre = lines.deep_view();
        let line = render_table_line(&rows[j]);
        let ghost lv = line@;
        lines.push(line);
        proof {
            assert(lines.deep_view() =~= pre.push(lv));
            assert(pre.push(lv) =~= base + Seq::new(rows.deep_view().len(), |i: int|
                table_line(rows.deep_view()[i])).take(j + 1));
        }
        j = j + 1;
    }
    proof {
        assert(Seq::new(rows.deep_view().len(), |i: int| table_line(rows.deep_view()[i])).take(
            n as int,
        ) =~= Seq::new(rows.deep_view().len(), |i: int| table_line(rows.deep_view()[i])));
    }
    join_strs(&lines, "\n")
}

/// Renders the human-readable block for one element.
fn txt_block(e: &DocumentElement) -> (r: String)
    ensures
        r@ == txt_block_of(e@),
{
    match e {
        DocumentElement::Title { text } => {
            let mut s = "TITLE: ".to_owned();
            s.append(text.as_str());
            s
        },
        DocumentElement::Description { text } => {
            let mut s = "DESCRIPTION: ".to_owned();
            s.append(text.as_str());
            s
        },
        DocumentElement::Keywords { text } => {
            let mut s = "KEYWORDS: ".to_owned();
            s.append(text.as_str());
            s
        },
        DocumentElement::Author { text } => {
            let mut s = "AUTHOR: ".to_owned();
            s.append(text.as_str());
            s
        },
        DocumentElement::Language { text } => {
            let mut s = "LANGUAGE: ".to_owned();
            s.append(text.as_str());
            s
        },
        DocumentElement::Heading { level, text } => {
            let mut s = repeat_str("#", *level as usize);
            s.append(" ");
            s.append(text.as_str());
            s
        },
        DocumentElement::Paragraph { text } => text.clone(),
        DocumentElement::Blockquote { text } => {
            let mut s = "> ".to_owned();
            s.append(text.as_str());
            s
        },
        DocumentElement::List { items, ordered } => {
            if *ordered {
                join_strs(&numbered_lines(items), "\n")
            } else {
                join_strs(&bulleted_lines(items), "\n")
            }
        },
        DocumentElement::Code { code, language, inline } => {
            if *inline {
                let mut s = "`".to_owned();
                s.append(code.as_str());
                s.append("`");
                s
            } else {
                let mut s = "```".to_owned();
                match language {
                    Some(l) => {
                        s.append(l.as_str());
                    },
                    None => {
                        proof {
                            assert(s@ + Seq::<char>::empty() =~= s@);
                        }
                    },
                }
                s.append("\n");
                s.append(code.as_str());
                s.append("\n```");
                s
            }
        },
        DocumentElement::Link { text, url } => {
            let mut s = "[".to_owned();
            s.append(text.as_str());
            s.append("](");
            s.append(url.as_str());
            s.append(")");
            s
        },
        DocumentElement::Image { alt, url } => {
            let mut s = "[IMAGE: ".to_owned();
            s.append(alt.as_str());
            match url {
                Some(u) => {
                    s.append(" (");
                    s.append(u.as_str());
                    s.append(")]");
                },
                None => {
                    s.append("]");
                },
            }
            s
        },
        DocumentElement::Table { headers, rows } => render_table(headers, rows),
    }
}

/// Renders the element sequence as human-readable text: a `# Document:`
/// header, then one block per element, each followed by a blank line.
pub fn export_to_txt(elements: &Vec<DocumentElement>, source_file: &str) -> (r: String)
    ensures
        r@ == txt_render(elements.deep_view(), source_file@),
{
    let mut lines: Vec<String> = Vec::new();
    let mut header = "# Document: ".to_owned();
    header.append(source_file);
    lines.push(header);
    lines.push(String::new());
    let ghost base = lines.deep_view();
    proof {
        assert(base =~= seq!["# Document: "@ + source_file@, Seq::<char>::empty()]);
    }
    let n = elements.len();
    let mut i: usize = 0;
    while i < n
        invariant
            0 <= i <= n,
            n == elements.deep_view().len(),
            lines.deep_view() == base + txt_lines_upto(elements.deep_view(), i as int),
        decreases n - i,
    {
        let ghost pre = lines.deep_view();
        let block = txt_block(&elements[i]);
        let ghost bv = block@;
        lines.push(block);
        lines.push(String::new());
        proof {
            assert(lines.deep_view() =~= pre.push(bv).push(Seq::<char>::empty()));
            assert(pre.push(bv).push(Seq::<char>::empty()) =~= base + txt_lines_upto(
                elements.deep_view(),
                i + 1,
            ));
        }
        i = i + 1;
    }
    join_strs(&lines, "\n")
}

} // verus!
