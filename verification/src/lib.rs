//! Extraction of typed content elements from semi-structured documents
//! (HTML and PDF) and rendering of those elements into line-oriented
//! training records (JSONL) and a human-readable text form.

pub mod converter_types;
pub mod documents_types;
pub mod dom;
pub mod download;
pub mod html_parser;
pub mod jsonl_converter;
pub mod laws;
pub mod pdf_parser;
pub mod text;
pub mod txt_converter;
