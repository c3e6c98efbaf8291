//! The training-record shape that the JSONL renderer produces: one record
//! per element, carrying the element's text, a type tag, and provenance
//! metadata.

use vstd::prelude::*;

verus! {

/// Provenance and shape metadata of one training record.
#[derive(Debug, Clone, PartialEq)]
pub struct RecordMetadata {
    pub source_file: String,
    pub document_type: String,
    pub content_length: usize,
    pub language: Option<String>,
    pub timestamp: String,
}

/// One JSONL training record: element text, element-type tag, metadata.
#[derive(Debug, Clone, PartialEq)]
pub struct TrainingRecord {
    pub text: String,
    pub element_type: String,
    pub metadata: RecordMetadata,
}

/// The mathematical model of `RecordMetadata`.
pub struct MetadataModel {
    pub source_file: Seq<char>,
    pub document_type: Seq<char>,
    pub content_length: int,
    pub language: Option<Seq<char>>,
    pub timestamp: Seq<char>,
}

/// The mathematical model of `TrainingRecord`.
pub struct RecordModel {
    pub text: Seq<char>,
    pub element_type: Seq<char>,
    pub metadata: MetadataModel,
}

impl View for RecordMetadata {
    type V = MetadataModel;

    open spec fn view(&self) -> MetadataModel {
        MetadataModel {
            source_file: self.source_file@,
            document_type: self.document_type@,
            content_length: self.content_length as int,
            language: self.language.deep_view(),
            timestamp: self.timestamp@,
        }
    }
}

impl View for TrainingRecord {
    type V = RecordModel;

    open spec fn view(&self) -> RecordModel {
        RecordModel {
            text: self.text@,
            element_type: self.element_type@,
            metadata: self.metadata@,
        }
    }
}

} // verus!
