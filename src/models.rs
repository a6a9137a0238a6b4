//! The records that flow through ingestion.
use vstd::prelude::*;

verus! {

/// The kinds of file that ingestion accepts.
#[derive(Debug, Clone, Copy, PartialEq, Eq, Structural)]
pub enum RagProcessableFileType {
    Pdf,
    Markdown,
    Text,
}

/// A file after text extraction, with the metadata carried along with it.
#[derive(Debug, Clone)]
pub struct LoadedFile {
    pub file_type: RagProcessableFileType,
    pub content: String,
    pub internal_id: String,
    pub tags: Option<Vec<String>>,
    pub original_file_description: Option<String>,
    pub syntetic_file_description: Option<String>,
}

/// One segment of a document, numbered by its position in the document.
#[derive(Debug, Clone)]
pub struct Chunk {
    pub seq_num: usize,
    pub text: String,
}

/// A document together with the chunks cut from it.
#[derive(Debug, Clone)]
pub struct ChunkedFile<C> {
    pub file: LoadedFile,
    pub chunks: Vec<C>,
}

} // verus!
