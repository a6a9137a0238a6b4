//! Retrieval-augmented answering over a document collection: documents are cut
//! into overlapping, sentence-respecting chunks for a vector index, and a query
//! is answered from deduplicated search results through a structured prompt.
//!
//! - `text`: whitespace, trimming and splitting of text.
//! - `chunking`: the hierarchical chunker and its laws.
//! - `loading`: the document text of extracted PDF pages.
//! - `links`: links recovered from the names of saved web pages.
//! - `retrieval`: search results, their defaults, and deduplication.
//! - `question`: the prompt built from the results and the user's question.
//! - `pipeline`: the steps of ingestion and search.
pub mod chunking;
pub mod links;
pub mod loading;
pub mod models;
pub mod pipeline;
pub mod question;
pub mod retrieval;
pub mod text;
