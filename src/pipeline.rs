//! The decisions of the ingestion and retrieval pipelines. The calls to the
//! models and the vector store are made by the caller, which reports each
//! outcome back as an event.
use vstd::prelude::*;
use crate::models::{Chunk, ChunkedFile};

verus! {

/// Where a search stands.
#[derive(Debug, Clone, Copy, PartialEq, Eq, Structural)]
pub enum SearchStage {
    /// The query is being embedded.
    Embedding,
    /// The vector store is being searched.
    Searching,
    /// The answer is being generated.
    Generating,
    /// The answer stream has been handed to the caller.
    Finished,
    /// The search was aborted.
    Failed,
}

/// The outcome of the outside call a search made last.
#[derive(Debug, Clone, Copy, PartialEq, Eq, Structural)]
pub enum SearchEvent {
    QueryEmbedded,
    EmbeddingFailed,
    ResultsFound,
    StoreFailed,
    StreamOpened,
    GenerationFailed,
}

/// Why a search was aborted; each of these is worth a retry.
#[derive(Debug, Clone, Copy, PartialEq, Eq, Structural)]
pub enum SearchError {
    Embedding,
    Store,
    Generation,
}

/// What to do next.
#[derive(Debug, Clone, Copy, PartialEq, Eq, Structural)]
pub enum SearchAction {
    /// Search the vector store with the query's embedding.
    SearchStore,
    /// Deduplicate the results and ask the model for a streamed answer.
    Generate,
    /// Hand the retrieved results and the answer stream to the caller.
    Deliver,
    /// Stop and report the error, with no further outside call.
    Abort(SearchError),
    /// The event does not belong to this stage: nothing to do.
    Wait,
}

/// The next stage and action of a search, given its stage and the last event.
pub open spec fn search_step(stage: SearchStage, event: SearchEvent) -> (SearchStage, SearchAction) {
    match (stage, event) {
        (SearchStage::Embedding, SearchEvent::QueryEmbedded) => (SearchStage::Searching, SearchAction::SearchStore),
        (SearchStage::Embedding, SearchEvent::EmbeddingFailed) => (
            SearchStage::Failed,
            SearchAction::Abort(SearchError::Embedding),
        ),
        (SearchStage::Searching, SearchEvent::ResultsFound) => (SearchStage::Generating, SearchAction::Generate),
        (SearchStage::Searching, SearchEvent::StoreFailed) => (
            SearchStage::Failed,
            SearchAction::Abort(SearchError::Store),
        ),
        (SearchStage::Generating, SearchEvent::StreamOpened) => (SearchStage::Finished, SearchAction::Deliver),
        (SearchStage::Generating, SearchEvent::GenerationFailed) => (
            SearchStage::Failed,
            SearchAction::Abort(SearchError::Generation),
        ),
        _ => (stage, SearchAction::Wait),
    }
}

/// A search starts by embedding the query.
pub fn start_search() -> (r: SearchStage)
    ensures
        r == SearchStage::Embedding,
{
    SearchStage::Embedding
}

/// The next stage and action of a search: embedding, then search, then
/// generation; a failure at any step aborts the search at once.
pub fn next_search_step(stage: SearchStage, event: SearchEvent) -> (r: (SearchStage, SearchAction))
    ensures
        r == search_step(stage, event),
{
    match (stage, event) {
        (SearchStage::Embedding, SearchEvent::QueryEmbedded) => (SearchStage::Searching, SearchAction::SearchStore),
        (SearchStage::Embedding, SearchEvent::EmbeddingFailed) => (
            SearchStage::Failed,
            SearchAction::Abort(SearchError::Embedding),
        ),
        (SearchStage::Searching, SearchEvent::ResultsFound) => (SearchStage::Generating, SearchAction::Generate),
        (SearchStage::Searching, SearchEvent::StoreFailed) => (
            SearchStage::Failed,
            SearchAction::Abort(SearchError::Store),
        ),
        (SearchStage::Generating, SearchEvent::StreamOpened) => (SearchStage::Finished, SearchAction::Deliver),
        (SearchStage::Generating, SearchEvent::GenerationFailed) => (
            SearchStage::Failed,
            SearchAction::Abort(SearchError::Generation),
        ),
        _ => (stage, SearchAction::Wait),
    }
}

/// A search asks for generation only after the store answered a query that was
/// embedded; once the embedding failed, no step ever asks for generation.
pub proof fn lemma_generation_needs_context(stage: SearchStage, event: SearchEvent)
    ensures
        search_step(stage, event).1 == SearchAction::Generate ==> stage == SearchStage::Searching
            && event == SearchEvent::ResultsFound,
        search_step(SearchStage::Embedding, SearchEvent::EmbeddingFailed).0 == SearchStage::Failed,
        search_step(SearchStage::Failed, event) == (SearchStage::Failed, SearchAction::Wait),
{
}

impl SearchError {
    /// The message reported for this error.
    pub fn message(&self) -> (r: String)
        ensures
            r@ == match *self {
                SearchError::Embedding => "Failed embedding the query"@,
                SearchError::Store => "Failed searching the vector store"@,
                SearchError::Generation => "Failed generating the answer"@,
            },
    {
        match self {
            SearchError::Embedding => String::from_str("Failed embedding the query"),
            SearchError::Store => String::from_str("Failed searching the vector store"),
            SearchError::Generation => String::from_str("Failed generating the answer"),
        }
    }
}

/// A chunk with the metadata generated for its whole document.
#[derive(Debug, Clone)]
pub struct HypeChunk {
    pub seq_num: usize,
    pub text: String,
    pub doc_summary: String,
}

/// What is stored with each chunk's embedding.
#[derive(Debug, Clone)]
pub struct UploadPayload {
    pub parent_doc_id: String,
    pub seq_num: usize,
    pub content: String,
    pub doc_summary: String,
}

/// Attaches the document's summary to every chunk, keeping numbers and texts.
pub fn attach_summary(file: ChunkedFile<Chunk>, summary: &str) -> (r: ChunkedFile<HypeChunk>)
    ensures
        r.file == file.file,
        r.chunks@.len() == file.chunks@.len(),
        forall|i: int|
            0 <= i < r.chunks@.len() ==> {
                &&& #[trigger] r.chunks@[i].seq_num == file.chunks@[i].seq_num
                &&& r.chunks@[i].text == file.chunks@[i].text
                &&& r.chunks@[i].doc_summary@ == summary@
            },
{
    let mut out: Vec<HypeChunk> = Vec::new();
    let mut i: usize = 0;
    while i < file.chunks.len()
        invariant
            i <= file.chunks@.len(),
            out@.len() == i,
            forall|k: int|
                0 <= k < i ==> {
                    &&& #[trigger] out@[k].seq_num == file.chunks@[k].seq_num
                    &&& out@[k].text == file.chunks@[k].text
                    &&& out@[k].doc_summary@ == summary@
                },
        decreases file.chunks.len() - i,
    {
        let c = &file.chunks[i];
        out.push(HypeChunk { seq_num: c.seq_num, text: c.text.clone(), doc_summary: String::from_str(summary) });
        i = i + 1;
    }
    ChunkedFile { file: file.file, chunks: out }
}

/// The texts to embed, one per chunk, in order.
pub fn embedding_inputs(file: &ChunkedFile<HypeChunk>) -> (r: Vec<String>)
    ensures
        r@.len() == file.chunks@.len(),
        forall|i: int| 0 <= i < r@.len() ==> #[trigger] r@[i] == file.chunks@[i].text,
{
    let mut out: Vec<String> = Vec::new();
    let mut i: usize = 0;
    while i < file.chunks.len()
        invariant
            i <= file.chunks@.len(),
            out@.len() == i,
            forall|k: int| 0 <= k < i ==> #[trigger] out@[k] == file.chunks@[k].text,
        decreases file.chunks.len() - i,
    {
        out.push(file.chunks[i].text.clone());
        i = i + 1;
    }
    out
}

/// The payloads stored with the chunks' embeddings: the parent document's id,
/// the chunk's number, its text and the document's summary.
pub fn upload_payloads(file: &ChunkedFile<HypeChunk>) -> (r: Vec<UploadPayload>)
    ensures
        r@.len() == file.chunks@.len(),
        forall|i: int|
            0 <= i < r@.len() ==> {
                &&& #[trigger] r@[i].parent_doc_id == file.file.internal_id
                &&& r@[i].seq_num == file.chunks@[i].seq_num
                &&& r@[i].content == file.chunks@[i].text
                &&& r@[i].doc_summary == file.chunks@[i].doc_summary
            },
{
    let mut out: Vec<UploadPayload> = Vec::new();
    let mut i: usize = 0;
    while i < file.chunks.len()
        invariant
            i <= file.chunks@.len(),
            out@.len() == i,
            forall|k: int|
                0 <= k < i ==> {
                    &&& #[trigger] out@[k].parent_doc_id == file.file.internal_id
                    &&& out@[k].seq_num == file.chunks@[k].seq_num
                    &&& out@[k].content == file.chunks@[k].text
                    &&& out@[k].doc_summary == file.chunks@[k].doc_summary
                },
        decreases file.chunks.len() - i,
    {
        let c = &file.chunks[i];
        out.push(
            UploadPayload {
                parent_doc_id: file.file.internal_id.clone(),
                seq_num: c.seq_num,
                content: c.text.clone(),
                doc_summary: c.doc_summary.clone(),
            },
        );
        i = i + 1;
    }
    out
}

/// All outcomes, or the first failure: a document is uploaded whole or not at all.
pub fn all_or_nothing<T, E>(results: Vec<Result<T, E>>) -> (r: Result<Vec<T>, E>)
    ensures
        (forall|i: int| 0 <= i < results@.len() ==> results@[i] is Ok) ==> r is Ok && r->Ok_0@.len()
            == results@.len() && forall|i: int|
            0 <= i < results@.len() ==> #[trigger] r->Ok_0@[i] == results@[i]->Ok_0,
        (exists|i: int| 0 <= i < results@.len() && results@[i] is Err) ==> exists|i: int|
            0 <= i < results@.len() && results@[i] is Err && (forall|j: int|
                0 <= j < i ==> results@[j] is Ok) && r == Err::<Vec<T>, E>(results@[i]->Err_0),
{
    let ghost orig = results@;
    let n = results.len();
    let mut rest = results;
    let mut out: Vec<T> = Vec::new();
    let mut i: usize = 0;
    assert(orig.skip(0) =~= orig);
    while i < n
        invariant
            i <= n == orig.len(),
            rest@ == orig.skip(i as int),
            orig == results@,
            out@.len() == i,
            forall|k: int| 0 <= k < i ==> (#[trigger] orig[k]) is Ok,
            forall|k: int| 0 <= k < i ==> #[trigger] out@[k] == orig[k]->Ok_0,
        decreases n - i,
    {
        let item = rest.remove(0);
        assert(item == orig[i as int]);
        assert(rest@ =~= orig.skip(i + 1));
        match item {
            Ok(v) => {
                out.push(v);
            },
            Err(e) => {
                let r = Err(e);
                proof {
                    assert(orig[i as int] is Err);
                    assert(orig[i as int]->Err_0 == e);
                    assert(forall|j: int| 0 <= j < i ==> orig[j] is Ok);
                    assert(r == Err::<Vec<T>, E>(orig[i as int]->Err_0));
                }
                return r;
            },
        }
        i = i + 1;
    }
    assert(forall|k: int| 0 <= k < n ==> orig[k] is Ok);
    Ok(out)
}

/// Whether all embeddings of a document have one dimension; embeddings of
/// different dimensions cannot share an index.
pub fn same_dimension(dims: &Vec<usize>) -> (r: bool)
    ensures
        r == forall|i: int, j: int| 0 <= i < dims@.len() && 0 <= j < dims@.len() ==> dims@[i] == dims@[j],
{
    let mut i: usize = 1;
    while i < dims.len()
        invariant
            1 <= i,
            forall|k: int| 0 <= k < i && k < dims@.len() ==> #[trigger] dims@[k] == dims@[0],
        decreases dims.len() - i,
    {
        if dims[i] != dims[0] {
            assert(!(forall|a: int, b: int|
                0 <= a < dims@.len() && 0 <= b < dims@.len() ==> dims@[a] == dims@[b])) by {
                assert(dims@[i as int] != dims@[0]);
            }
            return false;
        }
        i = i + 1;
    }
    assert forall|a: int, b: int| 0 <= a < dims@.len() && 0 <= b < dims@.len() implies dims@[a]
        == dims@[b] by {
        assert(dims@[a] == dims@[0] && dims@[b] == dims@[0]);
    }
    true
}

/// The request that asks the model for a document's summary.
pub const SUMMARY_INSTRUCTIONS: &'static str = "Summarize the following document in a few sentences.";

/// The prompt asking for a summary of `content`: the instructions, then the text.
pub fn summary_prompt(content: &str) -> (r: String)
    ensures
        r@ == SUMMARY_INSTRUCTIONS@ + "\n"@ + content@,
{
    let mut r = String::from_str(SUMMARY_INSTRUCTIONS);
    r.append("\n");
    r.append(content);
    r
}

} // verus!
