use woodstock::models::{Chunk, ChunkedFile, LoadedFile, RagProcessableFileType};
use woodstock::pipeline::{
    all_or_nothing, attach_summary, embedding_inputs, next_search_step, start_search,
    upload_payloads, SearchAction, SearchError, SearchEvent, SearchStage,
};

struct FakeGenerator {
    calls: usize,
}

impl FakeGenerator {
    fn generate(&mut self) -> bool {
        self.calls += 1;
        true
    }
}

fn run_search(embedding_ok: bool, store_ok: bool, generator: &mut FakeGenerator) -> Result<(), SearchError> {
    let mut stage = start_search();
    let mut event = if embedding_ok { SearchEvent::QueryEmbedded } else { SearchEvent::EmbeddingFailed };
    loop {
        let (next, action) = next_search_step(stage, event);
        stage = next;
        match action {
            SearchAction::SearchStore => {
                event = if store_ok { SearchEvent::ResultsFound } else { SearchEvent::StoreFailed };
            }
            SearchAction::Generate => {
                event = if generator.generate() { SearchEvent::StreamOpened } else { SearchEvent::GenerationFailed };
            }
            SearchAction::Deliver => return Ok(()),
            SearchAction::Abort(e) => return Err(e),
            SearchAction::Wait => panic!("unexpected event"),
        }
    }
}

#[test]
fn failed_query_embedding_never_reaches_generation() {
    let mut generator = FakeGenerator { calls: 0 };
    assert_eq!(run_search(false, true, &mut generator), Err(SearchError::Embedding));
    assert_eq!(generator.calls, 0);
}

#[test]
fn failed_store_search_never_reaches_generation() {
    let mut generator = FakeGenerator { calls: 0 };
    assert_eq!(run_search(true, false, &mut generator), Err(SearchError::Store));
    assert_eq!(generator.calls, 0);
}

#[test]
fn successful_search_generates_once() {
    let mut generator = FakeGenerator { calls: 0 };
    assert_eq!(run_search(true, true, &mut generator), Ok(()));
    assert_eq!(generator.calls, 1);
}

#[test]
fn search_steps_follow_the_table() {
    assert_eq!(
        next_search_step(SearchStage::Generating, SearchEvent::GenerationFailed),
        (SearchStage::Failed, SearchAction::Abort(SearchError::Generation))
    );
    assert_eq!(
        next_search_step(SearchStage::Failed, SearchEvent::ResultsFound),
        (SearchStage::Failed, SearchAction::Wait)
    );
    assert_eq!(SearchError::Embedding.message(), "Failed embedding the query");
}

#[test]
fn all_or_nothing_returns_first_failure() {
    let rs: Vec<Result<u32, &str>> = vec![Ok(1), Err("a"), Ok(3), Err("b")];
    assert_eq!(all_or_nothing(rs), Err("a"));
    let ok: Vec<Result<u32, &str>> = vec![Ok(1), Ok(2)];
    assert_eq!(all_or_nothing(ok), Ok(vec![1, 2]));
}

fn chunked() -> ChunkedFile<Chunk> {
    ChunkedFile {
        file: LoadedFile {
            file_type: RagProcessableFileType::Markdown,
            content: "One. Two.".to_string(),
            internal_id: "7_page.md".to_string(),
            tags: None,
            original_file_description: None,
            syntetic_file_description: None,
        },
        chunks: vec![
            Chunk { seq_num: 0, text: "One.".to_string() },
            Chunk { seq_num: 1, text: "Two.".to_string() },
        ],
    }
}

#[test]
fn summary_is_attached_to_every_chunk() {
    let h = attach_summary(chunked(), "about numbers");
    assert_eq!(h.chunks.len(), 2);
    assert_eq!(h.chunks[1].seq_num, 1);
    assert_eq!(h.chunks[1].text, "Two.");
    assert!(h.chunks.iter().all(|c| c.doc_summary == "about numbers"));
    let inputs = embedding_inputs(&h);
    assert_eq!(inputs, vec!["One.", "Two."]);
    let p = upload_payloads(&h);
    assert_eq!(p[0].parent_doc_id, "7_page.md");
    assert_eq!(p[1].seq_num, 1);
    assert_eq!(p[1].content, "Two.");
    assert_eq!(p[0].doc_summary, "about numbers");
}

#[test]
fn embeddings_must_share_a_dimension() {
    assert!(woodstock::pipeline::same_dimension(&vec![1024, 1024, 1024]));
    assert!(!woodstock::pipeline::same_dimension(&vec![1024, 768]));
    assert!(woodstock::pipeline::same_dimension(&vec![]));
}

#[test]
fn summary_prompt_puts_instructions_first() {
    assert_eq!(
        woodstock::pipeline::summary_prompt("Text."),
        "Summarize the following document in a few sentences.\nText."
    );
}
