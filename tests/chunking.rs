use woodstock::chunking::{
    chunk, count_words_in_sentence, hierarchical_chunking, split_into_paragraphs,
    split_into_sentences, ChunkConfigError, ChunkingStrategy,
};
use woodstock::loading::PdfFileLoader;
use woodstock::models::{Chunk, LoadedFile, RagProcessableFileType};

fn doc(content: &str) -> LoadedFile {
    LoadedFile {
        file_type: RagProcessableFileType::Text,
        content: content.to_string(),
        internal_id: "doc-1".to_string(),
        tags: Some(vec!["auto".to_string()]),
        original_file_description: None,
        syntetic_file_description: None,
    }
}

fn texts(chunks: &[Chunk]) -> Vec<String> {
    chunks.iter().map(|c| c.text.clone()).collect()
}

#[test]
fn four_short_sentences_overlap_by_one() {
    let r = hierarchical_chunking(doc("One. Two. Three. Four."), &2, &1).unwrap();
    assert_eq!(texts(&r.chunks), vec!["One. Two.", "Two. Three.", "Three. Four."]);
    let nums: Vec<usize> = r.chunks.iter().map(|c| c.seq_num).collect();
    assert_eq!(nums, vec![0, 1, 2]);
    assert_eq!(r.file.internal_id, "doc-1");
}

#[test]
fn empty_document_gives_no_chunks() {
    let r = hierarchical_chunking(doc(""), &250, &30).unwrap();
    assert!(r.chunks.is_empty());
    let r = hierarchical_chunking(doc("  \n\n \n\n"), &250, &30).unwrap();
    assert!(r.chunks.is_empty());
}

#[test]
fn non_positive_size_is_rejected() {
    assert_eq!(
        hierarchical_chunking(doc("One. Two."), &0, &0).unwrap_err(),
        ChunkConfigError::NonPositiveSize
    );
    assert_eq!(
        hierarchical_chunking(doc("One. Two."), &-3, &0).unwrap_err(),
        ChunkConfigError::NonPositiveSize
    );
}

#[test]
fn negative_overlap_is_rejected() {
    assert_eq!(
        hierarchical_chunking(doc("One. Two."), &2, &-1).unwrap_err(),
        ChunkConfigError::NegativeOverlap
    );
}

#[test]
fn numbering_runs_across_paragraphs() {
    let r = hierarchical_chunking(doc("One. Two.\n\nThree. Four."), &1, &0).unwrap();
    assert_eq!(texts(&r.chunks), vec!["One.", "Two.", "Three.", "Four."]);
    for (i, c) in r.chunks.iter().enumerate() {
        assert_eq!(c.seq_num, i);
    }
}

#[test]
fn long_sentence_is_taken_whole() {
    let r = hierarchical_chunking(doc("A b c d e f. G."), &2, &0).unwrap();
    assert_eq!(texts(&r.chunks), vec!["A b c d e f.", "c d e f.", "e f.", "G."]);
    for c in &r.chunks {
        let words = c.text.split_whitespace().count();
        assert!(words <= 2 + 6);
        assert!(!c.text.is_empty());
    }
}

#[test]
fn overlap_not_below_size_steps_one_word() {
    let r = hierarchical_chunking(doc("One. Two. Three."), &1, &5).unwrap();
    assert_eq!(texts(&r.chunks), vec!["One.", "Two.", "Three."]);
}

#[test]
fn chunks_cover_every_word_once_overlap_is_removed() {
    let r = hierarchical_chunking(doc("Alpha beta. Gamma delta. Epsilon."), &3, &1).unwrap();
    assert_eq!(texts(&r.chunks), vec!["Alpha beta. Gamma delta.", "Gamma delta. Epsilon."]);
    let first: Vec<&str> = r.chunks[0].text.split_whitespace().collect();
    let second: Vec<&str> = r.chunks[1].text.split_whitespace().collect();
    let overlap = 2;
    let mut all: Vec<&str> = first.clone();
    all.extend_from_slice(&second[overlap..]);
    assert_eq!(all, vec!["Alpha", "beta.", "Gamma", "delta.", "Epsilon."]);
}

#[test]
fn non_empty_input_gives_a_chunk() {
    let r = hierarchical_chunking(doc("no punctuation at all"), &100, &10).unwrap();
    assert_eq!(texts(&r.chunks), vec!["no punctuation at all."]);
}

#[test]
fn chunk_uses_the_strategy() {
    let r = chunk(doc("One. Two. Three. Four."), ChunkingStrategy::Hierarchical(2, 1)).unwrap();
    assert_eq!(r.chunks.len(), 3);
    assert_eq!(
        chunk(doc("One."), ChunkingStrategy::Hierarchical(0, 0)).unwrap_err(),
        ChunkConfigError::NonPositiveSize
    );
}

#[test]
fn paragraphs_are_split_on_blank_lines_and_trimmed() {
    assert_eq!(
        split_into_paragraphs("  First para.\n\n\n\nSecond para.  \n\n   "),
        vec!["First para.", "Second para."]
    );
    assert_eq!(split_into_paragraphs("a\nb"), vec!["a\nb"]);
    assert!(split_into_paragraphs("").is_empty());
}

#[test]
fn sentences_are_split_and_closed_with_a_period() {
    assert_eq!(
        split_into_sentences("Hello world! How are you? Fine"),
        vec!["Hello world.", "How are you.", "Fine."]
    );
    assert!(split_into_sentences(" ... ").is_empty());
}

#[test]
fn words_left_in_a_sentence_are_counted() {
    let ids = vec![0usize, 0, 1, 1, 1, 2];
    assert_eq!(count_words_in_sentence(&ids, 2, 1), 3);
    assert_eq!(count_words_in_sentence(&ids, 3, 1), 2);
    assert_eq!(count_words_in_sentence(&ids, 0, 1), 0);
    assert_eq!(count_words_in_sentence(&ids, 5, 2), 1);
    assert_eq!(count_words_in_sentence(&ids, 6, 2), 0);
}

#[test]
fn pdf_pages_are_joined_without_undecoded_markers() {
    let pages = vec![
        "Page one?Identity-H Unimplemented? text. ".to_string(),
        "?Identity-H Unimplemented?Page two.".to_string(),
    ];
    assert_eq!(PdfFileLoader::assemble_text(&pages), "Page one text. Page two.");
    let f = PdfFileLoader::load_pages(&pages, "3_a.pdf".to_string(), None, Some("d".to_string()));
    assert_eq!(f.file_type, RagProcessableFileType::Pdf);
    assert_eq!(f.content, "Page one text. Page two.");
    assert_eq!(f.internal_id, "3_a.pdf");
    assert_eq!(f.original_file_description.as_deref(), Some("d"));
    assert!(f.syntetic_file_description.is_none());
}
