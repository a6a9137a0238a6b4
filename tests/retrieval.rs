use serde_json::Value;
use woodstock::links::to_link;
use woodstock::question::{
    compose_question, construct_prompt, StructuredQuestion, ANSWER_INSTRUCTIONS,
};
use woodstock::retrieval::{dedup, render_prompt_chunk, ResultChunk};

fn result(id: &str, content: &str) -> ResultChunk {
    ResultChunk::from_fields(
        Some(id.to_string()),
        Some("doc".to_string()),
        Some(1),
        Some(content.to_string()),
        None,
        Some("summary".to_string()),
        0.5f32.to_bits(),
    )
}

#[test]
fn identical_content_collapses_to_one() {
    let out = dedup(vec![result("a", "same text"), result("b", "same text")]);
    assert_eq!(out.len(), 1);
    assert_eq!(out[0].id, "a");
}

#[test]
fn dedup_keeps_first_of_each_content_in_order() {
    let input = vec![
        result("1", "x"),
        result("2", "y"),
        result("3", "x"),
        result("4", "z"),
        result("5", "y"),
    ];
    let out = dedup(input);
    let ids: Vec<&str> = out.iter().map(|r| r.id.as_str()).collect();
    assert_eq!(ids, vec!["1", "2", "4"]);
    let contents: Vec<&str> = out.iter().map(|r| r.content.as_str()).collect();
    assert_eq!(contents, vec!["x", "y", "z"]);
}

#[test]
fn dedup_of_nothing_is_nothing() {
    assert!(dedup(vec![]).is_empty());
}

#[test]
fn missing_fields_get_defaults() {
    let r = ResultChunk::from_fields(None, None, None, None, None, None, 7);
    assert_eq!(r.id, "Unknown");
    assert_eq!(r.doc_id, "Unknown");
    assert_eq!(r.doc_seq_num, -1);
    assert_eq!(r.content, "");
    assert_eq!(r.doc_summary, "");
    assert_eq!(r.additional_data, Value::Null);
    assert_eq!(r.score_bits, 7);
}

#[test]
fn present_fields_are_kept() {
    let r = ResultChunk::from_fields(
        Some("id".into()),
        Some("d".into()),
        Some(12),
        Some("c".into()),
        Some(Value::Bool(true)),
        Some("s".into()),
        1,
    );
    assert_eq!(r.doc_seq_num, 12);
    assert_eq!(r.content, "c");
    assert_eq!(r.additional_data, Value::Bool(true));
}

#[test]
fn prompt_block_without_link() {
    let r = result("1", "body");
    assert_eq!(
        r.to_prompt_chunk(),
        "CHUNK:\n\tPARENT DOCUMENT DESCRIPTION:\nsummary\n\n\n\tCHUNK CONTENTS: body"
    );
}

#[test]
fn prompt_block_with_link_from_second_item() {
    let mut r = result("1", "body");
    r.additional_data = Value::Array(vec![
        Value::String("auto".into()),
        Value::String("https://x.org/a".into()),
    ]);
    assert_eq!(
        r.to_prompt_chunk(),
        "CHUNK:\n\tPARENT DOCUMENT DESCRIPTION:\nsummary\n\tPARENT DOCUMENT ADDITIONAL DATA: \"https://x.org/a\"\n\n\tCHUNK CONTENTS: body"
    );
    r.additional_data = Value::Array(vec![Value::String("only".into())]);
    assert!(!r.to_prompt_chunk().contains("ADDITIONAL DATA"));
}

#[test]
fn render_prompt_chunk_lays_out_the_block() {
    assert_eq!(
        render_prompt_chunk("S", Some("L"), "C"),
        "CHUNK:\n\tPARENT DOCUMENT DESCRIPTION:\nS\n\tPARENT DOCUMENT ADDITIONAL DATA: L\n\n\tCHUNK CONTENTS: C"
    );
}

#[test]
fn links_are_recovered_from_file_names() {
    assert_eq!(
        to_link("https:_www.famnit.upr.si_en_about.md".to_string()),
        "https://www.famnit.upr.si/en/about"
    );
    assert_eq!(to_link("https:_a_b.md_translated".to_string()), "https://a/b/translated");
    assert_eq!(to_link("https:_a.md_translated".to_string()), "https://a/translated");
    assert_eq!(to_link("https:_a.md".to_string()), "https://a");
    assert_eq!(to_link("report.pdf".to_string()), "None");
    assert_eq!(to_link("http:_a".to_string()), "None");
}

#[test]
fn question_text_holds_context_then_question() {
    let q = compose_question("Where?", &vec!["B1".to_string(), "B2".to_string()]);
    assert_eq!(q.question, "B1\nB2\nQuestion:\nWhere?\n");
    assert_eq!(q.system_prompt, ANSWER_INSTRUCTIONS);
    assert_eq!(q.model, "phi4");
    assert_eq!(
        q.prompt_text(),
        format!("{}\nB1\nB2\nQuestion:\nWhere?\n\n", ANSWER_INSTRUCTIONS)
    );
}

#[test]
fn constructed_prompt_renders_each_result() {
    let chunks = vec![result("1", "first"), result("2", "second")];
    let q = construct_prompt("What?", &chunks);
    let expected = format!(
        "{}\n{}\nQuestion:\nWhat?\n",
        chunks[0].to_prompt_chunk(),
        chunks[1].to_prompt_chunk()
    );
    assert_eq!(q.question, expected);
}

#[test]
fn question_setters_replace_one_field() {
    let q = StructuredQuestion::from_question("q".to_string())
        .set_model("m")
        .set_context(vec!["c1".to_string(), "c2".to_string()])
        .set_system_prompt("sys")
        .set_question("q2");
    assert_eq!(q.prompt_text(), "sys\nq2\nc1\nc2");
}
