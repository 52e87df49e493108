use photosort::category::CategoryKey;
use photosort::ollama::{
    apply_stream_line, check_model_name, classify_remote_failure, detect_format_problem,
    detect_think_unsupported, envelope_content, extract_doc, extract_first_json_object,
    model_out_from_doc, next_attempt, parse_model_out, parse_score_micro, sanitize_korean_only,
    strip_code_fences, NegotiationState, RawDoc, RemoteError, ReqFormat, StreamSplitter,
};
use photosort::scores::SCORE_SCALE;

#[test]
fn fences_are_stripped() {
    assert_eq!(strip_code_fences("```json\n{\"a\":1}\n```"), "{\"a\":1}");
    assert_eq!(strip_code_fences("```JSON {\"a\":1} ```"), "{\"a\":1}");
    assert_eq!(strip_code_fences("``` {\"a\":1} ```"), "{\"a\":1}");
    assert_eq!(strip_code_fences("  plain  "), "plain");
}

#[test]
fn first_object_is_balanced() {
    assert_eq!(extract_first_json_object("xx {\"a\":{\"b\":2}} yy {\"c\":3}").unwrap(), "{\"a\":{\"b\":2}}");
    assert_eq!(extract_first_json_object("} not open { \"a\": 1 }").unwrap(), "{ \"a\": 1 }");
    assert!(extract_first_json_object("no braces here").is_none());
    assert!(extract_first_json_object("{ never closed").is_none());
}

#[test]
fn sanitize_keeps_hangul_digits_punctuation() {
    assert_eq!(sanitize_korean_only("사진 123!"), "사진 123!");
    assert_eq!(sanitize_korean_only("hello 세계"), "세계");
    assert_eq!(sanitize_korean_only("漢字만"), "만");
    assert_eq!(sanitize_korean_only("   "), "");
}

#[test]
fn score_text_parses_to_millionths() {
    assert_eq!(parse_score_micro("0.25"), Some(250000));
    assert_eq!(parse_score_micro("1"), Some(SCORE_SCALE));
    assert_eq!(parse_score_micro("0"), Some(0));
    assert_eq!(parse_score_micro("0.1234567"), Some(123456));
    assert_eq!(parse_score_micro("2.5"), Some(2500000));
    assert_eq!(parse_score_micro("-0.3"), Some(0));
    assert_eq!(parse_score_micro("abc"), None);
    assert_eq!(parse_score_micro("1.2.3"), None);
    assert_eq!(parse_score_micro(""), None);
    assert_eq!(parse_score_micro("\"0.5\""), None);
}

#[test]
fn full_answer_parses_through_json() {
    let body = "{\"category\":\"people\",\"scores\":{\"screenshot_document\":0.0,\"people\":0.5,\"food_cafe\":0.5,\"nature_landscape\":0,\"city_street_travel\":0,\"pets_animals\":0,\"products_objects\":0,\"other\":0},\"tags_ko\":[\"사람\",\"friends\"],\"caption_ko\":\"두 사람\",\"text_in_image_ko\":\"\"}";
    let m = parse_model_out(body).unwrap();
    assert_eq!(m.category, CategoryKey::People);
    assert_eq!(m.scores.people, SCORE_SCALE / 2);
    assert_eq!(m.scores.food_cafe, SCORE_SCALE / 2);
    assert_eq!(m.tags_ko, vec!["사람".to_string()]);
    assert_eq!(m.caption_ko, "두 사람");
    assert_eq!(m.text_in_image_ko, "");
}

#[test]
fn fenced_answer_still_parses() {
    let body = "```json\n{\"category\":\"other\",\"scores\":{\"other\":1.0}}\n```";
    let m = parse_model_out(body).unwrap();
    assert_eq!(m.category, CategoryKey::Other);
    assert_eq!(m.scores.other, SCORE_SCALE);
}

#[test]
fn category_only_answer_becomes_one_hot() {
    let doc = RawDoc {
        category: Some("pets_animals".to_string()),
        scores: None,
        tags: None,
        caption: None,
        text_in_image: None,
    };
    let m = model_out_from_doc(&doc).unwrap();
    assert_eq!(m.category, CategoryKey::PetsAnimals);
    assert_eq!(m.scores.pets_animals, SCORE_SCALE);
    assert_eq!(m.scores.people, 0);
    assert_eq!(m.tags_ko, vec!["기타".to_string()]);
    assert_eq!(m.caption_ko, "설명 없음");
}

#[test]
fn answer_without_scores_or_category_is_rejected() {
    let doc = RawDoc { category: None, scores: None, tags: None, caption: None, text_in_image: None };
    assert_eq!(model_out_from_doc(&doc).err(), Some(RemoteError::ScoresMissing));
}

#[test]
fn unparseable_answer_is_rejected() {
    assert_eq!(parse_model_out("complete nonsense").err(), Some(RemoteError::ParseFailed));
}

#[test]
fn missing_category_takes_top_score() {
    let body = "{\"scores\":{\"food_cafe\":0.9,\"other\":0.1}}";
    let m = parse_model_out(body).unwrap();
    assert_eq!(m.category, CategoryKey::FoodCafe);
}

#[test]
fn format_problems_are_detected_in_any_case() {
    assert!(detect_format_problem("Unknown Field 'format'"));
    assert!(detect_format_problem("JSON SCHEMA not supported"));
    assert!(!detect_format_problem("internal server oops"));
}

#[test]
fn think_rejection_is_detected() {
    assert!(detect_think_unsupported("unknown field \"think\""));
    assert!(!detect_think_unsupported("unknown field \"other\""));
    assert!(!detect_think_unsupported("think harder"));
}

#[test]
fn format_ladder_walks_schema_json_none() {
    let st = NegotiationState { format: ReqFormat::JsonSchema, think_stripped: false };
    let n1 = next_attempt(st, "schema unsupported").unwrap();
    assert_eq!(n1.format, ReqFormat::JsonMode);
    let n2 = next_attempt(n1, "still failing").unwrap();
    assert_eq!(n2.format, ReqFormat::NoFormat);
}

#[test]
fn think_rejection_retries_once_without_the_field() {
    let st = NegotiationState { format: ReqFormat::NoFormat, think_stripped: false };
    let body = "error: unknown field \"think\"";
    let retry = next_attempt(st, body).unwrap();
    assert_eq!(retry, NegotiationState { format: ReqFormat::JsonSchema, think_stripped: true });
    // The stripped ladder runs once more and then gives up for good.
    let n1 = next_attempt(retry, body).unwrap();
    assert_eq!(n1.format, ReqFormat::JsonMode);
    assert!(n1.think_stripped);
    let n2 = next_attempt(n1, body).unwrap();
    assert_eq!(n2.format, ReqFormat::NoFormat);
    assert!(n2.think_stripped);
    assert!(next_attempt(n2, body).is_none());
}

#[test]
fn plain_failure_gives_up_without_retry() {
    let st = NegotiationState { format: ReqFormat::JsonSchema, think_stripped: false };
    assert!(next_attempt(st, "boring internal crash").is_none());
}

#[test]
fn final_failures_are_classified() {
    assert_eq!(classify_remote_failure(404, "Model not found"), RemoteError::ModelNotFound);
    assert_eq!(
        classify_remote_failure(400, "this model does not support images"),
        RemoteError::ImagesUnsupported
    );
    assert_eq!(classify_remote_failure(500, "boom"), RemoteError::Other);
}

#[test]
fn blank_model_name_is_rejected() {
    assert_eq!(check_model_name("  "), Err(RemoteError::EmptyModelName));
    assert!(check_model_name("qwen2.5vl:7b").is_ok());
}

#[test]
fn stream_chunks_reassemble_lines() {
    let mut sp = StreamSplitter::new();
    let l1 = sp.push_chunk("{\"a\":1}\n{\"b\"");
    assert_eq!(l1, vec!["{\"a\":1}".to_string()]);
    let l2 = sp.push_chunk(":2}\n\n{\"c\":3}");
    assert_eq!(l2, vec!["{\"b\":2}".to_string(), "".to_string()]);
    let l3 = sp.push_chunk("\n");
    assert_eq!(l3, vec!["{\"c\":3}".to_string()]);
}

#[test]
fn stream_lines_accumulate_deltas_until_done() {
    let mut acc = String::new();
    let (d1, done1) = apply_stream_line(&mut acc, "{\"message\":{\"content\":\"{\\\"cat\"},\"done\":false}");
    assert_eq!(d1, Some("{\"cat".to_string()));
    assert!(!done1);
    let (d2, done2) = apply_stream_line(&mut acc, "  ");
    assert!(d2.is_none());
    assert!(!done2);
    let (d3, done3) = apply_stream_line(&mut acc, "{\"message\":{\"content\":\"egory\\\"\"},\"done\":true}");
    assert_eq!(d3, Some("egory\"".to_string()));
    assert!(done3);
    assert_eq!(acc, "{\"category\"");
}

#[test]
fn extract_doc_reads_fields_through_json() {
    let doc = extract_doc("{\"category\":\"food_cafe\",\"scores\":{\"food_cafe\":0.75},\"tags_ko\":[\"카페\",7],\"caption_ko\":\"커피\"}").unwrap();
    assert_eq!(doc.category, Some("food_cafe".to_string()));
    assert_eq!(doc.scores, Some(vec![("food_cafe".to_string(), "0.75".to_string())]));
    assert_eq!(doc.tags, Some(vec!["카페".to_string()]));
    assert_eq!(doc.caption, Some("커피".to_string()));
    assert_eq!(doc.text_in_image, None);
}

#[test]
fn envelope_content_reads_the_answer_text() {
    let body = "{\"message\":{\"content\":\"{\\\"category\\\":\\\"other\\\"}\"},\"done\":true}";
    assert_eq!(envelope_content(body), Some("{\"category\":\"other\"}".to_string()));
    assert_eq!(envelope_content("not json"), None);
    assert_eq!(envelope_content("{\"message\":{}}"), None);
}

#[test]
fn stream_line_reports_done_without_a_delta() {
    let mut acc = String::new();
    let (delta, done) = apply_stream_line(&mut acc, "{\"done\":true}");
    assert!(delta.is_none());
    assert!(done);
    assert_eq!(acc, "");
}
