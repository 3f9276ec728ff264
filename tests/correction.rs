use bbdc_word_tool::llm_corrector::{
    candidates_from_decoded, correction_from_decoded, json_payload, parse_candidates_response,
    parse_correction_response, CandidatesResult, CorrectionResult,
};

#[test]
fn fenced_json_reply_decodes() {
    let reply = "```json\n{\"corrected\":\"receive\",\"confidence\":\"high\",\"reason\":\"fixed i/e order\"}\n```";
    let r = parse_correction_response("recieve", reply);
    assert!(r.success);
    assert_eq!(r.original, "recieve");
    assert_eq!(r.corrected, "receive");
    assert_eq!(r.confidence, "high");
    assert_eq!(r.reason, "fixed i/e order");
}

#[test]
fn plain_json_reply_decodes() {
    let reply = "  {\"corrected\": \"apple\", \"confidence\": \"medium\", \"reason\": \"ok\"}  ";
    let r = parse_correction_response("aple", reply);
    assert!(r.success);
    assert_eq!(r.corrected, "apple");
    assert_eq!(r.confidence, "medium");
}

#[test]
fn untagged_fence_reply_decodes() {
    let reply = "Here:\n```\n{\"corrected\":\"tree\",\"confidence\":\"low\",\"reason\":\"r\"}\n```\nbye";
    let r = parse_correction_response("tre", reply);
    assert!(r.success);
    assert_eq!(r.corrected, "tree");
    assert_eq!(r.confidence, "low");
}

#[test]
fn reply_without_json_falls_back_to_first_word() {
    let r = parse_correction_response("strcture", "no valid structure here");
    assert!(r.success);
    assert_eq!(r.corrected, "no");
    assert_eq!(r.confidence, "low");
    assert_eq!(r.original, "strcture");
    assert_eq!(r.reason, "从响应中提取的单词");
}

#[test]
fn fallback_strips_non_alphabetic_ends() {
    let r = parse_correction_response("x", "\"Receive,\" is right");
    assert!(r.success);
    assert_eq!(r.corrected, "Receive");
    assert_eq!(r.confidence, "low");
}

#[test]
fn blank_reply_fails() {
    for reply in ["", "   ", "\n\t  \n"] {
        let r = parse_correction_response("wrod", reply);
        assert!(!r.success);
        assert_eq!(r.confidence, "none");
        assert_eq!(r.corrected, "wrod");
        assert_eq!(r.original, "wrod");
    }
}

#[test]
fn reply_without_letters_fails() {
    let r = parse_correction_response("wrod", "1234 5678");
    assert!(!r.success);
    assert_eq!(r.confidence, "none");
    assert_eq!(r.corrected, "wrod");
}

#[test]
fn incomplete_json_falls_back() {
    let r = parse_correction_response("x", "{\"corrected\": \"word\"}");
    assert!(r.success);
    assert_eq!(r.confidence, "low");
    assert_eq!(r.corrected, "corrected");
}

#[test]
fn payload_extraction() {
    assert_eq!(json_payload("  ```json\n {\"a\":1} \n```  "), "{\"a\":1}");
    assert_eq!(json_payload("x ``` y ``` z"), "y");
    assert_eq!(json_payload("pre ```json {\"b\":2}"), "{\"b\":2}");
    assert_eq!(json_payload("  plain  "), "plain");
}

#[test]
fn decoded_fields_are_taken_verbatim() {
    let decoded = Some(("a".to_string(), "medium".to_string(), "c".to_string()));
    let r = correction_from_decoded("orig", "whatever", decoded);
    assert!(r.success);
    assert_eq!((r.corrected.as_str(), r.confidence.as_str(), r.reason.as_str()), ("a", "medium", "c"));
    let unknown = Some(("a".to_string(), "b".to_string(), "c".to_string()));
    let u = correction_from_decoded("orig", "  maybe: apple ", unknown);
    assert!(u.success);
    assert_eq!(u.corrected, "maybe");
    assert_eq!(u.confidence, "low");
    let blank = correction_from_decoded("orig", "   ", Some(("a".to_string(), "none".to_string(), "c".to_string())));
    assert!(!blank.success);
    assert_eq!(blank.confidence, "none");
    assert_eq!(blank.corrected, "orig");
    let g = correction_from_decoded("orig", "  guess!  more", None);
    assert_eq!(g.corrected, "guess");
    assert_eq!(g.confidence, "low");
}

#[test]
fn candidates_reply_decodes() {
    let reply = "```json\n{\"candidates\": [{\"word\": \"system\", \"reason\": \"root\"}, {\"word\": \"finance\", \"reason\": \"spelling\"}]}\n```";
    let r = parse_candidates_response("supersystem", reply);
    assert!(r.success);
    assert_eq!(r.original, "supersystem");
    assert_eq!(r.reason, "success");
    assert_eq!(r.candidates.len(), 2);
    assert_eq!(r.candidates[0].word, "system");
    assert_eq!(r.candidates[0].reason, "root");
    assert_eq!(r.candidates[1].word, "finance");
    assert!(!r.candidates[0].verified && !r.candidates[1].verified);
}

#[test]
fn malformed_candidates_reply_fails() {
    let r = parse_candidates_response("word", "{\"candidates\": [ {\"word\": ");
    assert!(!r.success);
    assert!(r.candidates.is_empty());
    assert!(!r.reason.is_empty());
    assert!(r.reason.starts_with("解析响应失败: "));
    assert!(r.reason.len() > "解析响应失败: ".len());
    let plain = parse_candidates_response("word", "sorry, I cannot help");
    assert!(!plain.success);
    assert!(plain.candidates.is_empty());
}

#[test]
fn reply_with_unknown_confidence_falls_back() {
    let r = parse_correction_response("x", "{\"corrected\":\"x\",\"confidence\":\"none\",\"reason\":\"y\"}");
    assert!(r.success);
    assert_eq!(r.confidence, "low");
    assert_eq!(r.corrected, "corrected\":\"x\",\"confidence\":\"none\",\"reason\":\"y");
    let s = parse_correction_response("x", "```json\n{\"corrected\":\"y\",\"confidence\":\"certain\",\"reason\":\"z\"}\n```");
    assert_eq!(s.confidence, "low");
    assert_ne!(s.corrected, "y");
}

#[test]
fn blank_candidates_reply_fails() {
    let r = parse_candidates_response("word", "  \n ");
    assert!(!r.success);
    assert!(r.candidates.is_empty());
    assert!(r.reason.len() > "解析响应失败: ".len());
}

#[test]
fn candidates_missing_fields_fail() {
    let r = parse_candidates_response("word", "{\"other\": 1}");
    assert!(!r.success);
    assert!(r.candidates.is_empty());
    let e = parse_candidates_response("word", "{\"candidates\": [{\"word\": \"a\"}]}");
    assert!(!e.success);
    assert!(e.reason.len() > "解析响应失败: ".len());
}

#[test]
fn candidates_from_decoding_error() {
    let r = candidates_from_decoded("w", Err("boom".to_string()));
    assert!(!r.success);
    assert_eq!(r.reason, "解析响应失败: boom");
    let ok = candidates_from_decoded("w", Ok(vec![("a".to_string(), "b".to_string())]));
    assert!(ok.success);
    assert_eq!(ok.candidates[0].word, "a");
    assert!(!ok.candidates[0].verified);
}

#[test]
fn disabled_results() {
    let c = CorrectionResult::disabled("teh");
    assert!(!c.success);
    assert_eq!(c.corrected, "teh");
    assert_eq!(c.confidence, "none");
    assert_eq!(c.reason, "feature disabled");
    let d = CandidatesResult::disabled("teh");
    assert!(!d.success);
    assert!(d.candidates.is_empty());
    assert_eq!(d.reason, "feature disabled");
}
