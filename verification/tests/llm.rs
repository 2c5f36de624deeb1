use hibi_nuku::library::lines::SubtitleLine;
use hibi_nuku::llm::cache::hash_key;
use hibi_nuku::llm::client::{chat_messages, strip_code_fence, truncate};
use hibi_nuku::llm::translate::parse_response;
use hibi_nuku::llm::prompt::{PROMPT_VERSION, SYSTEM, user_message};
use hibi_nuku::llm::schema::LineTranslation;
use hibi_nuku::llm::translate::{BATCH_SIZE, ReplySource, chunk_plan, line_updates, reply_source, unknown_entries};

#[test]
fn strips_fence_with_lang() {
    assert_eq!(strip_code_fence("```json\n{\"a\":1}\n```"), "{\"a\":1}");
}

#[test]
fn strips_bare_fence() {
    assert_eq!(strip_code_fence("```\n{\"a\":1}\n```"), "{\"a\":1}");
}

#[test]
fn leaves_unwrapped_alone() {
    assert_eq!(strip_code_fence("{\"a\":1}"), "{\"a\":1}");
}

#[test]
fn strips_upper_case_fence_and_whitespace() {
    assert_eq!(strip_code_fence("  ```JSON\n[1]\n```  "), "[1]");
}

#[test]
fn hash_keys_are_stable_and_distinct() {
    let a = hash_key("m1", "v1", "p");
    let b = hash_key("m1", "v1", "p");
    let c = hash_key("m1", "v2", "p");
    assert_eq!(a, b);
    assert_ne!(a, c);
}

#[test]
fn hash_key_is_hex_sha256_of_joined_parts() {
    let k = hash_key("", "", "");
    assert_eq!(k, "565d240f5343e625ae579a4d45a770f1f02c6368b5ed4d06da4fbe6f47c28866");
    assert_eq!(
        hash_key("m1", "v1", "p"),
        "4dd7f2c46d1cbd38088b716ad56670924189880f917e70028ecd007626dc5ba3"
    );
    assert!(k.chars().all(|c| c.is_ascii_hexdigit() && !c.is_ascii_uppercase()));
    assert_ne!(hash_key("a", "", ""), hash_key("", "a", ""));
}

#[test]
fn truncate_cuts_on_characters_with_ellipsis() {
    assert_eq!(truncate("abcdef", 3), "abc…");
    assert_eq!(truncate("abc", 3), "abc");
    assert_eq!(truncate("日本語", 3), "日本語");
    assert_eq!(truncate("あいう", 2), "あい…");
    assert_eq!(truncate("", 0), "");
}

fn line(id: i64, idx: i64, text: &str) -> SubtitleLine {
    SubtitleLine {
        id,
        video_id: 1,
        idx,
        start_ms: 0,
        end_ms: 0,
        raw_text: text.to_string(),
        tokens_json: None,
        translation: None,
        grammar_note: None,
        tone_tags: None,
    }
}

#[test]
fn user_message_layout() {
    let a = line(1, 0, "前");
    let b = line(2, 1, "一行\n二行");
    let c = line(3, 2, "後");
    let msg = user_message(&[&a], &[&b], &[&c]);
    assert_eq!(msg, "CONTEXT (before):\n- 前\n\nTARGETS:\n[idx=1] 一行 二行\n\nCONTEXT (after):\n- 後\n");
    let only = user_message(&[], &[&b], &[]);
    assert_eq!(only, "TARGETS:\n[idx=1] 一行 二行\n");
}

#[test]
fn prompt_constants() {
    assert_eq!(PROMPT_VERSION, "2026-05-17.v1");
    assert!(SYSTEM.starts_with("You are translating Japanese"));
    let msgs = chat_messages(SYSTEM, "hi".to_string());
    assert_eq!(msgs[0].role, "system");
    assert_eq!(msgs[1].role, "user");
    assert_eq!(msgs[1].content, "hi");
}

#[test]
fn chunk_plan_batches_with_context() {
    assert!(chunk_plan(0).is_empty());
    let p = chunk_plan(120);
    assert_eq!(p.len(), 3);
    assert_eq!((p[0].before, p[0].start, p[0].end, p[0].after), (0, 0, 50, 52));
    assert_eq!((p[1].before, p[1].start, p[1].end, p[1].after), (48, 50, 100, 102));
    assert_eq!((p[2].before, p[2].start, p[2].end, p[2].after), (98, 100, 120, 120));
    assert_eq!(BATCH_SIZE, 50);
}

#[test]
fn every_line_is_targeted_once() {
    for n in [1usize, 49, 50, 51, 101] {
        let p = chunk_plan(n);
        let mut next = 0;
        for c in &p {
            assert_eq!(c.start, next);
            assert!(c.end > c.start && c.end - c.start <= 50);
            next = c.end;
        }
        assert_eq!(next, n);
    }
}

#[test]
fn updates_follow_returned_idx() {
    let a = line(10, 5, "a");
    let b = line(11, 6, "b");
    let entries = vec![
        LineTranslation { idx: 6, english: "B".into(), grammar_note: String::new(), tone_tags: vec![] },
        LineTranslation { idx: 99, english: "?".into(), grammar_note: String::new(), tone_tags: vec![] },
        LineTranslation { idx: 5, english: "A".into(), grammar_note: String::new(), tone_tags: vec![] },
    ];
    let ups = line_updates(&[&a, &b], &entries);
    assert_eq!(ups.len(), 2);
    assert_eq!((ups[0].line_id, ups[0].entry), (11, 0));
    assert_eq!((ups[1].line_id, ups[1].entry), (10, 2));
}

#[test]
fn parses_wrapped_response() {
    let json = r#"{"lines":[{"idx":3,"english":"hi","grammar_note":"","tone_tags":[]}]}"#;
    let b = parse_response(json).unwrap();
    assert_eq!(b.lines.len(), 1);
    assert_eq!(b.lines[0].idx, 3);
}

#[test]
fn parses_bare_array() {
    let json = r#"[{"idx":1,"english":"x","grammar_note":"","tone_tags":["polite"]}]"#;
    let b = parse_response(json).unwrap();
    assert_eq!(b.lines[0].tone_tags, vec!["polite".to_string()]);
}

#[test]
fn missing_note_and_tags_default_to_empty() {
    let b = parse_response(r#"{"lines":[{"idx":7,"english":"yes","extra":true}]}"#).unwrap();
    assert_eq!(b.lines[0].idx, 7);
    assert_eq!(b.lines[0].english, "yes");
    assert_eq!(b.lines[0].grammar_note, "");
    assert!(b.lines[0].tone_tags.is_empty());
}

#[test]
fn entry_as_field_array_reads_in_order() {
    let b = parse_response(r#"[[2,"two","note",["casual"]],[4,"four"]]"#).unwrap();
    assert_eq!(b.lines.len(), 2);
    assert_eq!(b.lines[0].grammar_note, "note");
    assert_eq!(b.lines[0].tone_tags, vec!["casual".to_string()]);
    assert_eq!(b.lines[1].idx, 4);
    assert_eq!(b.lines[1].english, "four");
}

#[test]
fn replies_without_a_lines_array_are_refused() {
    assert!(parse_response(r#"{"result":[]}"#).is_err());
    assert!(parse_response(r#"{"lines":{"idx":1}}"#).is_err());
    assert!(parse_response("\"hi\"").is_err());
    assert!(parse_response("not json").is_err());
}

#[test]
fn entries_that_are_no_lines_are_refused() {
    assert!(parse_response(r#"[{"english":"no index"}]"#).is_err());
    assert!(parse_response(r#"[{"idx":1.5,"english":"x"}]"#).is_err());
    assert!(parse_response(r#"[{"idx":1,"english":"x","tone_tags":[1]}]"#).is_err());
    assert!(parse_response(r#"[{"idx":1,"english":"x","grammar_note":null}]"#).is_err());
    assert!(parse_response(r#"[[1]]"#).is_err());
}

#[test]
fn entries_with_unknown_idx_are_reported() {
    let a = line(10, 5, "a");
    let b = line(11, 6, "b");
    let entries = vec![
        LineTranslation { idx: 6, english: "B".into(), grammar_note: String::new(), tone_tags: vec![] },
        LineTranslation { idx: 99, english: "?".into(), grammar_note: String::new(), tone_tags: vec![] },
        LineTranslation { idx: 5, english: "A".into(), grammar_note: String::new(), tone_tags: vec![] },
        LineTranslation { idx: -1, english: "?".into(), grammar_note: String::new(), tone_tags: vec![] },
    ];
    assert_eq!(unknown_entries(&[&a, &b], &entries), vec![1, 3]);
}

#[test]
fn cached_reply_is_used_before_asking_the_model() {
    assert!(matches!(reply_source(Some("[]".to_string())), ReplySource::Cached(t) if t == "[]"));
    assert!(matches!(reply_source(None), ReplySource::AskModel));
}
