use hibi_nuku::hibi::model::{FuriganaPair, KanjiEntry};
use hibi_nuku::library::lines::SubtitleLine;
use hibi_nuku::mining::kanji::{kanji_entries, kanji_of};
use hibi_nuku::mining::pipeline::{MineRequest, card_request, clip_bounds, default_pad, focus_glosses};
use hibi_nuku::tokenize::Token;
use hibi_nuku::tokenize::jmdict_index::{JmdictEntry, JmdictIndex};

#[test]
fn distinct_kanji_in_order() {
    assert_eq!(kanji_of("今日は今日の学校"), vec!['今', '日', '学', '校']);
    assert!(kanji_of("ねこ").is_empty());
}

#[test]
fn kanji_entries_use_what_the_cache_knows() {
    let found = vec![Some(("eat".to_string(), Some(5))), None];
    let es: Vec<KanjiEntry> = kanji_entries(&['食', '猫'], &found);
    assert_eq!(es[0].kanji, "食");
    assert_eq!(es[0].meaning, "eat");
    assert_eq!(es[0].wanikani_level, Some(5));
    assert_eq!(es[1].meaning, "");
    assert_eq!(es[1].wanikani_level, None);
}

#[test]
fn clip_window_pads_and_clamps() {
    assert_eq!(default_pad(), 500);
    assert_eq!(clip_bounds(300, 2_000, 500, 500), (0, 2_500, 1_150));
    assert_eq!(clip_bounds(10_000, 12_001, 500, 250), (9_500, 12_251, 11_000));
    assert_eq!(clip_bounds(-3, 0, 0, 0), (0, 0, -1));
}

fn dict() -> JmdictIndex {
    let mut d = JmdictIndex::new();
    d.insert(JmdictEntry {
        seq: 1,
        kanji: vec!["食べる".into()],
        readings: vec!["たべる".into()],
        glosses: vec!["to eat".into(), "to live on".into(), "to bite".into(), "to consume".into()],
        pos_tags: vec![],
        rules: vec![],
    });
    d.insert(JmdictEntry {
        seq: 2,
        kanji: vec!["食べる".into()],
        readings: vec!["はべる".into()],
        glosses: vec!["other".into()],
        pos_tags: vec![],
        rules: vec![],
    });
    d
}

fn tok(lemma: &str, seq: Option<i64>) -> Token {
    Token {
        span: (0, 1),
        surface: lemma.into(),
        lemma: lemma.into(),
        reading: String::new(),
        pos: "verb".into(),
        dict_seq: seq,
    }
}

#[test]
fn glosses_prefer_the_matched_token() {
    let d = dict();
    let toks = vec![tok("食べる", Some(2))];
    assert_eq!(focus_glosses(Some(&toks), "食べる", &d), vec!["other".to_string()]);
    let g = focus_glosses(None, "食べる", &d);
    assert_eq!(g, vec!["to eat".to_string(), "to live on".to_string(), "to bite".to_string()]);
    assert!(focus_glosses(None, "猫", &d).is_empty());
    let unmatched = vec![tok("食べる", None)];
    assert_eq!(focus_glosses(Some(&unmatched), "食べる", &d).len(), 3);
}

#[test]
fn card_uses_overrides_then_stored_text() {
    let req = MineRequest {
        video_id: 1,
        line_id: 2,
        focus_word: "食べる".into(),
        focus_word_reading: "たべる".into(),
        pad_before_ms: 500,
        pad_after_ms: 500,
        user_english_override: None,
        user_grammar_override: Some("past".into()),
        tags: vec!["anime".into()],
    };
    let line = SubtitleLine {
        id: 2,
        video_id: 1,
        idx: 0,
        start_ms: 0,
        end_ms: 1,
        raw_text: "食べた".into(),
        tokens_json: None,
        translation: Some("ate".into()),
        grammar_note: Some("stored".into()),
        tone_tags: None,
    };
    let card = card_request(
        &req,
        &line,
        "Frieren S01E03".into(),
        vec![FuriganaPair { base: "食".into(), reading: "た".into() }],
        vec!["to eat".into()],
        vec![],
        "img".into(),
        "aud".into(),
    );
    assert_eq!(card.english, "ate");
    assert_eq!(card.grammar_note.as_deref(), Some("past"));
    assert_eq!(card.sentence, "食べた");
    assert_eq!(card.image_key.as_deref(), Some("img"));
    assert_eq!(card.tags, vec!["anime".to_string()]);
}
