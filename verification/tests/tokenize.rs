use hibi_nuku::tokenize::deinflect::{Candidate, deinflect};
use hibi_nuku::tokenize::jmdict_index::{JmdictEntry, JmdictIndex};
use hibi_nuku::tokenize::lindera_wrap::{LinderaToken, RawMorpheme, coarse_pos, token_from_parts, tokens_from_morphemes};
use hibi_nuku::tokenize::segment::segment;

fn has_stem(cands: &[Candidate], stem: &str) -> bool {
    cands.iter().any(|c| c.stem == stem)
}

#[test]
fn taberu_past() {
    let cands = deinflect("食べた");
    assert!(has_stem(&cands, "食べる"), "got: {cands:?}");
}

#[test]
fn ikimasu_polite() {
    let cands = deinflect("行きます");
    assert!(has_stem(&cands, "行く"), "got: {cands:?}");
}

#[test]
fn wakaranai_negative() {
    let cands = deinflect("分からない");
    assert!(has_stem(&cands, "分かる"), "got: {cands:?}");
}

#[test]
fn omoshirokatta() {
    let cands = deinflect("面白かった");
    assert!(has_stem(&cands, "面白い"), "got: {cands:?}");
}

#[test]
fn identity_always_present() {
    let cands = deinflect("猫");
    assert!(has_stem(&cands, "猫"));
}

#[test]
fn identity_comes_first_and_stems_are_distinct() {
    let cands = deinflect("食べました");
    assert_eq!(cands[0].stem, "食べました");
    assert!(cands[0].rules_out.is_empty());
    for i in 0..cands.len() {
        for j in i + 1..cands.len() {
            assert_ne!(cands[i].stem, cands[j].stem);
        }
    }
}

fn make_dict() -> JmdictIndex {
    let mut d = JmdictIndex::new();
    d.insert(JmdictEntry {
        seq: 1,
        kanji: vec!["食べる".into()],
        readings: vec!["たべる".into()],
        glosses: vec!["to eat".into()],
        pos_tags: vec!["v1".into()],
        rules: vec!["v1".into()],
    });
    d.insert(JmdictEntry {
        seq: 2,
        kanji: vec!["今日".into()],
        readings: vec!["きょう".into()],
        glosses: vec!["today".into()],
        pos_tags: vec!["n".into()],
        rules: vec![],
    });
    d
}

fn lt(surface: &str, chars: (usize, usize), bytes: (usize, usize), lemma: &str, pos1: &str) -> LinderaToken {
    LinderaToken {
        surface: surface.into(),
        byte_start: bytes.0,
        byte_end: bytes.1,
        char_start: chars.0,
        char_end: chars.1,
        lemma: lemma.into(),
        reading: String::new(),
        pos1: pos1.into(),
        pos2: String::new(),
    }
}

// The UniDic morphemes of 食べた: 食べ (verb, lemma 食べる) and た (auxiliary).
fn taberu_morphemes() -> Vec<LinderaToken> {
    vec![lt("食べ", (0, 2), (0, 6), "食べる", "動詞"), lt("た", (2, 3), (6, 9), "た", "助動詞")]
}

#[test]
fn glues_taberu_into_one_span() {
    let dict = make_dict();
    let lindera = taberu_morphemes();
    let toks = segment("食べた", &lindera, &dict);
    assert!(toks.iter().any(|t| t.dict_seq == Some(1)));
}

#[test]
fn unknown_words_fall_back_to_lindera() {
    let dict = make_dict();
    let lindera = vec![lt("ねこ", (0, 2), (0, 6), "猫", "名詞")];
    let toks = segment("ねこ", &lindera, &dict);
    assert!(!toks.is_empty());
}

#[test]
fn segment_spans_tile_the_line() {
    let dict = make_dict();
    let lindera = vec![
        lt("今日", (0, 2), (0, 6), "今日", "名詞"),
        lt("は", (2, 3), (6, 9), "は", "助詞"),
        lt("食べ", (3, 5), (9, 15), "食べる", "動詞"),
        lt("た", (5, 6), (15, 18), "た", "助動詞"),
    ];
    let toks = segment("今日は食べた", &lindera, &dict);
    let mut pos = 0;
    for t in &toks {
        assert_eq!(t.span.0, pos);
        assert!(t.span.1 > t.span.0);
        pos = t.span.1;
    }
    assert_eq!(pos, 6);
    assert_eq!(toks[0].dict_seq, Some(2));
    assert_eq!(toks[0].lemma, "今日");
    assert_eq!(toks[1].pos, "particle");
}

#[test]
fn unknown_character_without_morpheme_is_its_own_token() {
    let dict = make_dict();
    let toks = segment("ゑ", &[], &dict);
    assert_eq!(toks.len(), 1);
    assert_eq!(toks[0].span, (0, 1));
    assert_eq!(toks[0].pos, "other");
    assert_eq!(toks[0].lemma, "ゑ");
}

#[test]
fn coarse_pos_buckets() {
    assert_eq!(coarse_pos("名詞", "普通名詞"), "noun");
    assert_eq!(coarse_pos("動詞", ""), "verb");
    assert_eq!(coarse_pos("形状詞", ""), "adj");
    assert_eq!(coarse_pos("補助記号", ""), "punctuation");
    assert_eq!(coarse_pos("未知", ""), "other");
}

#[test]
fn morpheme_from_unidic_columns() {
    let mut details: Vec<String> = vec![String::new(); 18];
    details[0] = "動詞".into();
    details[1] = "一般".into();
    details[7] = "食べる".into();
    details[17] = "タベ".into();
    let t = token_from_parts("今日食べた", "食べ", 6, 12, &details);
    assert_eq!(t.char_start, 2);
    assert_eq!(t.char_end, 4);
    assert_eq!(t.lemma, "食べる");
    assert_eq!(t.reading, "タベ");
    assert_eq!(t.pos1, "動詞");
}

#[test]
fn kuru_past_keeps_its_own_rule() {
    let cands = deinflect("来た");
    assert!(cands.iter().any(|c| c.stem == "来る" && c.rules_out.contains(&"vk")), "got: {cands:?}");
}

#[test]
fn dictionary_hits_carry_a_coarse_class() {
    let dict = make_dict();
    let lindera = taberu_morphemes();
    let toks = segment("食べた", &lindera, &dict);
    let hit = toks.iter().find(|t| t.dict_seq == Some(1)).expect("dictionary hit");
    assert_eq!(hit.pos, "verb");
    for t in &toks {
        assert!(["noun", "verb", "adj", "aux", "particle", "punctuation", "other"].contains(&t.pos.as_str()));
    }
}

#[test]
fn dictionary_hit_is_the_first_compatible_entry() {
    let mut d = JmdictIndex::new();
    for (seq, rule) in [(7, "v5r"), (8, "v1"), (9, "v1")] {
        d.insert(JmdictEntry {
            seq,
            kanji: vec!["食べる".into()],
            readings: vec!["たべる".into()],
            glosses: vec![],
            pos_tags: vec![rule.into()],
            rules: vec![rule.into()],
        });
    }
    let toks = segment("食べた", &taberu_morphemes(), &d);
    assert_eq!(toks.len(), 1);
    assert_eq!(toks[0].dict_seq, Some(8));
}

#[test]
fn morpheme_stream_becomes_tokens_in_order() {
    let mut verb: Vec<String> = vec![String::new(); 18];
    verb[0] = "動詞".into();
    verb[7] = "食べる".into();
    verb[17] = "タベ".into();
    let aux: Vec<String> = vec!["助動詞".into(), String::new()];
    let raws = vec![
        RawMorpheme { surface: "食べ".into(), byte_start: 0, byte_end: 6, details: verb },
        RawMorpheme { surface: "た".into(), byte_start: 6, byte_end: 9, details: aux },
    ];
    let toks = tokens_from_morphemes("食べた", &raws);
    assert_eq!(toks.len(), 2);
    assert_eq!((toks[0].char_start, toks[0].char_end), (0, 2));
    assert_eq!(toks[0].lemma, "食べる");
    assert_eq!(toks[0].reading, "タベ");
    assert_eq!((toks[1].char_start, toks[1].char_end), (2, 3));
    assert_eq!(toks[1].lemma, "た");
    assert_eq!(toks[1].pos1, "助動詞");
    assert_eq!(toks[1].reading, "");
}
