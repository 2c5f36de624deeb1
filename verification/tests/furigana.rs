use hibi_nuku::mining::furigana::build;

#[test]
fn taberu_splits_kanji_kana() {
    let pairs = build("食べる", "たべる");
    assert_eq!(pairs.len(), 2);
    assert_eq!(pairs[0].base, "食");
    assert_eq!(pairs[0].reading, "た");
    assert_eq!(pairs[1].base, "べる");
    assert_eq!(pairs[1].reading, "");
}

#[test]
fn all_kanji_word_keeps_full_reading() {
    let pairs = build("学校", "がっこう");
    assert_eq!(pairs.len(), 1);
    assert_eq!(pairs[0].base, "学校");
    assert_eq!(pairs[0].reading, "がっこう");
}

#[test]
fn pure_kana_word_has_empty_reading_field() {
    let pairs = build("ねこ", "ねこ");
    assert_eq!(pairs.len(), 1);
    assert_eq!(pairs[0].reading, "");
}

#[test]
fn katakana_reading_normalised_to_hiragana_match() {
    let pairs = build("行く", "イク");
    assert_eq!(pairs[0].reading, "い");
}

#[test]
fn kana_prefix_then_kanji() {
    let pairs = build("お茶", "おちゃ");
    assert_eq!(pairs.len(), 2);
    assert_eq!(pairs[0].base, "お");
    assert_eq!(pairs[1].base, "茶");
    assert_eq!(pairs[1].reading, "ちゃ");
}

#[test]
fn bases_spell_the_lemma() {
    for (lemma, reading) in [("食べる", "たべる"), ("お茶", "おちゃ"), ("取り消す", "とりけす"), ("学校", "がっこう")] {
        let pairs = build(lemma, reading);
        let joined: String = pairs.iter().map(|p| p.base.as_str()).collect();
        assert_eq!(joined, lemma);
    }
}

#[test]
fn trailing_kana_is_matched_from_the_end() {
    let pairs = build("痛い", "いたい");
    assert_eq!(pairs.len(), 2);
    assert_eq!(pairs[0].base, "痛");
    assert_eq!(pairs[0].reading, "いた");
    assert_eq!(pairs[1].base, "い");
    assert_eq!(pairs[1].reading, "");
}

#[test]
fn kana_runs_carry_no_reading() {
    let pairs = build("取り消す", "とりけす");
    let got: Vec<(&str, &str)> = pairs.iter().map(|p| (p.base.as_str(), p.reading.as_str())).collect();
    assert_eq!(got, vec![("取", "と"), ("り", ""), ("消", "け"), ("す", "")]);
}
