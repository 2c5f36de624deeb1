use hibi_nuku::jmdict::bundle::{Bundle, Entry, Sense};
use hibi_nuku::jmdict::loader::build_index;
use hibi_nuku::jmdict::parser::{parse, strip_doctype};
use hibi_nuku::tokenize::jmdict_index::{JmdictEntry, JmdictIndex};

const SAMPLE: &str = r#"<?xml version="1.0" encoding="UTF-8"?>
<!DOCTYPE JMdict [
<!ENTITY v1 "Ichidan verb">
<!ENTITY vt "transitive verb">
<!ENTITY n "noun">
]>
<JMdict>
  <entry>
    <ent_seq>1577985</ent_seq>
    <k_ele><keb>食べる</keb></k_ele>
    <r_ele><reb>たべる</reb></r_ele>
    <sense>
      <pos>&v1;</pos>
      <pos>&vt;</pos>
      <gloss>to eat</gloss>
      <gloss>to live on (e.g. a salary)</gloss>
    </sense>
  </entry>
  <entry>
    <ent_seq>1579110</ent_seq>
    <k_ele><keb>今日</keb></k_ele>
    <r_ele><reb>きょう</reb></r_ele>
    <sense>
      <pos>&n;</pos>
      <gloss>today</gloss>
    </sense>
  </entry>
</JMdict>
"#;

#[test]
fn parses_two_entries() {
    let entries = parse(SAMPLE).unwrap();
    assert_eq!(entries.len(), 2);
    let taberu = &entries[0];
    assert_eq!(taberu.seq, 1577985);
    assert_eq!(taberu.kanji, vec!["食べる".to_string()]);
    assert_eq!(taberu.readings, vec!["たべる".to_string()]);
    assert_eq!(taberu.senses.len(), 1);
    assert_eq!(taberu.senses[0].pos, vec!["v1", "vt"]);
    assert_eq!(taberu.senses[0].glosses.len(), 2);
    assert!(taberu.rules.contains(&"v1".to_string()));
}

#[test]
fn second_entry_noun() {
    let entries = parse(SAMPLE).unwrap();
    assert_eq!(entries[1].seq, 1579110);
    assert_eq!(entries[1].senses[0].glosses, vec!["today".to_string()]);
}

#[test]
fn doctype_is_removed() {
    let out = strip_doctype("<?xml?>\n<!DOCTYPE x [\n<!ENTITY a \"b\">\n]>\n<r/>");
    assert!(!out.contains("DOCTYPE"));
    assert!(out.contains("<r/>"));
}

#[test]
fn malformed_xml_is_an_error() {
    assert!(parse("<JMdict><entry></JMdict>").is_err());
}

fn entry(seq: i64, kanji: &str, reading: &str, gloss: &str) -> JmdictEntry {
    JmdictEntry {
        seq,
        kanji: if kanji.is_empty() { vec![] } else { vec![kanji.to_string()] },
        readings: vec![reading.to_string()],
        glosses: vec![gloss.to_string()],
        pos_tags: vec!["n".to_string()],
        rules: vec![],
    }
}

#[test]
fn lookup_finds_inserted_entry_by_kanji_and_reading() {
    let mut d = JmdictIndex::new();
    assert!(d.is_empty());
    d.insert(entry(2, "今日", "きょう", "today"));
    assert_eq!(d.len(), 1);
    assert_eq!(d.lookup("今日")[0].seq, 2);
    assert_eq!(d.lookup("きょう")[0].seq, 2);
    assert!(d.lookup("明日").is_empty());
    assert_eq!(d.entry(2).unwrap().glosses, vec!["today".to_string()]);
    assert!(d.entry(3).is_none());
}

#[test]
fn lookup_keeps_insertion_order_for_shared_surfaces() {
    let mut d = JmdictIndex::new();
    d.insert(entry(10, "僕", "ぼく", "I"));
    d.insert(entry(11, "僕", "しもべ", "servant"));
    let hits = d.lookup("僕");
    assert_eq!(hits.len(), 2);
    assert_eq!(hits[0].seq, 10);
    assert_eq!(hits[1].seq, 11);
}

#[test]
fn build_index_flattens_senses() {
    let bundle = Bundle {
        version: "1".to_string(),
        entries: vec![Entry {
            seq: 5,
            kanji: vec!["食べる".to_string()],
            readings: vec!["たべる".to_string()],
            senses: vec![
                Sense { pos: vec!["v1".to_string()], glosses: vec!["to eat".to_string()] },
                Sense { pos: vec!["vt".to_string()], glosses: vec!["to live on".to_string()] },
            ],
            rules: vec!["v1".to_string()],
            priority: 0,
        }],
    };
    let idx = build_index(bundle);
    let e = idx.entry(5).unwrap();
    assert_eq!(e.pos_tags, vec!["v1".to_string(), "vt".to_string()]);
    assert_eq!(e.glosses, vec!["to eat".to_string(), "to live on".to_string()]);
    assert_eq!(idx.lookup("たべる").len(), 1);
}

#[test]
fn len_counts_distinct_entry_numbers() {
    let mut d = JmdictIndex::new();
    d.insert(entry(1, "猫", "ねこ", "cat"));
    d.insert(entry(2, "犬", "いぬ", "dog"));
    assert_eq!(d.len(), 2);
    d.insert(entry(2, "犬", "いぬ", "hound"));
    assert_eq!(d.len(), 2);
    assert_eq!(d.entry(2).unwrap().glosses, vec!["hound".to_string()]);
}

#[test]
fn kana_only_entry_is_found_by_its_reading() {
    let mut d = JmdictIndex::new();
    d.insert(entry(5, "", "これ", "this"));
    d.insert(entry(6, "此れ", "これ", "this (kanji)"));
    let hits = d.lookup("これ");
    assert_eq!(hits.iter().map(|e| e.seq).collect::<Vec<_>>(), vec![5, 6]);
}
