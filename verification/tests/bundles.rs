use hibi_nuku::dict::frequency::{StringHashMap, is_term_bank_file, merge_bank};
use hibi_nuku::dict::frequency::parse_term_meta_bank;
use hibi_nuku::dict::manifest::{FileFacts, bundle_file, bundle_path, compute};

#[test]
fn parses_bare_int_payload() {
    let json = r#"[["の","freq",{"value":1,"displayValue":"1"}]]"#;
    let v = parse_term_meta_bank(json).unwrap();
    assert_eq!(v, vec![("の".to_string(), None, 1)]);
}

#[test]
fn parses_payload_with_reading() {
    let json = r#"[["思う","freq",{"reading":"おもう","frequency":{"value":20,"displayValue":"20"}}]]"#;
    let v = parse_term_meta_bank(json).unwrap();
    assert_eq!(v, vec![("思う".to_string(), Some("おもう".into()), 20)]);
}

#[test]
fn skips_non_freq_entries() {
    let json = r#"[["X","other",{"value":99}]]"#;
    let v = parse_term_meta_bank(json).unwrap();
    assert!(v.is_empty());
}

#[test]
fn other_payload_shapes() {
    let json = r#"[["a","freq",7],["b","freq","8"],["c","freq",{"reading":"r","frequency":9}],["","freq",1],["d","freq",1.5],["e","freq"]]"#;
    let v = parse_term_meta_bank(json).unwrap();
    assert_eq!(
        v,
        vec![("a".to_string(), None, 7), ("b".to_string(), None, 8), ("c".to_string(), Some("r".to_string()), 9)]
    );
    assert!(parse_term_meta_bank("{}").is_err());
}

#[test]
fn manifest_from_found_files() {
    let m = compute(Some(FileFacts { size: 3, digest: vec![0x00, 0xab, 0xff], version: "2025-01-01T00:00:00Z".into() }), None, None);
    let j = m.jmdict.unwrap();
    assert_eq!(j.url, "/api/dict/jmdict");
    assert_eq!(j.sha256, "00abff");
    assert_eq!(j.size, 3);
    assert!(m.wk.is_none());
    assert!(m.frequency.is_none());
    assert_eq!(bundle_file("wk"), Some("wk.json.gz"));
    assert_eq!(bundle_file("other"), None);
    assert_eq!(bundle_path("/data", "wk.json.gz"), "/data/wk.json.gz");
}

#[test]
fn term_bank_files_are_recognised_by_name() {
    assert!(is_term_bank_file("term_meta_bank_1.json"));
    assert!(is_term_bank_file("term_meta_bank_12.json"));
    assert!(!is_term_bank_file("index.json"));
    assert!(!is_term_bank_file("term_meta_bank_1.json.bak"));
    assert!(!is_term_bank_file("term_bank_1.json"));
}

#[test]
fn first_rank_and_first_reading_win_across_banks() {
    let mut ranks: StringHashMap<i64> = StringHashMap::new();
    let mut readings: StringHashMap<String> = StringHashMap::new();
    let (r1, d1) = merge_bank(
        &mut ranks,
        &mut readings,
        vec![("猫".to_string(), None, 10), ("犬".to_string(), Some("いぬ".to_string()), 20), ("猫".to_string(), Some("ねこ".to_string()), 5)],
    );
    assert_eq!(r1, vec![("猫".to_string(), 10), ("犬".to_string(), 20)]);
    assert_eq!(d1, vec![("犬".to_string(), "いぬ".to_string()), ("猫".to_string(), "ねこ".to_string())]);
    let (r2, d2) = merge_bank(&mut ranks, &mut readings, vec![("犬".to_string(), Some("けん".to_string()), 1), ("鳥".to_string(), None, 3)]);
    assert_eq!(r2, vec![("鳥".to_string(), 3)]);
    assert!(d2.is_empty());
    assert_eq!(ranks.get("猫"), Some(&10));
    assert_eq!(ranks.get("犬"), Some(&20));
    assert_eq!(ranks.get("鳥"), Some(&3));
    assert_eq!(readings.get("犬").map(String::as_str), Some("いぬ"));
    assert_eq!(readings.get("猫").map(String::as_str), Some("ねこ"));
    assert!(!readings.contains_key("鳥"));
    assert_eq!(ranks.len(), 3);
}
