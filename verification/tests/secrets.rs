use home_inventory::secrets::{parse_env, EnvError, EnvMap};

#[test]
fn parse_env_handles_quotes_and_comments() {
    let map = parse_env("# comment\nHA_TOKEN=foo\nCCU_USER=\"with spaces\"\nEMPTY=\nQUOTED='abc'\n").unwrap();
    assert_eq!(map.get("HA_TOKEN"), Some(&"foo".to_string()));
    assert_eq!(map.get("CCU_USER"), Some(&"with spaces".to_string()));
    assert_eq!(map.get("EMPTY"), Some(&"".to_string()));
    assert_eq!(map.get("QUOTED"), Some(&"abc".to_string()));
    assert_eq!(map.len(), 4);
}

#[test]
fn parse_env_rejects_lines_without_equals() {
    let err = parse_env("HA_TOKEN\n").unwrap_err();
    assert!(err.message().contains("kein '='"));
    assert_eq!(err, EnvError::MissingEquals { line: 1, text: "HA_TOKEN".to_string() });
    assert_eq!(err.message(), "Zeile 1: kein '=' in \"HA_TOKEN\"");
}

#[test]
fn parse_env_rejects_empty_key() {
    let err = parse_env("A=1\n\n  = value\n").unwrap_err();
    assert_eq!(err, EnvError::EmptyKey { line: 3 });
    assert_eq!(err.message(), "Zeile 3: leerer Key");
}

#[test]
fn later_lines_win_and_keys_are_trimmed() {
    let map = parse_env("  K = one \r\nK=two\nL=\"x=y\"").unwrap();
    assert_eq!(map.get("K"), Some(&"two".to_string()));
    assert_eq!(map.get("L"), Some(&"x=y".to_string()));
    assert_eq!(map.get("M"), None);
    assert_eq!(map.len(), 2);
}

#[test]
fn only_matching_quote_pairs_are_removed() {
    let map = parse_env("A=\"x'\nB='\nC=\"\"\nD=\"a\"b\"").unwrap();
    assert_eq!(map.get("A"), Some(&"\"x'".to_string()));
    assert_eq!(map.get("B"), Some(&"'".to_string()));
    assert_eq!(map.get("C"), Some(&"".to_string()));
    assert_eq!(map.get("D"), Some(&"a\"b".to_string()));
}

#[test]
fn empty_input_gives_empty_map() {
    assert_eq!(parse_env("").unwrap().len(), 0);
    assert_eq!(parse_env("\n# only a comment\n   \n").unwrap().len(), 0);
}

#[test]
fn error_text_escapes_like_debug() {
    let err = parse_env("ok=1\nbad\tline\"x").unwrap_err();
    assert_eq!(err.message(), format!("Zeile 2: kein '=' in {:?}", "bad\tline\"x"));
}

#[test]
fn env_map_insert_keeps_one_entry_per_key() {
    let mut m = EnvMap::new();
    m.insert("a".to_string(), "1".to_string());
    m.insert("b".to_string(), "2".to_string());
    m.insert("a".to_string(), "3".to_string());
    assert_eq!(m.len(), 2);
    assert_eq!(m.get("a"), Some(&"3".to_string()));
}
