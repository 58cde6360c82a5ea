use rustex_utils::kv::parse_flat_map;

#[test]
fn parse_empty_input_gives_empty_map() {
    let m = parse_flat_map("").unwrap();
    assert_eq!(m.len(), 0);
}

#[test]
fn parse_trailing_delimiter_tolerated() {
    let m = parse_flat_map("k=v,").unwrap();
    assert_eq!(m.len(), 1);
    assert_eq!(m.get(&"k".to_string()).unwrap().as_str(), "v");
}

#[test]
fn parse_single_pair() {
    let m = parse_flat_map("key=value").unwrap();
    assert_eq!(m.len(), 1);
    assert_eq!(m.get(&"key".to_string()).unwrap().as_str(), "value");
}

#[test]
fn parse_round_trip_recovers_mapping() {
    let m = parse_flat_map("alpha=1,beta=two").unwrap();
    assert_eq!(m.len(), 2);
    assert_eq!(m.get(&"alpha".to_string()).unwrap().as_str(), "1");
    assert_eq!(m.get(&"beta".to_string()).unwrap().as_str(), "two");
    // The same mapping serialized in the other order parses to the same
    // content: the recovered mapping is order-independent.
    let m2 = parse_flat_map("beta=two,alpha=1").unwrap();
    assert_eq!(m2.len(), 2);
    assert_eq!(m2.get(&"alpha".to_string()).unwrap().as_str(), "1");
    assert_eq!(m2.get(&"beta".to_string()).unwrap().as_str(), "two");
}

#[test]
fn parse_missing_separator_fails() {
    let e = parse_flat_map("novalue").unwrap_err();
    assert_eq!(e.segment.as_str(), "novalue");
}

#[test]
fn parse_aborts_whole_parse_on_one_bad_token() {
    let e = parse_flat_map("a=1,novalue").unwrap_err();
    assert_eq!(e.segment.as_str(), "novalue");
}

#[test]
fn parse_trims_surrounding_whitespace() {
    let m = parse_flat_map("  k  =  v  ,x=1").unwrap();
    assert_eq!(m.len(), 2);
    assert_eq!(m.get(&"k".to_string()).unwrap().as_str(), "v");
    assert_eq!(m.get(&"x".to_string()).unwrap().as_str(), "1");
}

#[test]
fn parse_later_duplicate_key_wins() {
    let m = parse_flat_map("a=1,a=2").unwrap();
    assert_eq!(m.len(), 1);
    assert_eq!(m.get(&"a".to_string()).unwrap().as_str(), "2");
}

#[test]
fn parse_splits_at_first_separator() {
    let m = parse_flat_map("a=b=c").unwrap();
    assert_eq!(m.len(), 1);
    assert_eq!(m.get(&"a".to_string()).unwrap().as_str(), "b=c");
}

#[test]
fn parse_absent_key_gives_nothing() {
    let m = parse_flat_map("a=1").unwrap();
    assert!(m.get(&"b".to_string()).is_none());
}

#[test]
fn map_insert_overwrites_and_grows() {
    let mut m = rustex_utils::kv::StringMap::new();
    assert_eq!(m.len(), 0);
    m.insert("a".to_string(), "1".to_string());
    m.insert("b".to_string(), "2".to_string());
    assert_eq!(m.len(), 2);
    m.insert("a".to_string(), "3".to_string());
    assert_eq!(m.len(), 2);
    assert_eq!(m.get(&"a".to_string()).unwrap().as_str(), "3");
    assert_eq!(m.get(&"b".to_string()).unwrap().as_str(), "2");
}
