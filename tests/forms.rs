use bimdb::form::{get_query_pairs, parse_form};
use bimdb::text::{lines_of, trim_chars};
use bimdb::value_multiset::ValueMultiset;

#[test]
fn query_pairs_split_and_decode() {
    let pairs = get_query_pairs(Some(b"a=1&b=x%20y&a=2&flag".as_slice())).unwrap();
    assert_eq!(
        pairs,
        vec![
            ("a".to_string(), Some("1".to_string())),
            ("b".to_string(), Some("x y".to_string())),
            ("a".to_string(), Some("2".to_string())),
            ("flag".to_string(), None),
        ]
    );
}

#[test]
fn query_pairs_without_query_are_empty() {
    assert_eq!(get_query_pairs(None).unwrap(), vec![]);
}

#[test]
fn query_pairs_of_empty_query() {
    assert_eq!(get_query_pairs(Some(b"".as_slice())).unwrap(), vec![(String::new(), None)]);
}

#[test]
fn plus_becomes_space_before_decoding() {
    let pairs = get_query_pairs(Some(b"a+b=c+d%2B".as_slice())).unwrap();
    assert_eq!(pairs, vec![("a b".to_string(), Some("c d+".to_string()))]);
}

#[test]
fn value_split_at_first_equals_sign() {
    let pairs = get_query_pairs(Some(b"k=v=w".as_slice())).unwrap();
    assert_eq!(pairs, vec![("k".to_string(), Some("v=w".to_string()))]);
}

#[test]
fn malformed_percent_escape_fails_parse() {
    assert!(get_query_pairs(Some(b"k=%zz".as_slice())).is_none());
    assert!(get_query_pairs(Some(b"k=%4".as_slice())).is_none());
    assert!(get_query_pairs(Some(b"k%=1".as_slice())).is_none());
    assert!(parse_form(b"a=1&b=100%").is_none());
    assert_eq!(get_query_pairs(Some(b"k=100%25".as_slice())).unwrap(), vec![("k".to_string(), Some("100%".to_string()))]);
}

#[test]
fn multibyte_percent_escape_decodes() {
    let pairs = get_query_pairs(Some(b"k=%C3%A4".as_slice())).unwrap();
    assert_eq!(pairs, vec![("k".to_string(), Some("\u{e4}".to_string()))]);
}

#[test]
fn invalid_utf8_fails_whole_parse() {
    assert!(get_query_pairs(Some(b"a=1&b=%FF".as_slice())).is_none());
    assert!(parse_form(b"ok=1&%C3=2").is_none());
}

#[test]
fn form_keeps_all_values_in_order() {
    let form = parse_form(b"power-source=a&company=X&power-source=b&company=Y&bare").unwrap();
    assert_eq!(form.get_first("company").unwrap(), "X");
    assert_eq!(form.get_last("company").unwrap(), "Y");
    let list: Vec<&str> = form.get_list("power-source").unwrap().iter().map(|s| s.as_str()).collect();
    assert_eq!(list, vec!["a", "b"]);
    assert!(form.get_list("bare").is_none());
    assert!(form.get_list_or_empty("bare").is_empty());
    assert!(form.get_first("missing").is_none());
    assert!(form.get_last("missing").is_none());
}

#[test]
fn multiset_from_pairs_groups_by_key() {
    let m = ValueMultiset::from_pairs(vec![
        ("k".to_string(), "1".to_string()),
        ("j".to_string(), "2".to_string()),
        ("k".to_string(), "3".to_string()),
    ]);
    let ks: Vec<&str> = m.get_list_or_empty("k").iter().map(|s| s.as_str()).collect();
    assert_eq!(ks, vec!["1", "3"]);
    assert_eq!(m.get_first("j").unwrap(), "2");
    let empty = ValueMultiset::new();
    assert!(empty.get_list("k").is_none());
}

#[test]
fn multiset_insert_appends() {
    let mut m = ValueMultiset::new();
    m.insert("k".to_string(), "a".to_string());
    m.insert("k".to_string(), "b".to_string());
    assert_eq!(m.get_first("k").unwrap(), "a");
    assert_eq!(m.get_last("k").unwrap(), "b");
}

#[test]
fn lines_are_trimmed_and_blank_ones_dropped() {
    let lines = lines_of("  101 \n\n\t102\r\n   \n103");
    assert_eq!(lines, vec!["101", "102", "103"]);
    assert!(lines_of("").is_empty());
    assert!(lines_of(" \n \n").is_empty());
}

#[test]
fn trim_removes_unicode_whitespace() {
    let chars: Vec<char> = "\u{3000}\u{a0} a b \u{2009}".chars().collect();
    let t: String = trim_chars(&chars).into_iter().collect();
    assert_eq!(t, "a b");
}

#[test]
fn default_multiset_is_empty() {
    let m = ValueMultiset::default();
    assert!(m.get_first("k").is_none());
}

#[test]
fn multiset_entries_list_every_key_once() {
    let m = ValueMultiset::from_pairs(vec![
        ("ACME".to_string(), "101".to_string()),
        ("Other".to_string(), "7".to_string()),
        ("ACME".to_string(), "102".to_string()),
    ]);
    let e = m.entries();
    assert_eq!(e.len(), 2);
    assert_eq!(e[0], ("ACME".to_string(), vec!["101".to_string(), "102".to_string()]));
    assert_eq!(e[1], ("Other".to_string(), vec!["7".to_string()]));
}
