use imgforge::parser::levels::parse_levels;

#[test]
fn levels_plain_list() {
    assert_eq!(parse_levels("24,22,20"), Some(vec![24, 22, 20]));
}

#[test]
fn levels_indexed_entries_and_spaces() {
    assert_eq!(parse_levels("0:24, 1 : 22 ,2:18"), Some(vec![24, 22, 18]));
}

#[test]
fn levels_malformed_entries_skipped() {
    assert_eq!(parse_levels("24,abc,20,300,1:x"), Some(vec![24, 20]));
    assert_eq!(parse_levels(" +5 "), Some(vec![5]));
}

#[test]
fn levels_none_when_nothing_parses() {
    assert_eq!(parse_levels(""), None);
    assert_eq!(parse_levels("abc,,-1"), None);
    assert_eq!(parse_levels("256"), None);
}
