use protoc_rust::text::{
    chars_of, join_strs, same_text, split_str, starts_with, strip_str_once,
};

#[test]
fn split_cuts_at_every_separator() {
    assert_eq!(split_str("a.b.c", '.'), vec!["a", "b", "c"]);
    assert_eq!(split_str("grpc,no-flat-modules", ','), vec!["grpc", "no-flat-modules"]);
}

#[test]
fn split_without_separator_gives_the_text() {
    assert_eq!(split_str("abc", '.'), vec!["abc"]);
}

#[test]
fn split_of_empty_text_gives_one_empty_piece() {
    assert_eq!(split_str("", '.'), vec![""]);
}

#[test]
fn split_keeps_empty_pieces() {
    assert_eq!(split_str(".a..b.", '.'), vec!["", "a", "", "b", ""]);
    assert_eq!(split_str("..", '.'), vec!["", "", ""]);
}

#[test]
fn split_counts_characters_not_bytes() {
    assert_eq!(split_str("é.ü.日本", '.'), vec!["é", "ü", "日本"]);
}

#[test]
fn split_agrees_with_std() {
    for text in ["", "a", ".", "a.b", "a..b", ".rs", "x.y.z.", "héllo.wörld"] {
        let expected: Vec<&str> = text.split('.').collect();
        assert_eq!(split_str(text, '.'), expected);
    }
}

#[test]
fn join_puts_the_separator_between_neighbours() {
    assert_eq!(join_strs(&vec!["a", "b", "c"], "/"), "a/b/c");
    assert_eq!(join_strs(&vec!["a"], "/"), "a");
    assert_eq!(join_strs(&vec![], "/"), "");
    assert_eq!(join_strs(&vec!["", ""], "/"), "/");
    assert_eq!(join_strs(&vec!["a", "b"], "::"), "a::b");
}

#[test]
fn join_undoes_split() {
    for text in ["", "a", ".", "a.b", "a..b", ".rs", "x.y.z."] {
        assert_eq!(join_strs(&split_str(text, '.'), "."), text);
    }
}

#[test]
fn strip_removes_a_trailing_suffix() {
    assert_eq!(strip_str_once("a.b.rs", ".rs"), "a.b");
    assert_eq!(strip_str_once("a.b", ".rs"), "a.b");
    assert_eq!(strip_str_once(".rs", ".rs"), "");
    assert_eq!(strip_str_once("", ".rs"), "");
    assert_eq!(strip_str_once("rs", ".rs"), "rs");
    assert_eq!(strip_str_once("a.rsx", ".rs"), "a.rsx");
    assert_eq!(strip_str_once("é.rs", ".rs"), "é");
}

#[test]
fn strip_removes_one_suffix_only() {
    assert_eq!(strip_str_once("a.rs.rs", ".rs"), "a.rs");
    assert_eq!(strip_str_once(".rs.rs.rs", ".rs"), ".rs.rs");
    assert_eq!(strip_str_once("a.rs.b.rs", ".rs"), "a.rs.b");
}

#[test]
fn strip_with_empty_suffix_removes_nothing() {
    assert_eq!(strip_str_once("abc", ""), "abc");
    assert_eq!(strip_str_once("", ""), "");
}

#[test]
fn strip_agrees_with_std() {
    for text in ["", "a", ".rs", "a.rs", "a.rs.rs", "rs.rs", "a.rsx", "é.rs"] {
        assert_eq!(strip_str_once(text, ".rs"), text.strip_suffix(".rs").unwrap_or(text));
    }
}

#[test]
fn strip_borrows_from_the_text() {
    let text = String::from("a.b.rs");
    assert_eq!(strip_str_once(&text, ".rs").as_ptr(), text.as_ptr());
}

#[test]
fn same_text_compares_characters() {
    assert!(same_text("abc", "abc"));
    assert!(same_text("", ""));
    assert!(!same_text("abc", "abd"));
    assert!(!same_text("abc", "ab"));
    assert!(!same_text("ab", "abc"));
    assert!(same_text("日本", "日本"));
    assert!(!same_text("日本", "日木"));
}

#[test]
fn starts_with_looks_at_the_beginning() {
    assert!(starts_with("extern-path=.a=::b", "extern-path="));
    assert!(starts_with("abc", ""));
    assert!(starts_with("abc", "abc"));
    assert!(!starts_with("ab", "abc"));
    assert!(!starts_with("xextern-path=", "extern-path="));
}

#[test]
fn chars_of_lists_the_characters() {
    assert_eq!(chars_of("a.é"), vec!['a', '.', 'é']);
    assert_eq!(chars_of(""), Vec::<char>::new());
}
