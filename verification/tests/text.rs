use zcode_cleaner::text::{
    begins_with, copy_list, decimal, holds, inner, leading, lists, same_text, split, trim, white,
};

#[test]
fn decimal_writes_numbers() {
    assert_eq!(decimal(0), "0");
    assert_eq!(decimal(9), "9");
    assert_eq!(decimal(10), "10");
    assert_eq!(decimal(907), "907");
    assert_eq!(decimal(usize::MAX), usize::MAX.to_string());
}

#[test]
fn white_is_unicode_white_space() {
    for c in '\u{0}'..=char::MAX {
        assert_eq!(white(c), c.is_whitespace(), "{:?}", c);
    }
}

#[test]
fn split_and_trim_are_those_of_strings() {
    for s in ["", ",", "a", "a,b", ",a,,b,", " a , b\u{3000},\tc\n", "会话，甲,乙"] {
        let ours = split(s, ',');
        let theirs: Vec<String> = s.split(',').map(|p| p.to_string()).collect();
        assert_eq!(ours, theirs);
        assert_eq!(ours.join(","), s);
        for piece in &ours {
            assert_eq!(trim(piece), piece.trim());
        }
    }
    assert_eq!(trim("  \u{2003} "), "");
}

#[test]
fn leading_counts_characters() {
    assert_eq!(leading("会话标题", 2), "会话");
    assert_eq!(leading("会话", 2), "会话");
    assert_eq!(leading("会", 2), "会");
    assert_eq!(leading("", 0), "");
}

#[test]
fn parts_of_strings_are_found() {
    assert!(begins_with("sess_1", "sess_"));
    assert!(!begins_with("sess", "sess_"));
    assert!(begins_with("x", ""));
    assert!(holds("a/cli/log/b", "cli/log"));
    assert!(holds("cli/log", "cli/log"));
    assert!(!holds("v2/logs", "cli/log"));
    assert!(!holds("cli/lo", "cli/log"));
    assert!(holds("", ""));
    assert_eq!(inner("<x>", "<", ">"), Some("x".to_string()));
    assert_eq!(inner("<>", "<", ">"), Some(String::new()));
    assert_eq!(inner("<", "<", ">"), None);
    assert_eq!(inner("aba", "ab", "ba"), None);
    assert!(same_text("é", "é"));
    assert!(!same_text("e", "é"));
}

#[test]
fn lists_are_searched_and_copied() {
    let list = vec!["a".to_string(), "b".to_string()];
    assert!(lists(&list, &"b".to_string()));
    assert!(!lists(&list, &"c".to_string()));
    assert_eq!(copy_list(&list), list);
}
