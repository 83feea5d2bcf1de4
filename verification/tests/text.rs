use cedar_folder_size_analyzer::text::{chars_of, decimal_text, replace_all, same_text};

#[test]
fn same_text_compares_character_by_character() {
    assert!(same_text("", ""));
    assert!(same_text("abc", "abc"));
    assert!(same_text("中文", "中文"));
    assert!(!same_text("abc", "abd"));
    assert!(!same_text("abc", "ab"));
    assert!(!same_text("", "a"));
    assert!(!same_text("é", "e"));
    assert!(!same_text("Abc", "abc"));
}

#[test]
fn chars_of_lists_the_characters() {
    assert_eq!(chars_of(""), Vec::<char>::new());
    assert_eq!(chars_of("aé中"), vec!['a', 'é', '中']);
}

#[test]
fn replace_all_replaces_from_the_left_without_overlap() {
    assert_eq!(replace_all("a-b-c", "-", "+"), "a+b+c");
    assert_eq!(replace_all("aaa", "aa", "b"), "ba");
    assert_eq!(replace_all("aaaa", "aa", "b"), "bb");
    assert_eq!(replace_all("abab", "ab", "ba"), "baba");
    assert_eq!(replace_all("hello", "l", ""), "heo");
    assert_eq!(replace_all("hello", "xyz", "!"), "hello");
    assert_eq!(replace_all("", "a", "b"), "");
    assert_eq!(replace_all("ab", "abc", "x"), "ab");
    assert_eq!(replace_all("abc", "abc", ""), "");
    assert_eq!(replace_all("%1 и %1", "%1", "один"), "один и один");
    assert_eq!(replace_all("xax", "a", "aa"), "xaax");
}

#[test]
fn replace_all_leaves_the_text_where_nothing_is_looked_for() {
    assert_eq!(replace_all("abc", "", "-"), "abc");
    assert_eq!(replace_all("", "", "-"), "");
}

#[test]
fn replace_all_agrees_with_the_standard_library() {
    let texts = ["", "a", "abcabc", "aaaaa", "%1 %d %10", "ababab", "中文中", "xx%dxx%d"];
    let parts = ["a", "ab", "aa", "%1", "%d", "中", "bc", "xyz"];
    let fills = ["", "Z", "ab", "%d", "中文"];
    for text in texts {
        for part in parts {
            for fill in fills {
                assert_eq!(replace_all(text, part, fill), text.replace(part, fill), "{:?} {:?} {:?}", text, part, fill);
            }
        }
    }
}

#[test]
fn decimal_text_writes_numbers() {
    assert_eq!(decimal_text(0), "0");
    assert_eq!(decimal_text(7), "7");
    assert_eq!(decimal_text(10), "10");
    assert_eq!(decimal_text(1023), "1023");
    assert_eq!(decimal_text(9_000_000_000), "9000000000");
    assert_eq!(decimal_text(u64::MAX), "18446744073709551615");
}
