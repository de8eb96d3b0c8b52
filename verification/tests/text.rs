use pkgbuilder::text::{
    chain, chain3, chain4, chars_of, decimal_string, ends_with, split_fields, string_of,
};

#[test]
fn decimal_of_a_timestamp() {
    assert_eq!(decimal_string(1431648000), "1431648000");
    assert_eq!(decimal_string(1700000000), "1700000000");
}

#[test]
fn decimal_of_small_numbers() {
    assert_eq!(decimal_string(0), "0");
    assert_eq!(decimal_string(7), "7");
    assert_eq!(decimal_string(10), "10");
    assert_eq!(decimal_string(109), "109");
}

#[test]
fn decimal_of_negative_numbers() {
    assert_eq!(decimal_string(-1), "-1");
    assert_eq!(decimal_string(-17), "-17");
    assert_eq!(decimal_string(-1000), "-1000");
}

#[test]
fn decimal_of_the_limits() {
    assert_eq!(decimal_string(i64::MIN), "-9223372036854775808");
    assert_eq!(decimal_string(i64::MAX), "9223372036854775807");
}

#[test]
fn decimal_agrees_with_the_standard_library() {
    let mut n: i64 = 1;
    while n < i64::MAX / 7 {
        assert_eq!(decimal_string(n), n.to_string());
        assert_eq!(decimal_string(-n), (-n).to_string());
        n = n * 7 + 3;
    }
}

#[test]
fn fields_are_split_at_the_separator() {
    let fields = split_fields("/tmp/out/a\0/tmp/out/b\0", '\0');
    assert_eq!(
        fields,
        vec!["/tmp/out/a".to_string(), "/tmp/out/b".to_string(), String::new()]
    );
}

#[test]
fn text_without_a_separator_is_one_field() {
    assert_eq!(split_fields("alone", '\0'), vec!["alone".to_string()]);
    assert_eq!(split_fields("", '\0'), vec![String::new()]);
    assert_eq!(split_fields("a b\tc\n", '\0'), vec!["a b\tc\n".to_string()]);
}

#[test]
fn empty_fields_are_kept() {
    assert_eq!(split_fields("\0", '\0'), vec![String::new(), String::new()]);
    assert_eq!(
        split_fields("\0\0a\0", '\0'),
        vec![String::new(), String::new(), "a".to_string(), String::new()]
    );
    assert_eq!(split_fields("a,,b", ','), vec!["a".to_string(), String::new(), "b".to_string()]);
}

#[test]
fn fields_keep_white_space_and_characters_beyond_ascii() {
    assert_eq!(
        split_fields("/out/my file.txt\0/out/caf\u{e9}\0/out/\u{65e5}\u{672c}\n", '\0'),
        vec![
            "/out/my file.txt".to_string(),
            "/out/caf\u{e9}".to_string(),
            "/out/\u{65e5}\u{672c}\n".to_string()
        ]
    );
}

#[test]
fn split_agrees_with_the_standard_library() {
    let texts = ["a b c", "", "\0", "a\0", "\0a", "a\0\0b", "x\u{200b}y\0z", "no separator"];
    for text in texts {
        for sep in ['\0', ' ', 'a'] {
            let expected: Vec<String> = text.split(sep).map(|w| w.to_string()).collect();
            assert_eq!(split_fields(text, sep), expected);
        }
    }
}

#[test]
fn suffixes() {
    assert!(ends_with("https://x/repo.git", ".git"));
    assert!(!ends_with("https://x/repo.git", ".zip"));
    assert!(!ends_with("git", ".git"));
    assert!(ends_with("anything", ""));
    assert!(ends_with(".git", ".git"));
}

#[test]
fn characters_and_back() {
    let cs = chars_of("h\u{e9}llo");
    assert_eq!(cs, vec!['h', '\u{e9}', 'l', 'l', 'o']);
    assert_eq!(string_of(&cs, 0, 5), "h\u{e9}llo");
    assert_eq!(string_of(&cs, 1, 3), "\u{e9}l");
    assert_eq!(string_of(&cs, 2, 2), "");
}

#[test]
fn concatenation() {
    assert_eq!(chain("a", "bc"), "abc");
    assert_eq!(chain("", ""), "");
    assert_eq!(chain3("a", "/", "b"), "a/b");
    assert_eq!(chain4("out", "/", "foo", ".tar.gz"), "out/foo.tar.gz");
}
