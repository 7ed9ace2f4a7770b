use zws::text::{
    chars_of, decimal_text, find_first, find_last, has_char, is_space, same_bytes, same_text,
    slice_text, split_text, words_of,
};

#[test]
fn white_space_is_the_unicode_set() {
    for c in [' ', '\t', '\n', '\r', '\u{b}', '\u{c}', '\u{85}', '\u{a0}', '\u{1680}', '\u{2000}',
        '\u{200a}', '\u{2028}', '\u{2029}', '\u{202f}', '\u{205f}', '\u{3000}']
    {
        assert!(is_space(c), "{:?}", c);
        assert!(c.is_whitespace());
    }
    for c in ['a', '/', ':', '0', '\u{8}', '\u{e}', '\u{200b}', '\u{2007}'] {
        assert_eq!(is_space(c), c.is_whitespace(), "{:?}", c);
    }
}

#[test]
fn white_space_agrees_with_std_everywhere() {
    let mut n: u32 = 0;
    while n <= 0x10ffff {
        if let Some(c) = char::from_u32(n) {
            assert_eq!(is_space(c), c.is_whitespace(), "{:x}", n);
        }
        n += 1;
    }
}

#[test]
fn chars_of_keeps_every_character() {
    assert_eq!(chars_of(""), Vec::<char>::new());
    assert_eq!(chars_of("a/é"), vec!['a', '/', 'é']);
}

#[test]
fn words_are_runs_without_white_space() {
    assert_eq!(words_of(""), Vec::<String>::new());
    assert_eq!(words_of("   \t "), Vec::<String>::new());
    assert_eq!(words_of("GET /a"), vec!["GET".to_string(), "/a".to_string()]);
    assert_eq!(words_of("  GET \t\n /a  "), vec!["GET".to_string(), "/a".to_string()]);
    assert_eq!(words_of("one"), vec!["one".to_string()]);
    assert_eq!(words_of("a b c"), vec!["a".to_string(), "b".to_string(), "c".to_string()]);
}

#[test]
fn words_agree_with_split_whitespace() {
    for s in ["", " ", "a", " a", "a ", "a  b", "\u{a0}x\u{3000}y", "é è\tê", "GET /a/:b "] {
        let expected: Vec<String> = s.split_whitespace().map(|w| w.to_string()).collect();
        assert_eq!(words_of(s), expected, "{:?}", s);
    }
}

#[test]
fn split_gives_the_pieces_between_separators() {
    assert_eq!(split_text("", '/'), vec!["".to_string()]);
    assert_eq!(split_text("abc", '/'), vec!["abc".to_string()]);
    assert_eq!(split_text("/", '/'), vec!["".to_string(), "".to_string()]);
    assert_eq!(
        split_text("/user/Jane/", '/'),
        vec!["".to_string(), "user".to_string(), "Jane".to_string(), "".to_string()]
    );
    assert_eq!(split_text("a//b", '/'), vec!["a".to_string(), "".to_string(), "b".to_string()]);
}

#[test]
fn split_agrees_with_std() {
    for s in ["", "/", "//", "a", "/a", "a/", "/a/b/c", "é/è", "a?b?c"] {
        for sep in ['/', '?'] {
            let expected: Vec<String> = s.split(sep).map(|w| w.to_string()).collect();
            assert_eq!(split_text(s, sep), expected, "{:?}", s);
        }
    }
}

#[test]
fn find_first_and_last_count_characters() {
    assert_eq!(find_first("", '.'), None);
    assert_eq!(find_last("", '.'), None);
    assert_eq!(find_first("a.b.c", '.'), Some(1));
    assert_eq!(find_last("a.b.c", '.'), Some(3));
    assert_eq!(find_first("abc", '.'), None);
    assert_eq!(find_last("abc", '.'), None);
    // Positions are counted in characters, not in bytes.
    assert_eq!(find_first("éé.x", '.'), Some(2));
    assert_eq!(find_last("éé.x.", '.'), Some(4));
}

#[test]
fn has_char_finds_what_is_there() {
    assert!(has_char("/a/:b", ':'));
    assert!(!has_char("/a/b", ':'));
    assert!(!has_char("", ':'));
}

#[test]
fn same_text_and_same_bytes_compare_contents() {
    assert!(same_text("", ""));
    assert!(same_text("GET", "GET"));
    assert!(!same_text("GET", "get"));
    assert!(!same_text("GET", "GETS"));
    assert!(!same_text("GEX", "GET"));
    assert!(same_bytes(b"", b""));
    assert!(same_bytes(b":path", b":path"));
    assert!(!same_bytes(b":path", b":pat"));
    assert!(!same_bytes(b":path", b":pith"));
}

#[test]
fn slice_text_cuts_by_characters() {
    assert_eq!(slice_text("héllo", 1, 3), "él");
    assert_eq!(slice_text("héllo", 0, 0), "");
    assert_eq!(slice_text("héllo", 0, 5), "héllo");
}

#[test]
fn decimal_text_writes_numbers() {
    assert_eq!(decimal_text(0), "0");
    assert_eq!(decimal_text(7), "7");
    assert_eq!(decimal_text(10), "10");
    assert_eq!(decimal_text(1234567890), "1234567890");
    assert_eq!(decimal_text(usize::MAX), usize::MAX.to_string());
}
