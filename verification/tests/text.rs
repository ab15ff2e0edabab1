use iptv_manager::text::{
    chars_of, contains, decimal_text, ends_with, eq_ignore_ascii_case, is_whitespace, starts_with,
    text_after, text_before, trim, trim_end_matches,
};

#[test]
fn trimming_takes_white_space_from_both_ends() {
    assert_eq!(trim("  a b\t\n"), "a b");
    assert_eq!(trim(""), "");
    assert_eq!(trim(" \u{3000}\u{a0}\u{85}"), "");
    assert_eq!(trim("\u{2003}ș\u{2028}"), "ș");
    assert_eq!(trim(&trim("  x  ")), trim("  x  "));
}

#[test]
fn white_space_is_that_of_unicode() {
    for n in 0..=0x10ffffu32 {
        if let Some(c) = char::from_u32(n) {
            assert_eq!(is_whitespace(c), c.is_whitespace(), "{:x}", n);
        }
    }
}

#[test]
fn trailing_characters_are_taken_off() {
    assert_eq!(trim_end_matches("http://a///", '/'), "http://a");
    assert_eq!(trim_end_matches("http://a", '/'), "http://a");
    assert_eq!(trim_end_matches("///", '/'), "");
    assert_eq!(trim_end_matches("", '/'), "");
}

#[test]
fn texts_are_cut_at_a_character() {
    assert_eq!(text_before("a?b?c", '?'), "a");
    assert_eq!(text_before("abc", '?'), "abc");
    assert_eq!(text_before("?abc", '?'), "");
    assert_eq!(text_after("a/b/c", '/'), "c");
    assert_eq!(text_after("abc", '/'), "abc");
    assert_eq!(text_after("abc/", '/'), "");
}

#[test]
fn parts_are_found() {
    for (s, part) in [
        ("mpv-x86_64.7z", "x86_64"),
        ("mpv-x86_64.7z", ""),
        ("", ""),
        ("", "a"),
        ("aab", "ab"),
        ("aaa", "aaaa"),
        ("șțș", "țș"),
        ("abc", "abc"),
        ("abc", "ac"),
    ] {
        assert_eq!(contains(s, part), s.contains(part), "{} {}", s, part);
        assert_eq!(starts_with(s, part), s.starts_with(part), "{} {}", s, part);
        assert_eq!(ends_with(s, part), s.ends_with(part), "{} {}", s, part);
    }
}

#[test]
fn case_of_ascii_letters_is_ignored() {
    assert!(eq_ignore_ascii_case("MPV.exe", "mpv.EXE"));
    assert!(!eq_ignore_ascii_case("mpv.exe", "mpv.ex"));
    assert!(!eq_ignore_ascii_case("Ș", "ș"));
    assert!(!eq_ignore_ascii_case("@", "`"));
    assert!(!eq_ignore_ascii_case("[", "{"));
}

#[test]
fn numbers_are_written_in_decimal() {
    for n in [0u64, 7, 9, 10, 99, 100, 1_000_000, 1_234_567_890, u64::MAX] {
        assert_eq!(decimal_text(n), n.to_string());
    }
}

#[test]
fn characters_come_in_order() {
    assert_eq!(chars_of("aș€"), vec!['a', 'ș', '€']);
}
