use warroom_scribe::text::{
    chars_of, contains, is_white_space, join_strings, lower_ascii, parse_u64, push_decimal,
    push_two_digits, split_lines, split_words, trim,
};

fn owned(texts: &[&str]) -> Vec<String> {
    texts.iter().map(|t| t.to_string()).collect()
}

const SAMPLES: [&str; 9] = [
    "",
    " ",
    "bonjour",
    "  bonjour à tous \n",
    "\t\u{a0}\u{3000}été\u{2028}",
    "a b  c",
    "\u{200b}pas une espace\u{200b}",
    "un\ndeux\n\ntrois\n",
    "\u{85}\u{1680}x\u{202f}y\u{205f}",
];

#[test]
fn white_space_is_that_of_unicode() {
    for n in 0..=0x10ffffu32 {
        if let Some(c) = char::from_u32(n) {
            assert_eq!(is_white_space(c), c.is_whitespace(), "{:x}", n);
        }
    }
}

#[test]
fn trim_removes_white_space_at_both_ends() {
    assert_eq!(trim("  bonjour à tous \n"), "bonjour à tous");
    for s in SAMPLES {
        assert_eq!(trim(s), s.trim());
    }
}

#[test]
fn trimming_twice_changes_nothing() {
    for s in SAMPLES {
        let once = trim(s);
        assert_eq!(trim(&once), once);
    }
}

#[test]
fn blanks_around_a_text_are_removed() {
    for s in SAMPLES {
        for blank in ["", " ", "\n\t", "\u{3000}\u{85} "] {
            assert_eq!(trim(&format!("{}{}{}", blank, s, blank)), trim(s));
        }
    }
}

#[test]
fn ascii_capitals_are_lowered() {
    assert_eq!(lower_ascii("ABC xyz ÉÀ [@Z{`]"), "abc xyz ÉÀ [@z{`]");
    for s in SAMPLES {
        let shouted = s.to_uppercase();
        assert_eq!(lower_ascii(&shouted), shouted.to_ascii_lowercase());
    }
}

#[test]
fn words_stand_between_white_space() {
    assert_eq!(split_words("  a\u{a0}bc \n d"), owned(&["a", "bc", "d"]));
    for s in SAMPLES {
        let expected: Vec<&str> = s.split_whitespace().collect();
        assert_eq!(split_words(s), owned(&expected));
    }
}

#[test]
fn lines_stand_between_line_feeds() {
    assert_eq!(split_lines("un\n\ndeux\n"), owned(&["un", "", "deux", ""]));
    assert_eq!(split_lines(""), owned(&[""]));
    for s in SAMPLES {
        let expected: Vec<&str> = s.split('\n').collect();
        assert_eq!(split_lines(s), owned(&expected));
        assert_eq!(join_strings(&split_lines(s), "\n"), s);
    }
}

#[test]
fn parts_are_joined_with_the_separator_between() {
    assert_eq!(join_strings(&owned(&["a", "b", "c"]), ", "), "a, b, c");
    assert_eq!(join_strings(&owned(&["a"]), ", "), "a");
    assert_eq!(join_strings(&Vec::new(), ", "), "");
}

#[test]
fn a_part_is_found_where_it_stands() {
    let text = chars_of("été aabaab");
    for part in ["", "é", "été", "aab", "baab", "aabaab", "été aabaab"] {
        assert!(contains(&text, &chars_of(part)), "{}", part);
    }
    for part in ["aba ", "x", "aabaabx", "été aabaabb", "ETE"] {
        assert!(!contains(&text, &chars_of(part)), "{}", part);
    }
    assert!(contains(&Vec::new(), &Vec::new()));
}

#[test]
fn numbers_are_printed_in_decimal() {
    for (n, expected) in [
        (0u64, "0"),
        (9, "9"),
        (10, "10"),
        (305, "305"),
        (u64::MAX, "18446744073709551615"),
    ] {
        let mut s = "n=".to_string();
        push_decimal(&mut s, n);
        assert_eq!(s, format!("n={}", expected));
    }
    for (n, expected) in [(0u64, "00"), (7, "07"), (10, "10"), (123, "123")] {
        let mut s = String::new();
        push_two_digits(&mut s, n);
        assert_eq!(s, expected);
    }
}

#[test]
fn numbers_are_read_as_the_standard_library_reads_them() {
    for s in [
        "0", "300", "+300", "007", "18446744073709551615", "18446744073709551616",
        "99999999999999999999999", "", "+", "-1", "++1", " 1", "1 ", "1a", "١", "1_000",
    ] {
        assert_eq!(parse_u64(s), s.parse::<u64>().ok(), "{:?}", s);
    }
    assert_eq!(parse_u64("+300"), Some(300));
    assert_eq!(parse_u64("18446744073709551616"), None);
}
