use miniserve::text::{
    find, push_decimal, rank, same_text, split, substring, to_chars, white_space, Rank,
};

fn pieces(s: &str, pat: &str) -> Vec<String> {
    s.split(pat).map(|p| p.to_string()).collect()
}

#[test]
fn split_gives_the_pieces_between_the_patterns() {
    assert_eq!(split("a/b/c", "/"), vec!["a", "b", "c"]);
    assert_eq!(split("", "/"), vec![""]);
    assert_eq!(split("/", "/"), vec!["", ""]);
    assert_eq!(split("abc", "/"), vec!["abc"]);
    assert_eq!(split("a\n\n\nb", "\n\n"), vec!["a", "\nb"]);
    assert_eq!(split("\n\n\n\n", "\n\n"), vec!["", "", ""]);
    assert_eq!(split("abc", ""), vec!["abc"]);
    assert_eq!(split("", ""), vec![""]);
}

#[test]
fn split_agrees_with_the_standard_library() {
    for (s, pat) in [
        ("a b  c ", " "),
        ("aaaa", "aa"),
        ("aaa", "aa"),
        ("x\n\ny\n\n\n\nz\n", "\n\n"),
        ("é—é", "—"),
        ("", "ab"),
        ("ab", "ab"),
        ("abab", "ab"),
    ] {
        assert_eq!(split(s, pat), pieces(s, pat), "{:?} by {:?}", s, pat);
    }
}

#[test]
fn find_gives_the_first_place_or_the_length() {
    let chars = to_chars("hello world");
    assert_eq!(find(&chars, &to_chars("o"), 0), 4);
    assert_eq!(find(&chars, &to_chars("o"), 5), 7);
    assert_eq!(find(&chars, &to_chars("o"), 8), 11);
    assert_eq!(find(&chars, &to_chars("world"), 0), 6);
    assert_eq!(find(&chars, &to_chars("worlds"), 0), 11);
    assert_eq!(find(&chars, &to_chars(""), 3), 3);
    assert_eq!(substring(&chars, 6, 11), "world");
    assert_eq!(substring(&chars, 3, 3), "");
}

#[test]
fn decimal_numerals() {
    let cases = [(0usize, "0"), (7, "7"), (10, "10"), (99, "99"), (100, "100"), (1205, "1205")];
    for (n, text) in cases {
        let mut out = String::from("n=");
        push_decimal(&mut out, n);
        assert_eq!(out, format!("n={}", text));
    }
    let mut out = String::new();
    push_decimal(&mut out, usize::MAX);
    assert_eq!(out, usize::MAX.to_string());
}

#[test]
fn rank_is_the_order_of_strings() {
    assert_eq!(rank("a", "b"), Rank::Before);
    assert_eq!(rank("b", "a"), Rank::After);
    assert_eq!(rank("a", "a"), Rank::Same);
    assert_eq!(rank("", ""), Rank::Same);
    assert_eq!(rank("", "a"), Rank::Before);
    assert_eq!(rank("ab", "a"), Rank::After);
    assert_eq!(rank("Z", "a"), Rank::Before);
    assert_eq!(rank("z", "é"), Rank::Before);
    assert!(same_text("é", "é"));
    assert!(!same_text("e", "é"));
}

#[test]
fn white_space_is_that_of_the_standard_library() {
    for code in 0u32..0x3100 {
        if let Some(c) = char::from_u32(code) {
            assert_eq!(white_space(c), c.is_whitespace(), "U+{:04X}", code);
        }
    }
    assert!(!white_space('\u{feff}'));
    assert!(!white_space('\u{10ffff}'));
}
