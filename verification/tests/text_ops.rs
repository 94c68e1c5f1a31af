use mad::text;

fn chars(s: &str) -> Vec<char> {
    s.chars().collect()
}

fn string(v: &Vec<char>) -> String {
    v.iter().collect()
}

#[test]
fn whitespace_is_what_unicode_says() {
    for c in [' ', '\t', '\n', '\r', '\u{0B}', '\u{0C}', '\u{85}', '\u{A0}', '\u{1680}', '\u{2000}', '\u{200A}', '\u{2028}', '\u{2029}', '\u{202F}', '\u{205F}', '\u{3000}'] {
        assert!(text::char_is_space(c));
        assert!(c.is_whitespace());
    }
    for c in ['a', '0', '\u{200B}', '\u{FEFF}', '\u{1F}', '_'] {
        assert!(!text::char_is_space(c));
        assert!(!c.is_whitespace());
    }
}

#[test]
fn whitespace_agrees_with_std_on_every_character() {
    let mut n: u32 = 0;
    while n <= 0x10FFFF {
        if let Some(c) = char::from_u32(n) {
            assert_eq!(text::char_is_space(c), c.is_whitespace());
        }
        n += 1;
    }
}

#[test]
fn trimming_takes_whitespace_from_the_ends() {
    assert_eq!(string(&text::trimmed(&chars("  a b \n"))), "a b");
    assert_eq!(string(&text::trimmed_start(&chars("  a b \n"))), "a b \n");
    assert_eq!(string(&text::trimmed_end(&chars("  a b \n"))), "  a b");
    assert_eq!(string(&text::trimmed(&chars("   "))), "");
    assert_eq!(string(&text::trimmed(&chars(""))), "");
    assert_eq!(text::count_leading_spaces(&chars(" \t x ")), 3);
}

#[test]
fn finding_gives_the_first_place() {
    let v = chars("abcabc");
    assert_eq!(text::find_in(&v, &chars("bc")), Some(1));
    assert_eq!(text::find_in_from(&v, &chars("bc"), 2), Some(4));
    assert_eq!(text::find_in(&v, &chars("cb")), None);
    assert_eq!(text::find_in(&v, &chars("")), Some(0));
    assert_eq!(text::find_in_from(&v, &chars(""), 6), Some(6));
    assert_eq!(text::find_in_from(&v, &chars(""), 7), None);
    assert!(text::has_at(&v, &chars("abc"), 3));
    assert!(!text::has_at(&v, &chars("abc"), 4));
    assert!(text::has_suffix(&v, &chars("bc")));
    assert_eq!(text::position_of(&v, 'c'), 2);
    assert_eq!(text::position_of(&v, 'x'), 6);
    assert!(!text::has_suffix(&v, &chars("abcabca")));
}

#[test]
fn splitting_keeps_empty_pieces() {
    let pieces: Vec<String> = text::split_on(&chars("a//b/"), '/').iter().map(string).collect();
    assert_eq!(pieces, vec!["a", "", "b", ""]);
    let pieces: Vec<String> = text::split_on(&chars(""), '/').iter().map(string).collect();
    assert_eq!(pieces, vec![""]);
    let std_pieces: Vec<&str> = "a//b/".split('/').collect();
    assert_eq!(std_pieces, vec!["a", "", "b", ""]);
}

#[test]
fn joining_undoes_splitting() {
    let parts = vec!["a".to_string(), "".to_string(), "b".to_string()];
    assert_eq!(string(&text::join_strings(&parts, &chars("/"))), "a//b");
    assert_eq!(string(&text::join_strings(&vec![], &chars("/"))), "");
    let pieces = text::split_on(&chars("x, y, z"), ',');
    assert_eq!(string(&text::join_chars(&pieces, &chars(","))), "x, y, z");
}

#[test]
fn replacing_goes_from_left_to_right() {
    assert_eq!(string(&text::replaced(&chars("aaa"), &chars("aa"), &chars("b"))), "ba");
    assert_eq!(string(&text::replaced(&chars("a-b-c"), &chars("-"), &chars("--"))), "a--b--c");
    assert_eq!(string(&text::replaced(&chars("abc"), &chars("x"), &chars("y"))), "abc");
    assert_eq!(string(&text::replaced(&chars("abc"), &chars(""), &chars("y"))), "abc");
    assert_eq!("aaa".replace("aa", "b"), "ba");
}

#[test]
fn the_order_of_texts_is_the_order_of_strings() {
    let cases = ["", "a", "ab", "b", "B", "é", "z", "aa", "a b", "\u{10000}", "\u{FFFF}"];
    for x in cases {
        for y in cases {
            assert_eq!(text::comes_before(&chars(x), &chars(y)), x < y, "{:?} {:?}", x, y);
        }
    }
}

#[test]
fn slices_and_appends_copy_characters() {
    let v = chars("hello");
    assert_eq!(string(&text::slice(&v, 1, 3)), "el");
    assert_eq!(string(&text::slice(&v, 5, 5)), "");
    let mut w = chars("ab");
    text::append(&mut w, &v);
    assert_eq!(string(&w), "abhello");
    assert_eq!(text::chars_of("añb"), vec!['a', 'ñ', 'b']);
    assert_eq!(text::strings_of(&vec![chars("x"), chars("")]), vec!["x", ""]);
}
