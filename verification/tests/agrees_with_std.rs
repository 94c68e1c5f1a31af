use mad::commands::rcal_tasks::{lines, replaced_first};
use mad::text;

fn sample_texts() -> Vec<&'static str> {
    vec![
        "",
        " ",
        "a",
        "  a b  ",
        "\t\n x \r\n",
        "\u{00A0}nbsp\u{00A0}",
        "\u{3000}wide\u{2003}",
        "no space",
        "---\ntitle: x\n---\nbody",
        "a\nb\r\nc\n",
        "a\r",
        "\n",
        "\r\n",
        "a\n\nb",
        "line\r\n\r\nend\r",
        "{{a}}{{b}}{{a}}",
        "aaaa",
        "abcabcabc",
        "ñandú → árbol",
        "{ #tag/path }\n\ntext",
        "x/y//z/",
        "/",
        "//",
    ]
}

fn sample_patterns() -> Vec<&'static str> {
    vec!["a", "aa", "b", "abc", "\n", "\r\n", "{{a}}", " ", "/", "---", "→", "zz", "\n---", " }"]
}

fn to_chars(s: &str) -> Vec<char> {
    s.chars().collect()
}

fn to_string(v: &Vec<char>) -> String {
    v.iter().collect()
}

fn char_index(s: &str, byte_index: usize) -> usize {
    s[..byte_index].chars().count()
}

#[test]
fn trimming_is_that_of_std() {
    for s in sample_texts() {
        let v = to_chars(s);
        assert_eq!(to_string(&text::trimmed(&v)), s.trim(), "{:?}", s);
        assert_eq!(to_string(&text::trimmed_start(&v)), s.trim_start(), "{:?}", s);
        assert_eq!(to_string(&text::trimmed_end(&v)), s.trim_end(), "{:?}", s);
    }
}

#[test]
fn finding_is_that_of_std() {
    for s in sample_texts() {
        for p in sample_patterns() {
            let found = text::find_in(&to_chars(s), &to_chars(p));
            let expected = s.find(p).map(|i| char_index(s, i));
            assert_eq!(found, expected, "{:?} {:?}", s, p);
            assert_eq!(text::has_at(&to_chars(s), &to_chars(p), 0), s.starts_with(p));
            assert_eq!(text::has_suffix(&to_chars(s), &to_chars(p)), s.ends_with(p));
        }
    }
}

#[test]
fn replacing_is_that_of_std() {
    for s in sample_texts() {
        for p in sample_patterns() {
            for r in ["", "X", "{{a}}", "aa"] {
                let out = text::replaced(&to_chars(s), &to_chars(p), &to_chars(r));
                assert_eq!(to_string(&out), s.replace(p, r), "{:?} {:?} {:?}", s, p, r);
                let first = replaced_first(&to_chars(s), &to_chars(p), &to_chars(r));
                let expected = if s.contains(p) { Some(s.replacen(p, r, 1)) } else { None };
                assert_eq!(first.map(|v| to_string(&v)), expected, "{:?} {:?} {:?}", s, p, r);
            }
        }
    }
}

#[test]
fn splitting_and_joining_are_those_of_std() {
    for s in sample_texts() {
        for sep in ['/', '\n', ' ', 'a', '→'] {
            let pieces: Vec<String> = text::split_on(&to_chars(s), sep).iter().map(to_string).collect();
            let expected: Vec<&str> = s.split(sep).collect();
            assert_eq!(pieces, expected, "{:?} {:?}", s, sep);
            let joined = text::join_strings(&pieces, &vec![sep]);
            assert_eq!(to_string(&joined), s);
        }
    }
}

#[test]
fn lines_are_those_of_std() {
    for s in sample_texts() {
        let found: Vec<String> = lines(&to_chars(s)).iter().map(to_string).collect();
        let expected: Vec<&str> = s.lines().collect();
        assert_eq!(found, expected, "{:?}", s);
    }
}
