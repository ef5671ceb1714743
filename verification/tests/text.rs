use release_engine::text::{
    after_last_chars, char_is_whitespace, chars_lt, chars_of, contains_chars, decimal_chars,
    last_word_chars, split_lines, split_once_chars, starts_with_chars, trim_chars,
};

fn text(chars: &Vec<char>) -> String {
    chars.iter().collect()
}

fn lines_of(s: &str) -> Vec<String> {
    split_lines(&chars_of(s)).iter().map(text).collect()
}

#[test]
fn white_space_is_what_the_standard_library_says() {
    for code in 0..=0x10FFFFu32 {
        if let Some(c) = char::from_u32(code) {
            assert_eq!(char_is_whitespace(c), c.is_whitespace(), "U+{code:04X}");
        }
    }
}

#[test]
fn characters_are_read_in_order() {
    assert_eq!(chars_of("añ🤖"), vec!['a', 'ñ', '🤖']);
    assert_eq!(chars_of(""), Vec::<char>::new());
}

#[test]
fn lines_are_those_of_the_standard_library() {
    let samples = [
        "",
        "\n",
        "a",
        "a\n",
        "a\nb",
        "a\r\nb\r\n",
        "a\r",
        "a\r\n\r\nb",
        "\r\n",
        "\n\n\n",
        "one\ntwo\r\nthree\rfour\n\rfive",
        " lead\n trail \n",
    ];
    for sample in samples {
        let expected: Vec<String> = sample.lines().map(|l| l.to_string()).collect();
        assert_eq!(lines_of(sample), expected, "{sample:?}");
    }
}

#[test]
fn a_final_carriage_return_without_line_feed_stays() {
    assert_eq!(lines_of("a\nb\r"), vec!["a", "b\r"]);
}

#[test]
fn trimming_is_that_of_the_standard_library() {
    let samples = ["", " ", "a", "  a b  ", "\t\n a\u{a0}", "\u{3000}x\u{2003}", "a\r\n", " \u{85} "];
    for sample in samples {
        assert_eq!(text(&trim_chars(&chars_of(sample))), sample.trim(), "{sample:?}");
    }
}

#[test]
fn what_follows_the_last_separator() {
    let samples = ["", "a", "a b", "a b ", " ", "D  crates/x", "a  b c"];
    for sample in samples {
        let expected = sample.rsplit(' ').next().unwrap();
        assert_eq!(text(&after_last_chars(&chars_of(sample), ' ')), expected, "{sample:?}");
    }
}

#[test]
fn last_word_is_that_of_the_standard_library() {
    let samples = ["", "   ", "main", "* main", "  remotes/origin/main  ", "a\tb\u{a0}c "];
    for sample in samples {
        let expected = sample.split_whitespace().last().map(|w| w.to_string());
        assert_eq!(last_word_chars(&chars_of(sample)).map(|w| text(&w)), expected, "{sample:?}");
    }
}

#[test]
fn cutting_at_the_first_separator() {
    let samples = ["", "origin/main", "origin/feature/x", "/", "none", "a/"];
    for sample in samples {
        let expected = sample.split_once('/').map(|(a, b)| (a.to_string(), b.to_string()));
        let found = split_once_chars(&chars_of(sample), '/').map(|(a, b)| (text(&a), text(&b)));
        assert_eq!(found, expected, "{sample:?}");
    }
}

#[test]
fn searching_is_that_of_the_standard_library() {
    let texts = ["", "a", "abc", "aab", "fatal: no upstream", "xxfatalxx"];
    let patterns = ["", "a", "ab", "b", "fatal", "c", "abcd"];
    for t in texts {
        for p in patterns {
            assert_eq!(contains_chars(&chars_of(t), &chars_of(p)), t.contains(p), "{t:?} {p:?}");
            assert_eq!(
                starts_with_chars(&chars_of(t), &chars_of(p)),
                t.starts_with(p),
                "{t:?} {p:?}"
            );
        }
    }
}

#[test]
fn numbers_are_written_in_decimal() {
    for n in [0u64, 1, 9, 10, 11, 99, 100, 12345, u64::MAX] {
        assert_eq!(text(&decimal_chars(n)), n.to_string());
    }
}

#[test]
fn texts_are_ordered_as_strings_are() {
    let samples = ["", "a", "ab", "b", "binary", "library1", "library2", "é", "z", "Z"];
    for a in samples {
        for b in samples {
            assert_eq!(chars_lt(&chars_of(a), &chars_of(b)), a < b, "{a:?} {b:?}");
        }
    }
}
