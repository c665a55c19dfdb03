use liwinux::words::{join, lines, parse_within, trim, trim_end, words, wrap};

#[test]
fn wrap_respects_width_and_keeps_all_words() {
    let s = "one two three four five six seven eight nine ten";
    let lines = wrap(s, 12);
    assert!(lines.iter().all(|l| l.chars().count() <= 12), "{lines:?}");
    assert_eq!(lines.join(" "), s, "no word may be lost");
}

#[test]
fn wrap_handles_empty() {
    assert!(wrap("", 20).is_empty());
}

#[test]
fn wrap_keeps_overlong_word() {
    assert_eq!(wrap("anextremelylongword", 5), vec!["anextremelylongword"]);
}

#[test]
fn wrap_keeps_every_word_within_width() {
    let t = "short words in a long piece of text must wrap and no \
             word may be lost";
    let ls = wrap(t, 20);
    assert!(ls.iter().all(|l| l.chars().count() <= 20), "{ls:?}");
    assert_eq!(ls.join(" ").split_whitespace().count(), t.split_whitespace().count());
}

#[test]
fn wrap_keeps_every_word() {
    let s = "the decoder runs on the cpu while the gpu block sits idle";
    assert_eq!(wrap(s, 20).join(" "), s);
}

#[test]
fn wrap_respects_width() {
    assert!(wrap("aaa bbb ccc ddd eee", 7).iter().all(|l| l.chars().count() <= 7));
}

#[test]
fn wrapping_breaks_where_the_next_word_does_not_fit() {
    assert_eq!(wrap("aaa bbb ccc ddd eee", 7), vec!["aaa bbb", "ccc ddd", "eee"]);
    assert_eq!(wrap("  spread \n out  ", 80), vec!["spread out"]);
}

/// Words, lines and trimming agree with the standard library.
#[test]
fn splitting_agrees_with_the_standard_library() {
    for s in [
        "", " ", "a", "  a  b\tc\n", "one\ntwo\r\nthree", "\n\n", "tail\n", "x\r", "\u{a0}wide\u{2003}",
        "no end\r\n\r\n", "\u{85}next\u{3000}",
    ] {
        assert_eq!(words(s), s.split_whitespace().collect::<Vec<_>>(), "{s:?}");
        assert_eq!(lines(s), s.lines().collect::<Vec<_>>(), "{s:?}");
        assert_eq!(trim(s), s.trim(), "{s:?}");
        assert_eq!(trim_end(s), s.trim_end(), "{s:?}");
    }
}

#[test]
fn joining_puts_the_separator_between() {
    let v = vec!["a".to_string(), "b".to_string(), "c".to_string()];
    assert_eq!(join(&v, ", "), "a, b, c");
    assert_eq!(join(&Vec::new(), ", "), "");
}

#[test]
fn numbers_are_read_within_their_bounds() {
    for s in ["0", "42", "+7", "4294967295", "4294967296", "", "-1", " 1", "1x", "+", "007"] {
        assert_eq!(parse_within(s, u32::MAX as u64), s.parse::<u32>().ok().map(u64::from), "{s:?}");
    }
    assert_eq!(parse_within("18446744073709551615", u64::MAX), Some(u64::MAX));
    assert_eq!(parse_within("18446744073709551616", u64::MAX), None);
}
