use preduce::finders::{
    balanced_ranges, regex_ranges, Blank, Chunks, RemoveBalanced, RemoveBalancedReducer, RemoveRegex,
    RemoveRegexReducer,
};
use preduce::ranges::RemoveRanges;
use std::marker::PhantomData;

#[test]
fn chunks_are_the_newline_terminated_lines() {
    assert_eq!(Chunks::remove_ranges(b"a\nbc\n\nd"), vec![0..2, 2..5, 5..6]);
    assert_eq!(Chunks::remove_ranges(b""), vec![]);
}

#[test]
fn balanced_ranges_span_brackets_and_contents() {
    // "{a{b}}": the inner pair at 2..5 with contents 3..4, the outer pair at
    // 0..6 with contents 1..5.
    assert_eq!(balanced_ranges(b"{a{b}}", b'{', b'}'), vec![2..5, 3..4, 0..6, 1..5]);
    // Empty contents give no contents range; unmatched brackets are ignored.
    assert_eq!(balanced_ranges(b"}{}{", b'{', b'}'), vec![1..3]);
}

struct Squares;

impl RemoveBalanced for Squares {
    fn remove_balanced() -> (u8, u8) {
        (b'[', b']')
    }
}

#[test]
fn remove_balanced_reducer_uses_its_brackets() {
    let ranges = <RemoveBalancedReducer<Squares> as RemoveRanges>::remove_ranges(b"x[yz]{w}");
    assert_eq!(ranges, vec![1..5, 2..4]);
    let _ = RemoveBalancedReducer::<Squares>(PhantomData);
}

#[test]
fn blank_lines_are_white_space_only() {
    let seed = "a\n  \t\n\nb \n \u{3000}\u{a0}\n   ";
    // Lines: "a\n" 0..2, "  \t\n" 2..6, "\n" 6..7, "b \n" 7..10,
    // " \u{3000}\u{a0}\n" 10..17, "   " 17..20.
    assert_eq!(Blank::remove_ranges(seed.as_bytes()), vec![2..6, 6..7, 10..17, 17..20]);
    assert_eq!(Blank::remove_ranges(b"x"), vec![]);
}

struct Includes;

impl RemoveRegex for Includes {
    fn remove_regex() -> &'static str {
        r#"(?m)(^\s*#\s*include.*$)"#
    }
}

#[test]
fn regex_ranges_are_capture_groups() {
    let seed = b"#include <a>\nint x;\n  # include \"b\"\n";
    assert_eq!(regex_ranges(r#"(?m)(^\s*#\s*include.*$)"#, seed), vec![0..12, 20..35]);
    assert_eq!(<RemoveRegexReducer<Includes> as RemoveRanges>::remove_ranges(seed), vec![0..12, 20..35]);
    // Only groups that took part in a match and are not empty count, and
    // never the whole match.
    assert_eq!(regex_ranges(r"a(b)?(c*)", b"ac abcc"), vec![1..2, 4..5, 5..7]);
    // An invalid regex finds nothing.
    assert_eq!(regex_ranges(r"(", b"abc"), vec![]);
}
