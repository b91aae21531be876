use preduce::lines::{count_lines, newline_terminated_lines, remove_lines};

#[test]
fn counting_lines() {
    assert_eq!(count_lines(b""), 0);
    assert_eq!(count_lines(b"a"), 1);
    assert_eq!(count_lines(b"a\n"), 1);
    assert_eq!(count_lines(b"a\nb"), 2);
    assert_eq!(count_lines(b"\n\n"), 2);
}

#[test]
fn newline_terminated_lines_include_the_newline() {
    assert_eq!(newline_terminated_lines(b"ab\n\ncd"), vec![0..3, 3..4]);
}

#[test]
fn removing_lines() {
    let seed = b"zero\none\ntwo\nthree";
    assert_eq!(remove_lines(seed, 1, 3), b"zero\nthree".to_vec());
    assert_eq!(remove_lines(seed, 0, 1), b"one\ntwo\nthree".to_vec());
    assert_eq!(remove_lines(seed, 3, 4), b"zero\none\ntwo\n".to_vec());
}
