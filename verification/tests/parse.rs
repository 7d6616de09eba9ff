use turing::parse::strip_comments;

#[test]
fn strips_trailing_comment() {
    assert_eq!(strip_comments("0 1 f 1 R // note"), "0 1 f 1 R\n");
}

#[test]
fn drops_whole_line_comments() {
    assert_eq!(strip_comments("// header\n0 1 f 1 R\n"), "0 1 f 1 R\n");
    assert_eq!(strip_comments("   // only spaces before\n"), "");
}

#[test]
fn trims_lines_and_keeps_empty_ones() {
    assert_eq!(strip_comments("  a  \n\n b\r\n"), "a\n\nb\n");
}

#[test]
fn adds_newline_to_unterminated_last_line() {
    assert_eq!(strip_comments("a\nb"), "a\nb\n");
}

#[test]
fn empty_input_stays_empty() {
    assert_eq!(strip_comments(""), "");
}

#[test]
fn comment_in_the_middle_keeps_trimmed_prefix() {
    assert_eq!(strip_comments("0 B f B R   // blank rule\n// gone\nx"), "0 B f B R\nx\n");
}
