use yangparse::util::dedent;

#[test]
fn dedent_strips_common_indentation() {
    assert_eq!(dedent("    a\n      b\n    c\n"), "a\n  b\nc\n");
}

#[test]
fn dedent_drops_leading_and_trailing_blank_lines() {
    assert_eq!(dedent("\n\n    a\n    b\n\n"), "a\nb\n");
}

#[test]
fn dedent_ignores_blank_lines_when_finding_the_indent() {
    // The middle line is blank, so only the outer lines count.
    assert_eq!(dedent("  a\n\n  b\n"), "a\n\nb\n");
}

#[test]
fn dedent_trims_trailing_whitespace_per_line() {
    assert_eq!(dedent("  a  \n  b\t\n"), "a\nb\n");
}

#[test]
fn dedent_of_blank_text_is_a_single_line_feed() {
    assert_eq!(dedent(""), "\n");
    assert_eq!(dedent("   \n  \n"), "\n");
}

#[test]
fn dedent_keeps_deeper_relative_indentation() {
    let text = "
        module test {
            leaf foo;
        }
        ";
    assert_eq!(dedent(text), "module test {\n    leaf foo;\n}\n");
}

#[test]
fn dedent_without_trailing_newline() {
    assert_eq!(dedent("  a"), "a\n");
}

#[test]
fn dedent_treats_unicode_whitespace_lines_as_blank() {
    // The middle line holds only a no-break space: it is blank, so it does
    // not drag the minimum indent down to zero, and it strips to nothing.
    assert_eq!(dedent("  a\n\u{a0}\n  b\n"), "a\n\nb\n");
    // A trailing no-break space is trimmed like any other whitespace.
    assert_eq!(dedent("  a\u{a0}\n"), "a\n");
}
