use yangparse::errors::ParseError;
use yangparse::formatting::HumanReadableTokensExt;
use yangparse::lexing::{scan, Token, TokenType, TextPosition};
use yangparse::util::dedent;

/// Scans the whole buffer, panicking on scan errors.
fn scan_all(buffer: &[u8]) -> Vec<Token> {
    let mut tokens: Vec<Token> = Vec::new();
    let mut iter = scan(buffer);

    loop {
        match iter.next() {
            Ok(Some(token)) => tokens.push(token),
            Ok(None) => break,
            Err(error) => panic!("Parse error: {:?}", error),
        }
    }

    tokens
}

/// Scans until the first error, panicking if none occurs.
fn scan_error(buffer: &[u8]) -> ParseError {
    let mut iter = scan(buffer);

    loop {
        match iter.next() {
            Ok(Some(_)) => continue,
            Ok(None) => panic!("expected a scan error"),
            Err(error) => return error,
        }
    }
}

#[test]
fn test_scan() {
    let buffer: Vec<u8> = dedent(
        r#"
             module test {
                 namespace "A double quoted string";
                 description 'A single quoted string';

                 revision 2018-12-03 {
                     // I'm a comment!
                 }

                 number 0;
                 number 123;
                 number -123;
                 number 123.12345;
                 number -123.12345;

                 not-number 0123;
                 not-number abc123;

                 /* I'm a multi-line comment */

                 /*
                  * I'm a weird multi-line comment thingy
                  */
             }
             "#,
    )
    .bytes()
    .collect();

    let tokens: Vec<Token> = scan_all(&buffer);

    assert_eq!(
        dedent(
            r#"
                Other                0 -> 5          "module"
                Other                7 -> 10         "test"
                OpenCurlyBrace       12 -> 12        "{"
                Other                18 -> 26        "namespace"
                String               28 -> 51        "\"A double quoted string\""
                SemiColon            52 -> 52        ";"
                Other                58 -> 68        "description"
                String               70 -> 93        "'A single quoted string'"
                SemiColon            94 -> 94        ";"
                Other                101 -> 108      "revision"
                Date                 110 -> 119      "2018-12-03"
                OpenCurlyBrace       121 -> 121      "{"
                Comment              131 -> 147      "// I'm a comment!"
                ClosingCurlyBrace    153 -> 153      "}"
                Other                160 -> 165      "number"
                Number               167 -> 167      "0"
                SemiColon            168 -> 168      ";"
                Other                174 -> 179      "number"
                Number               181 -> 183      "123"
                SemiColon            184 -> 184      ";"
                Other                190 -> 195      "number"
                Number               197 -> 200      "-123"
                SemiColon            201 -> 201      ";"
                Other                207 -> 212      "number"
                Number               214 -> 222      "123.12345"
                SemiColon            223 -> 223      ";"
                Other                229 -> 234      "number"
                Number               236 -> 245      "-123.12345"
                SemiColon            246 -> 246      ";"
                Other                253 -> 262      "not-number"
                Other                264 -> 267      "0123"
                SemiColon            268 -> 268      ";"
                Other                274 -> 283      "not-number"
                Other                285 -> 290      "abc123"
                SemiColon            291 -> 291      ";"
                Comment              298 -> 327      "/* I'm a multi-line comment */"
                Comment              334 -> 388      "/*\n     * I'm a weird multi-line comment thingy\n     */"
                ClosingCurlyBrace    390 -> 390      "}"
                "#
        ),
        tokens.human_readable_string(),
    );
}

#[test]
fn number_pattern_classification() {
    for text in ["0", "123", "-123", "123.12345", "-123.12345", "-0", "9.0"] {
        let tokens = scan_all(text.as_bytes());
        assert_eq!(tokens.len(), 1);
        assert_eq!(tokens[0].token_type, TokenType::Number, "{}", text);
    }

    // A leading zero, a zero integer part with a fraction, a bare minus and
    // a trailing dot all fail the numeric pattern.
    for text in ["0123", "abc123", "0.5", "-", "1.", "1.2.3", "--1"] {
        let tokens = scan_all(text.as_bytes());
        assert_eq!(tokens.len(), 1);
        assert_eq!(tokens[0].token_type, TokenType::Other, "{}", text);
    }
}

#[test]
fn date_pattern_classification() {
    let tokens = scan_all(b"2024-01-15");
    assert_eq!(tokens.len(), 1);
    assert_eq!(tokens[0].token_type, TokenType::Date);
    assert_eq!(tokens[0].text, "2024-01-15");

    // No calendar validation is performed.
    let tokens = scan_all(b"9999-99-99");
    assert_eq!(tokens[0].token_type, TokenType::Date);

    // Too short, too long, or misplaced dashes classify Other.
    for text in ["2024-1-15", "2024-01-155", "2024-01-1x"] {
        let tokens = scan_all(text.as_bytes());
        assert_eq!(tokens[0].token_type, TokenType::Other, "{}", text);
    }

    // The numeric pattern is tried first: an eight-digit run is a Number,
    // never a Date.
    let tokens = scan_all(b"20240115");
    assert_eq!(tokens[0].token_type, TokenType::Number);
}

#[test]
fn escaped_quote_stays_in_string_token() {
    let buffer = br#""a\"b""#;
    let tokens = scan_all(buffer);

    assert_eq!(tokens.len(), 1);
    assert_eq!(tokens[0].token_type, TokenType::String);
    assert_eq!(tokens[0].span, (0, 5));
    assert_eq!(tokens[0].text, "\"a\\\"b\"");
}

#[test]
fn single_quoted_string_closes_on_single_quote_only() {
    let tokens = scan_all(b"'a\"b'");
    assert_eq!(tokens.len(), 1);
    assert_eq!(tokens[0].token_type, TokenType::String);
    assert_eq!(tokens[0].text, "'a\"b'");
}

#[test]
fn unterminated_comment_fails() {
    let error = scan_error(b"/* unterminated");
    assert_eq!(error, ParseError::UnterminatedComment { line: 1, col: 1 });
}

#[test]
fn unterminated_string_fails() {
    let error = scan_error(b"\"unterminated");
    assert_eq!(error, ParseError::UnterminatedString { line: 1, col: 1 });
}

#[test]
fn unterminated_string_position_counts_lines_and_columns() {
    let error = scan_error(b"a b\nc 'oops");
    assert_eq!(error, ParseError::UnterminatedString { line: 2, col: 3 });
}

#[test]
fn invalid_utf8_fails_with_decode_error() {
    let error = scan_error(&[0xff, 0xfe]);
    assert_eq!(error, ParseError::DecodeError { pos: 0 });
}

#[test]
fn token_texts_match_source_slices() {
    let buffer = b"leaf foo {\n  type string;\n}\n";
    let tokens = scan_all(buffer);

    assert!(tokens.len() > 0);
    let mut previous_end: Option<usize> = None;

    for token in &tokens {
        let (start, end) = token.span;
        // Spans are strictly increasing and never overlap.
        if let Some(previous) = previous_end {
            assert!(start > previous);
        }
        previous_end = Some(end);
        // The token text is the exact source slice for its span.
        assert_eq!(token.text.as_bytes(), &buffer[start..=end]);
    }

    // Every byte outside all spans is whitespace.
    for (i, byte) in buffer.iter().enumerate() {
        let covered = tokens.iter().any(|t| t.span.0 <= i && i <= t.span.1);
        if !covered {
            assert!(matches!(byte, b' ' | b'\t' | b'\r' | b'\n'));
        }
    }
}

#[test]
fn comment_token_excludes_line_break() {
    let tokens = scan_all(b"// note\nx");
    assert_eq!(tokens.len(), 2);
    assert_eq!(tokens[0].token_type, TokenType::Comment);
    assert_eq!(tokens[0].text, "// note");
    assert_eq!(tokens[1].text, "x");
}

#[test]
fn control_characters_escape_in_the_token_dump() {
    let tokens = scan_all(b"// a\x07b");
    assert_eq!(tokens.len(), 1);
    assert_eq!(
        tokens.human_readable_string(),
        "Comment              0 -> 5          \"// a\\u{7}b\"\n",
    );
}

#[test]
fn text_position_is_one_based() {
    let buffer = b"ab\ncd";
    let position = TextPosition::from_buffer_index(buffer, 0);
    assert_eq!((position.line, position.col), (1, 1));
    let position = TextPosition::from_buffer_index(buffer, 4);
    assert_eq!((position.line, position.col), (2, 2));
}
