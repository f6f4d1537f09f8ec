//! The scanner: breaks a byte buffer into a small set of typed tokens.
//!
//! - `String`: any single- or double-quoted string
//! - `Date`: `NNNN-NN-NN`
//! - `Number`: an optionally signed integer or decimal without leading zeros
//! - `Comment`: a single-line (`//`) or block (`/* */`) comment
//! - `OpenCurlyBrace`, `ClosingCurlyBrace`, `SemiColon`
//! - `Other`: any other run of non-delimiter bytes (keywords, identifiers,
//!   unquoted strings and so on)

use vstd::prelude::*;

use crate::errors::ParseError;

verus! {

/// True of the bytes the scanner skips between tokens: space, tab,
/// carriage return and line feed.
pub open spec fn is_whitespace_byte(b: u8) -> bool {
    b == 32 || b == 9 || b == 13 || b == 10
}

/// True of the bytes that end a raw run: whitespace, `;`, `{` and `}`.
pub open spec fn is_delimiter_byte(b: u8) -> bool {
    is_whitespace_byte(b) || b == 59 || b == 123 || b == 125
}

/// True when a line break starts at position `i`: a line feed, or a carriage
/// return immediately followed by a line feed.
pub open spec fn line_break_at(buffer: Seq<u8>, i: int) -> bool {
    0 <= i < buffer.len() && (buffer[i] == 10 || (buffer[i] == 13 && i + 1 < buffer.len()
        && buffer[i + 1] == 10))
}

/// The first position at or after `c` that does not hold a whitespace byte
/// (the buffer length if only whitespace remains).
pub open spec fn ws_end(buffer: Seq<u8>, c: int) -> int
    decreases buffer.len() - c,
    when 0 <= c <= buffer.len()
{
    if c < buffer.len() && is_whitespace_byte(buffer[c]) {
        ws_end(buffer, c + 1)
    } else {
        c
    }
}

/// True when position `i` closes a quoted string opened at `start` by the
/// quote byte `quote`: the same quote character, not immediately preceded by
/// a backslash (the check is single-level: it does not interpret `\\` pairs).
pub open spec fn string_close_at(buffer: Seq<u8>, start: int, quote: u8, i: int) -> bool {
    start < i < buffer.len() && buffer[i] == quote && (i == start + 1 || buffer[i - 1] != 92)
}

/// The first position at or after `i` that closes a string opened at `start`
/// by `quote`, or -1 if the string is never closed.
pub open spec fn string_close(buffer: Seq<u8>, start: int, quote: u8, i: int) -> int
    decreases buffer.len() - i,
    when 0 <= i <= buffer.len()
{
    if i >= buffer.len() {
        -1
    } else if string_close_at(buffer, start, quote, i) {
        i
    } else {
        string_close(buffer, start, quote, i + 1)
    }
}

/// The position ending a single-line comment whose text began before `i`:
/// the first position at or after `i` holding a line break, or the buffer
/// length. The line break itself is not part of the comment.
pub open spec fn comment_end(buffer: Seq<u8>, i: int) -> int
    decreases buffer.len() - i,
    when 0 <= i <= buffer.len()
{
    if i >= buffer.len() {
        buffer.len() as int
    } else if line_break_at(buffer, i) {
        i
    } else {
        comment_end(buffer, i + 1)
    }
}

/// The first position at or after `i` where `*/` starts, or -1 if there is
/// none.
pub open spec fn block_close(buffer: Seq<u8>, i: int) -> int
    decreases buffer.len() - i,
    when 0 <= i <= buffer.len()
{
    if i >= buffer.len() {
        -1
    } else if i + 1 < buffer.len() && buffer[i] == 42 && buffer[i + 1] == 47 {
        i
    } else {
        block_close(buffer, i + 1)
    }
}

/// The first position at or after `i` holding a delimiter byte, or the
/// buffer length: the exclusive end of the raw run starting at `i`.
pub open spec fn other_end(buffer: Seq<u8>, i: int) -> int
    decreases buffer.len() - i,
    when 0 <= i <= buffer.len()
{
    if i >= buffer.len() {
        buffer.len() as int
    } else if is_delimiter_byte(buffer[i]) {
        i
    } else {
        other_end(buffer, i + 1)
    }
}

/// The 1-based line number of the position just past `prefix`: one more than
/// the number of line feeds in `prefix`.
pub open spec fn line_of(prefix: Seq<u8>) -> int
    decreases prefix.len(),
{
    if prefix.len() == 0 {
        1
    } else if prefix.last() == 10 {
        line_of(prefix.drop_last()) + 1
    } else {
        line_of(prefix.drop_last())
    }
}

/// The 1-based column number of the position just past `prefix`: one more
/// than the number of bytes after the last line feed in `prefix`.
pub open spec fn col_of(prefix: Seq<u8>) -> int
    decreases prefix.len(),
{
    if prefix.len() == 0 {
        1
    } else if prefix.last() == 10 {
        1
    } else {
        col_of(prefix.drop_last()) + 1
    }
}

/// True of an ASCII decimal digit.
pub open spec fn is_digit_byte(b: u8) -> bool {
    48 <= b <= 57
}

/// True when every byte of `s` from position `i` on is a decimal digit.
pub open spec fn all_digits_from(s: Seq<u8>, i: int) -> bool {
    forall|j: int| i <= j < s.len() ==> is_digit_byte(s[j])
}

/// The first position at or after `i` that does not hold a decimal digit,
/// or the length of `s`.
pub open spec fn digits_end(s: Seq<u8>, i: int) -> int
    decreases s.len() - i,
    when 0 <= i <= s.len()
{
    if i < s.len() && is_digit_byte(s[i]) {
        digits_end(s, i + 1)
    } else {
        i
    }
}

/// True when the bytes of `s` from position `i` on match
/// `0|[1-9][0-9]*(\.[0-9]+)?`: a single zero, or a digit run without a
/// leading zero optionally followed by a decimal point and at least one
/// fraction digit. A fraction is only admitted after a nonzero integer
/// part, so `0.5` does not match.
pub open spec fn is_unsigned_number_from(s: Seq<u8>, i: int) -> bool
    recommends
        0 <= i <= s.len(),
{
    if i >= s.len() {
        false
    } else if s[i] == 48 {
        s.len() == i + 1
    } else if 49 <= s[i] <= 57 {
        let d = digits_end(s, i + 1);
        d == s.len() || (s[d] == 46 && d + 1 < s.len() && all_digits_from(s, d + 1))
    } else {
        false
    }
}

/// True when `s` matches the numeric pattern `-?(0|[1-9][0-9]*(\.[0-9]+)?)`:
/// an optional leading minus, then an integer or decimal without leading
/// zeros.
pub open spec fn is_number_run(s: Seq<u8>) -> bool {
    if s.len() > 0 && s[0] == 45 {
        is_unsigned_number_from(s, 1)
    } else {
        is_unsigned_number_from(s, 0)
    }
}

/// True when `s` matches the date pattern `[0-9]{4}-[0-9]{2}-[0-9]{2}`.
/// No calendar validation is performed.
pub open spec fn is_date_run(s: Seq<u8>) -> bool {
    s.len() == 10 && is_digit_byte(s[0]) && is_digit_byte(s[1]) && is_digit_byte(s[2])
        && is_digit_byte(s[3]) && s[4] == 45 && is_digit_byte(s[5]) && is_digit_byte(s[6])
        && s[7] == 45 && is_digit_byte(s[8]) && is_digit_byte(s[9])
}

/// The kind given to a raw run: the numeric pattern is tried first, then the
/// date pattern, and anything else is `Other`.
pub open spec fn run_type(s: Seq<u8>) -> TokenType {
    if is_number_run(s) {
        TokenType::Number
    } else if is_date_run(s) {
        TokenType::Date
    } else {
        TokenType::Other
    }
}

/// The kind of a scanned token.
#[derive(Debug, PartialEq, Eq, Structural, Clone, Copy)]
pub enum TokenType {
    String,
    Date,
    Number,
    Comment,
    OpenCurlyBrace,
    ClosingCurlyBrace,
    SemiColon,
    Other,
}

/// The mathematical model of a [`Token`]: its kind, its inclusive byte-offset
/// span within the source buffer, and its decoded text.
#[verifier::ext_equal]
pub struct TokenModel {
    pub kind: TokenType,
    pub start: int,
    pub end: int,
    pub text: Seq<char>,
}

/// One scanned token: its kind, the inclusive byte-offset span `[start, end]`
/// it occupies in the source buffer, and the exact source slice for that span
/// (delimiters included), decoded to text.
#[derive(Debug, PartialEq)]
pub struct Token {
    pub token_type: TokenType,
    pub span: (usize, usize),
    pub text: String,
}

impl View for Token {
    type V = TokenModel;

    open spec fn view(&self) -> TokenModel {
        TokenModel {
            kind: self.token_type,
            start: self.span.0 as int,
            end: self.span.1 as int,
            text: self.text@,
        }
    }
}

/// The outcome of one scan step: end of input, one token together with the
/// cursor position after it, or a scan failure.
pub enum ScanStep {
    End,
    Tok { next: int, token: TokenModel },
    Fail { err: ParseError },
}

/// The token produced for the byte range `[start, end_ex)` of the buffer,
/// or a decode failure if that range is not valid UTF-8.
pub open spec fn mk_step(buffer: Seq<u8>, kind: TokenType, start: int, end_ex: int) -> ScanStep {
    let bytes = buffer.subrange(start, end_ex);
    if vstd::utf8::valid_utf8(bytes) {
        ScanStep::Tok {
            next: end_ex,
            token: TokenModel {
                kind: kind,
                start: start,
                end: end_ex - 1,
                text: vstd::utf8::decode_utf8(bytes),
            },
        }
    } else {
        ScanStep::Fail { err: ParseError::DecodeError { pos: start as usize } }
    }
}

/// What one call of the scanner does at cursor position `cursor`: skip
/// whitespace, then dispatch on the first byte. First match wins:
/// `;`, `{`, `}`; a quoted string; a `//` comment; a `/* */` comment; and
/// otherwise a raw run up to the next delimiter, classified by [`run_type`].
pub open spec fn scan_step(buffer: Seq<u8>, cursor: int) -> ScanStep
    recommends
        0 <= cursor <= buffer.len(),
{
    let c = ws_end(buffer, cursor);
    if c >= buffer.len() {
        ScanStep::End
    } else {
        let b = buffer[c];
        if b == 59 {
            mk_step(buffer, TokenType::SemiColon, c, c + 1)
        } else if b == 123 {
            mk_step(buffer, TokenType::OpenCurlyBrace, c, c + 1)
        } else if b == 125 {
            mk_step(buffer, TokenType::ClosingCurlyBrace, c, c + 1)
        } else if b == 34 || b == 39 {
            let e = string_close(buffer, c, b, c + 1);
            if e < 0 {
                ScanStep::Fail {
                    err: ParseError::UnterminatedString {
                        line: line_of(buffer.take(c)) as usize,
                        col: col_of(buffer.take(c)) as usize,
                    },
                }
            } else {
                mk_step(buffer, TokenType::String, c, e + 1)
            }
        } else if b == 47 && c + 1 < buffer.len() && buffer[c + 1] == 47 {
            mk_step(buffer, TokenType::Comment, c, comment_end(buffer, c + 2))
        } else if b == 47 && c + 1 < buffer.len() && buffer[c + 1] == 42 {
            let e = block_close(buffer, c + 2);
            if e < 0 {
                ScanStep::Fail {
                    err: ParseError::UnterminatedComment {
                        line: line_of(buffer.take(c)) as usize,
                        col: col_of(buffer.take(c)) as usize,
                    },
                }
            } else {
                mk_step(buffer, TokenType::Comment, c, e + 2)
            }
        } else {
            let e = other_end(buffer, c);
            if e == c {
                ScanStep::Fail { err: ParseError::UnexpectedCharacter { pos: c as usize } }
            } else {
                mk_step(buffer, run_type(buffer.subrange(c, e)), c, e)
            }
        }
    }
}

/// True when the executable result `r` of one scan call reports exactly the
/// outcome `step`.
pub open spec fn step_result_matches(
    r: Result<Option<(usize, Token)>, ParseError>,
    step: ScanStep,
) -> bool {
    match step {
        ScanStep::End => r == Ok::<Option<(usize, Token)>, ParseError>(None),
        ScanStep::Tok { next, token } => r matches Ok(Some((nc, t))) && nc as int == next && t@
            == token,
        ScanStep::Fail { err } => r == Err::<Option<(usize, Token)>, ParseError>(err),
    }
}

/// Relies on `String::from_utf8`: it returns `Ok` exactly when the input
/// bytes are valid UTF-8, and then decodes them.
#[verifier::external_body]
fn string_from_utf8(bytes: Vec<u8>) -> (r: Option<String>)
    ensures
        r is Some <==> vstd::utf8::valid_utf8(bytes@),
        r matches Some(s) ==> s@ == vstd::utf8::decode_utf8(bytes@),
{
    String::from_utf8(bytes).ok()
}

/// Returns true if this byte should delimit a token.
fn is_delimiter(c: &u8) -> (r: bool)
    ensures
        r == is_delimiter_byte(*c),
{
    *c == 32 || *c == 9 || *c == 13 || *c == 10 || *c == 59 || *c == 123 || *c == 125
}

/// Reads past whitespace, returning the first cursor position at or after
/// `cursor` that does not hold a whitespace byte.
/// Reads until a non-whitespace byte is found, returns the new cursor
/// position.
fn skip_whitespace(buffer: &[u8], cursor: usize) -> (r: usize)
    requires
        cursor <= buffer@.len(),
    ensures
        cursor <= r <= buffer@.len(),
        r as int == ws_end(buffer@, cursor as int),
{
    let ghost start = cursor as int;
    let mut cursor = cursor;

    while cursor < buffer.len() && (buffer[cursor] == 32 || buffer[cursor] == 9
        || buffer[cursor] == 13 || buffer[cursor] == 10)
        invariant
            start <= cursor <= buffer@.len(),
            ws_end(buffer@, start) == ws_end(buffer@, cursor as int),
        decreases buffer@.len() - cursor,
    {
        proof {
            assert(ws_end(buffer@, cursor as int) == ws_end(buffer@, cursor + 1));
        }
        cursor = cursor + 1;
    }

    cursor
}

/// Checks for a line break at the cursor: `Some(1)` for a line feed,
/// `Some(2)` for a carriage return followed by a line feed, `None`
/// otherwise.
fn scan_line_break(buffer: &[u8], cursor: usize) -> (r: Option<usize>)
    requires
        cursor <= buffer@.len(),
    ensures
        r is Some <==> line_break_at(buffer@, cursor as int),
        cursor < buffer@.len() && buffer@[cursor as int] == 10 ==> r == Some(1usize),
        line_break_at(buffer@, cursor as int) && buffer@[cursor as int] == 13 ==> r == Some(
            2usize,
        ),
{
    if cursor < buffer.len() {
        if buffer[cursor] == 10 {
            return Some(1);
        }
        if buffer[cursor] == 13 && cursor + 1 < buffer.len() && buffer[cursor + 1] == 10 {
            return Some(2);
        }
    }

    None
}

/// 1-based cursor position in a text file.
#[derive(Debug, PartialEq, Eq, Structural, Clone, Copy)]
pub struct TextPosition {
    pub line: usize,
    pub col: usize,
}

impl TextPosition {
    /// The 1-based line and column of byte offset `index` in the buffer:
    /// each line feed before `index` starts a new line.
    pub fn from_buffer_index(buffer: &[u8], index: usize) -> (r: TextPosition)
        requires
            index <= buffer@.len() < usize::MAX,
        ensures
            r.line as int == line_of(buffer@.take(index as int)),
            r.col as int == col_of(buffer@.take(index as int)),
    {
        let mut line: usize = 1;
        let mut col: usize = 1;
        let mut i: usize = 0;

        while i < index
            invariant
                i <= index <= buffer@.len() < usize::MAX,
                line as int == line_of(buffer@.take(i as int)),
                col as int == col_of(buffer@.take(i as int)),
                line <= i + 1,
                col <= i + 1,
            decreases index - i,
        {
            proof {
                assert(buffer@.take(i + 1).drop_last() =~= buffer@.take(i as int));
                assert(buffer@.take(i + 1).last() == buffer@[i as int]);
            }
            if buffer[i] == 10 {
                line = line + 1;
                col = 1;
            } else {
                col = col + 1;
            }
            i = i + 1;
        }

        TextPosition { line, col }
    }
}

/// Checks if there is a string at the current position.
///
/// Returns `Ok(Some(length))` if the cursor holds an opening quote with a
/// matching close, `Ok(None)` if the cursor does not hold a quote, and the
/// unterminated-string error, carrying the position of the opening quote,
/// if the string is never closed.
fn scan_string(buffer: &[u8], cursor: usize) -> (r: Result<Option<usize>, ParseError>)
    requires
        cursor < buffer@.len() < usize::MAX,
    ensures
        ({
            let q = buffer@[cursor as int];
            if q == 34 || q == 39 {
                let e = string_close(buffer@, cursor as int, q, cursor + 1);
                if e < 0 {
                    r == Err::<Option<usize>, ParseError>(
                        ParseError::UnterminatedString {
                            line: line_of(buffer@.take(cursor as int)) as usize,
                            col: col_of(buffer@.take(cursor as int)) as usize,
                        },
                    )
                } else {
                    cursor < e < buffer@.len() && r == Ok::<Option<usize>, ParseError>(
                        Some((e + 1 - cursor) as usize),
                    )
                }
            } else {
                r == Ok::<Option<usize>, ParseError>(None)
            }
        }),
        r matches Ok(Some(l)) ==> 2 <= l && cursor + l <= buffer@.len(),
{
    let quote_char: u8 = if buffer[cursor] == 34 {
        34
    } else if buffer[cursor] == 39 {
        39
    } else {
        return Ok(None);
    };

    let mut i = cursor + 1;

    while i < buffer.len() && !(buffer[i] == quote_char && (i == cursor + 1 || buffer[i - 1]
        != 92))
        invariant
            cursor + 1 <= i <= buffer@.len(),
            quote_char == buffer@[cursor as int],
            string_close(buffer@, cursor as int, quote_char, cursor + 1) == string_close(
                buffer@,
                cursor as int,
                quote_char,
                i as int,
            ),
        decreases buffer@.len() - i,
    {
        proof {
            assert(string_close(buffer@, cursor as int, quote_char, i as int) == string_close(
                buffer@,
                cursor as int,
                quote_char,
                i + 1,
            ));
        }
        i = i + 1;
    }

    if i < buffer.len() {
        Ok(Some(i + 1 - cursor))
    } else {
        let position = TextPosition::from_buffer_index(buffer, cursor);
        Err(ParseError::UnterminatedString { line: position.line, col: position.col })
    }
}

/// Checks if there is a single-line comment at the current position,
/// returning its length: from `//` through the byte before the next line
/// break, or through the end of the buffer.
fn scan_comment(buffer: &[u8], cursor: usize) -> (r: Option<usize>)
    requires
        cursor < buffer@.len() < usize::MAX,
    ensures
        ({
            if cursor + 1 < buffer@.len() && buffer@[cursor as int] == 47 && buffer@[cursor + 1]
                == 47 {
                cursor + 2 <= comment_end(buffer@, cursor + 2) <= buffer@.len() && r == Some(
                    (comment_end(buffer@, cursor + 2) - cursor) as usize,
                )
            } else {
                r == None::<usize>
            }
        }),
        r matches Some(l) ==> 2 <= l && cursor + l <= buffer@.len(),
{
    if !(buffer[cursor] == 47 && cursor + 1 < buffer.len() && buffer[cursor + 1] == 47) {
        return None;
    }

    let mut i = cursor + 2;

    while i < buffer.len() && scan_line_break(buffer, i).is_none()
        invariant
            cursor + 2 <= i <= buffer@.len(),
            comment_end(buffer@, cursor + 2) == comment_end(buffer@, i as int),
        decreases buffer@.len() - i,
    {
        proof {
            assert(comment_end(buffer@, i as int) == comment_end(buffer@, i + 1));
        }
        i = i + 1;
    }

    Some(i - cursor)
}

/// Checks if there is a block comment at the current position.
///
/// Returns `Ok(Some(length))` for `/*` through the first following `*/`
/// inclusive, `Ok(None)` if the cursor does not start a block comment, and
/// the unterminated-comment error, carrying the position of the opening
/// `/*`, if the comment is never closed.
fn scan_block_comment(buffer: &[u8], cursor: usize) -> (r: Result<Option<usize>, ParseError>)
    requires
        cursor < buffer@.len() < usize::MAX,
    ensures
        ({
            if cursor + 1 < buffer@.len() && buffer@[cursor as int] == 47 && buffer@[cursor + 1]
                == 42 {
                let e = block_close(buffer@, cursor + 2);
                if e < 0 {
                    r == Err::<Option<usize>, ParseError>(
                        ParseError::UnterminatedComment {
                            line: line_of(buffer@.take(cursor as int)) as usize,
                            col: col_of(buffer@.take(cursor as int)) as usize,
                        },
                    )
                } else {
                    cursor + 2 <= e && e + 2 <= buffer@.len() && r == Ok::<
                        Option<usize>,
                        ParseError,
                    >(Some((e + 2 - cursor) as usize))
                }
            } else {
                r == Ok::<Option<usize>, ParseError>(None)
            }
        }),
        r matches Ok(Some(l)) ==> 4 <= l && cursor + l <= buffer@.len(),
{
    if !(buffer[cursor] == 47 && cursor + 1 < buffer.len() && buffer[cursor + 1] == 42) {
        return Ok(None);
    }

    let mut i = cursor + 2;

    while i < buffer.len() && !(i + 1 < buffer.len() && buffer[i] == 42 && buffer[i + 1] == 47)
        invariant
            cursor + 2 <= i <= buffer@.len(),
            block_close(buffer@, cursor + 2) == block_close(buffer@, i as int),
        decreases buffer@.len() - i,
    {
        proof {
            assert(block_close(buffer@, i as int) == block_close(buffer@, i + 1));
        }
        i = i + 1;
    }

    if i < buffer.len() {
        Ok(Some(i + 2 - cursor))
    } else {
        let position = TextPosition::from_buffer_index(buffer, cursor);
        Err(ParseError::UnterminatedComment { line: position.line, col: position.col })
    }
}

/// Finds the length of the raw run starting at the cursor: the bytes up to
/// (not including) the next delimiter or the end of the buffer. Returns
/// `None` when the cursor already holds a delimiter.
fn scan_other(buffer: &[u8], cursor: usize) -> (r: Option<usize>)
    requires
        cursor <= buffer@.len(),
    ensures
        ({
            let e = other_end(buffer@, cursor as int);
            if e > cursor {
                r == Some((e - cursor) as usize)
            } else {
                r == None::<usize>
            }
        }),
        cursor <= other_end(buffer@, cursor as int) <= buffer@.len(),
        r matches Some(l) ==> 1 <= l && cursor + l <= buffer@.len(),
{
    let mut i = cursor;

    while i < buffer.len() && !is_delimiter(&buffer[i])
        invariant
            cursor <= i <= buffer@.len(),
            other_end(buffer@, cursor as int) == other_end(buffer@, i as int),
        decreases buffer@.len() - i,
    {
        proof {
            assert(other_end(buffer@, i as int) == other_end(buffer@, i + 1));
        }
        i = i + 1;
    }

    if i > cursor {
        Some(i - cursor)
    } else {
        None
    }
}

/// Copies the byte range `[start, end_ex)` of the buffer into a fresh
/// vector.
fn copy_range(buffer: &[u8], start: usize, end_ex: usize) -> (v: Vec<u8>)
    requires
        start <= end_ex <= buffer@.len(),
    ensures
        v@ =~= buffer@.subrange(start as int, end_ex as int),
{
    let mut v: Vec<u8> = Vec::new();
    let mut i = start;

    while i < end_ex
        invariant
            start <= i <= end_ex <= buffer@.len(),
            v@ =~= buffer@.subrange(start as int, i as int),
        decreases end_ex - i,
    {
        v.push(buffer[i]);
        proof {
            assert(v@ =~= buffer@.subrange(start as int, i + 1));
        }
        i = i + 1;
    }

    v
}

/// The first position at or after `from` in the run that does not hold a
/// decimal digit.
fn find_digits_end(run: &Vec<u8>, from: usize) -> (r: usize)
    requires
        from <= run@.len(),
    ensures
        r as int == digits_end(run@, from as int),
        from <= r <= run@.len(),
{
    let mut i = from;

    while i < run.len() && 48 <= run[i] && run[i] <= 57
        invariant
            from <= i <= run@.len(),
            digits_end(run@, from as int) == digits_end(run@, i as int),
        decreases run@.len() - i,
    {
        proof {
            assert(digits_end(run@, i as int) == digits_end(run@, i + 1));
        }
        i = i + 1;
    }

    i
}

/// True when every byte of the run from position `from` on is a decimal
/// digit.
fn check_all_digits_from(run: &Vec<u8>, from: usize) -> (b: bool)
    requires
        from <= run@.len(),
    ensures
        b == all_digits_from(run@, from as int),
{
    let mut i = from;

    while i < run.len() && 48 <= run[i] && run[i] <= 57
        invariant
            from <= i <= run@.len(),
            forall|j: int| from <= j < i ==> is_digit_byte(run@[j]),
        decreases run@.len() - i,
    {
        i = i + 1;
    }

    i == run.len()
}

/// Decides [`is_unsigned_number_from`] for the run at position `from`.
fn check_unsigned_number(run: &Vec<u8>, from: usize) -> (b: bool)
    requires
        from <= run@.len(),
    ensures
        b == is_unsigned_number_from(run@, from as int),
{
    if from >= run.len() {
        return false;
    }
    if run[from] == 48 {
        return run.len() == from + 1;
    }
    if !(49 <= run[from] && run[from] <= 57) {
        return false;
    }
    let d = find_digits_end(run, from + 1);
    if d == run.len() {
        return true;
    }
    if run[d] == 46 && d + 1 < run.len() {
        check_all_digits_from(run, d + 1)
    } else {
        false
    }
}

/// Classifies a raw run: `Number` if it matches the numeric pattern, else
/// `Date` if it matches the date pattern, else `Other`.
fn run_token_type(run: &Vec<u8>) -> (t: TokenType)
    ensures
        t == run_type(run@),
{
    let number = if run.len() > 0 && run[0] == 45 {
        check_unsigned_number(run, 1)
    } else {
        check_unsigned_number(run, 0)
    };

    if number {
        return TokenType::Number;
    }

    let date = run.len() == 10 && (48 <= run[0] && run[0] <= 57) && (48 <= run[1] && run[1]
        <= 57) && (48 <= run[2] && run[2] <= 57) && (48 <= run[3] && run[3] <= 57) && run[4]
        == 45 && (48 <= run[5] && run[5] <= 57) && (48 <= run[6] && run[6] <= 57) && run[7]
        == 45 && (48 <= run[8] && run[8] <= 57) && (48 <= run[9] && run[9] <= 57);

    if date {
        TokenType::Date
    } else {
        TokenType::Other
    }
}

/// Builds the token for the byte range `[start, end_ex)`, decoding its text,
/// or reports a decode failure.
fn finish_token(buffer: &[u8], kind: TokenType, start: usize, end_ex: usize) -> (r: Result<
    Option<(usize, Token)>,
    ParseError,
>)
    requires
        start < end_ex <= buffer@.len(),
    ensures
        step_result_matches(r, mk_step(buffer@, kind, start as int, end_ex as int)),
        r matches Ok(Some((nc, t))) ==> nc == end_ex,
{
    let bytes = copy_range(buffer, start, end_ex);
    match string_from_utf8(bytes) {
        Some(text) => Ok(
            Some((end_ex, Token { token_type: kind, span: (start, end_ex - 1), text })),
        ),
        None => Err(ParseError::DecodeError { pos: start }),
    }
}

/// Reads the next token from the buffer, returning it together with the
/// cursor position just past it; returns `Ok(None)` at the end of the input.
///
/// Fails on scanner errors: an unterminated string or block comment, or a
/// token whose bytes are not valid UTF-8.
pub fn next_token(buffer: &[u8], cursor: usize) -> (r: Result<
    Option<(usize, Token)>,
    ParseError,
>)
    requires
        cursor <= buffer@.len() < usize::MAX,
    ensures
        step_result_matches(r, scan_step(buffer@, cursor as int)),
        r matches Ok(Some((nc, t))) ==> cursor < nc <= buffer@.len(),
{
    let c = skip_whitespace(buffer, cursor);

    if c >= buffer.len() {
        return Ok(None);
    }

    if buffer[c] == 59 {
        return finish_token(buffer, TokenType::SemiColon, c, c + 1);
    }
    if buffer[c] == 123 {
        return finish_token(buffer, TokenType::OpenCurlyBrace, c, c + 1);
    }
    if buffer[c] == 125 {
        return finish_token(buffer, TokenType::ClosingCurlyBrace, c, c + 1);
    }

    match scan_string(buffer, c) {
        Err(e) => {
            return Err(e);
        },
        Ok(Some(length)) => {
            return finish_token(buffer, TokenType::String, c, c + length);
        },
        Ok(None) => {},
    }

    if let Some(length) = scan_comment(buffer, c) {
        return finish_token(buffer, TokenType::Comment, c, c + length);
    }

    match scan_block_comment(buffer, c) {
        Err(e) => {
            return Err(e);
        },
        Ok(Some(length)) => {
            return finish_token(buffer, TokenType::Comment, c, c + length);
        },
        Ok(None) => {},
    }

    match scan_other(buffer, c) {
        Some(length) => {
            let run = copy_range(buffer, c, c + length);
            let kind = run_token_type(&run);
            finish_token(buffer, kind, c, c + length)
        },
        None => Err(ParseError::UnexpectedCharacter { pos: c }),
    }
}

/// A lazy token stream over a byte buffer: each call of [`Self::next`]
/// scans one more token.
pub struct ScanIterator<'a> {
    pub buffer: &'a [u8],
    pub cursor: usize,
}

impl<'a> ScanIterator<'a> {
    /// The cursor lies within the buffer.
    pub open spec fn wf(&self) -> bool {
        self.cursor <= self.buffer@.len() < usize::MAX
    }

    /// Scans the next token and advances the cursor past it. Returns
    /// `Ok(None)`, without moving, once the end of the input is reached;
    /// a scan failure also leaves the cursor unmoved.
    pub fn next(&mut self) -> (r: Result<Option<Token>, ParseError>)
        requires
            old(self).wf(),
        ensures
            final(self).wf(),
            final(self).buffer@ == old(self).buffer@,
            match scan_step(old(self).buffer@, old(self).cursor as int) {
                ScanStep::End => r == Ok::<Option<Token>, ParseError>(None) && final(self).cursor
                    == old(self).cursor,
                ScanStep::Tok { next, token } => r matches Ok(Some(t)) && t@ == token
                    && final(self).cursor as int == next && old(self).cursor < final(self).cursor,
                ScanStep::Fail { err } => r == Err::<Option<Token>, ParseError>(err)
                    && final(self).cursor == old(self).cursor,
            },
    {
        match next_token(self.buffer, self.cursor) {
            Ok(Some((next_cursor, token))) => {
                self.cursor = next_cursor;
                Ok(Some(token))
            },
            Ok(None) => Ok(None),
            Err(e) => Err(e),
        }
    }
}

/// The whole token sequence of a buffer from position `cursor` on, or the
/// first scan failure.
pub open spec fn scan_tokens(buffer: Seq<u8>, cursor: int) -> Result<Seq<TokenModel>, ParseError>
    decreases buffer.len() - cursor,
    when 0 <= cursor <= buffer.len()
{
    match scan_step(buffer, cursor) {
        ScanStep::End => Ok(Seq::empty()),
        ScanStep::Fail { err } => Err(err),
        ScanStep::Tok { next, token } => if cursor < next <= buffer.len() {
            match scan_tokens(buffer, next) {
                Ok(rest) => Ok(seq![token] + rest),
                Err(e) => Err(e),
            }
        } else {
            Ok(Seq::empty())
        },
    }
}

/// Bounds for [`ws_end`]: it stays within `[c, buffer.len()]`, skips only
/// whitespace, and stops at a non-whitespace byte.
proof fn lemma_ws_end(buffer: Seq<u8>, c: int)
    requires
        0 <= c <= buffer.len(),
    ensures
        c <= ws_end(buffer, c) <= buffer.len(),
        forall|i: int| c <= i < ws_end(buffer, c) ==> is_whitespace_byte(buffer[i]),
        ws_end(buffer, c) < buffer.len() ==> !is_whitespace_byte(buffer[ws_end(buffer, c)]),
    decreases buffer.len() - c,
{
    if c < buffer.len() && is_whitespace_byte(buffer[c]) {
        lemma_ws_end(buffer, c + 1);
    }
}

/// Bounds for [`string_close`]: a found close lies in `[i, buffer.len())`.
proof fn lemma_string_close_bounds(buffer: Seq<u8>, start: int, quote: u8, i: int)
    requires
        0 <= i <= buffer.len(),
    ensures
        string_close(buffer, start, quote, i) == -1 || i <= string_close(buffer, start, quote, i)
            < buffer.len(),
    decreases buffer.len() - i,
{
    if i < buffer.len() && !string_close_at(buffer, start, quote, i) {
        lemma_string_close_bounds(buffer, start, quote, i + 1);
    }
}

/// Bounds for [`comment_end`]: it lies in `[i, buffer.len()]`.
proof fn lemma_comment_end_bounds(buffer: Seq<u8>, i: int)
    requires
        0 <= i <= buffer.len(),
    ensures
        i <= comment_end(buffer, i) <= buffer.len(),
    decreases buffer.len() - i,
{
    if i < buffer.len() && !line_break_at(buffer, i) {
        lemma_comment_end_bounds(buffer, i + 1);
    }
}

/// Bounds for [`block_close`]: a found close starts two bytes before the
/// end of the buffer at the latest.
proof fn lemma_block_close_bounds(buffer: Seq<u8>, i: int)
    requires
        0 <= i <= buffer.len(),
    ensures
        block_close(buffer, i) == -1 || (i <= block_close(buffer, i) && block_close(buffer, i)
            + 1 < buffer.len()),
    decreases buffer.len() - i,
{
    if i < buffer.len() && !(i + 1 < buffer.len() && buffer[i] == 42 && buffer[i + 1] == 47) {
        lemma_block_close_bounds(buffer, i + 1);
    }
}

/// Bounds for [`other_end`]: it lies in `[i, buffer.len()]`.
proof fn lemma_other_end_bounds(buffer: Seq<u8>, i: int)
    requires
        0 <= i <= buffer.len(),
    ensures
        i <= other_end(buffer, i) <= buffer.len(),
    decreases buffer.len() - i,
{
    if i < buffer.len() && !is_delimiter_byte(buffer[i]) {
        lemma_other_end_bounds(buffer, i + 1);
    }
}

/// What one scan step guarantees: a token's span lies between the cursor
/// and the next cursor position, only whitespace is skipped before it, and
/// its text decodes exactly the bytes of its span.
pub proof fn lemma_scan_step(buffer: Seq<u8>, cursor: int)
    requires
        0 <= cursor <= buffer.len(),
    ensures
        match scan_step(buffer, cursor) {
            ScanStep::End => forall|i: int|
                cursor <= i < buffer.len() ==> is_whitespace_byte(buffer[i]),
            ScanStep::Tok { next, token } => {
                &&& cursor <= token.start <= token.end
                &&& token.end + 1 == next
                &&& next <= buffer.len()
                &&& forall|i: int| cursor <= i < token.start ==> is_whitespace_byte(buffer[i])
                &&& vstd::utf8::valid_utf8(buffer.subrange(token.start, next))
                &&& token.text == vstd::utf8::decode_utf8(buffer.subrange(token.start, next))
            },
            ScanStep::Fail { err } => true,
        },
{
    lemma_ws_end(buffer, cursor);
    let c = ws_end(buffer, cursor);
    if c < buffer.len() {
        let b = buffer[c];
        if b == 59 || b == 123 || b == 125 {
        } else if b == 34 || b == 39 {
            lemma_string_close_bounds(buffer, c, b, c + 1);
        } else if b == 47 && c + 1 < buffer.len() && buffer[c + 1] == 47 {
            lemma_comment_end_bounds(buffer, c + 2);
        } else if b == 47 && c + 1 < buffer.len() && buffer[c + 1] == 42 {
            lemma_block_close_bounds(buffer, c + 2);
        } else {
            lemma_other_end_bounds(buffer, c);
        }
    }
}

/// True when position `i` of the buffer falls inside the span of some
/// token of `ts`.
pub open spec fn in_some_span(ts: Seq<TokenModel>, i: int) -> bool {
    exists|k: int| 0 <= k < ts.len() && (#[trigger] ts[k]).start <= i <= ts[k].end
}

/// Token texts and the original whitespace reconstruct the buffer, stated
/// from position `cursor` on.
#[verifier::rlimit(60)]
proof fn lemma_tokens_cover(buffer: Seq<u8>, cursor: int, ts: Seq<TokenModel>)
    requires
        0 <= cursor <= buffer.len(),
        scan_tokens(buffer, cursor) == Ok::<Seq<TokenModel>, ParseError>(ts),
    ensures
        forall|k: int|
            0 <= k < ts.len() ==> cursor <= (#[trigger] ts[k]).start <= ts[k].end
                < buffer.len(),
        forall|k: int| 0 < k < ts.len() ==> (#[trigger] ts[k]).start > ts[k - 1].end,
        forall|k: int|
            0 <= k < ts.len() ==> vstd::utf8::encode_utf8((#[trigger] ts[k]).text)
                == buffer.subrange(ts[k].start, ts[k].end + 1),
        forall|i: int|
            cursor <= i < buffer.len() && !in_some_span(ts, i) ==> is_whitespace_byte(
                buffer[i],
            ),
    decreases buffer.len() - cursor,
{
    lemma_scan_step(buffer, cursor);

    match scan_step(buffer, cursor) {
        ScanStep::End => {},
        ScanStep::Fail { err } => {},
        ScanStep::Tok { next, token } => {
            vstd::utf8::decode_utf8_encode_utf8(buffer.subrange(token.start, next));
            let rest = ts.skip(1);
            assert(scan_tokens(buffer, next) == Ok::<Seq<TokenModel>, ParseError>(rest)) by {
                let inner = scan_tokens(buffer, next);
                match inner {
                    Ok(r) => {
                        assert(ts == seq![token] + r);
                        assert(r =~= ts.skip(1));
                    },
                    Err(e) => {},
                }
            }
            lemma_tokens_cover(buffer, next, rest);
            assert(ts[0] == token);
            assert(forall|k: int| 0 < k < ts.len() ==> ts[k] == rest[k - 1]);
            assert(vstd::utf8::encode_utf8(token.text) == buffer.subrange(
                token.start,
                token.end + 1,
            ));
            assert forall|i: int|
                cursor <= i < buffer.len() && !in_some_span(ts, i) implies is_whitespace_byte(
                buffer[i],
            ) by {
                if i < token.start {
                } else if i <= token.end {
                    assert(ts[0].start <= i <= ts[0].end);
                    assert(in_some_span(ts, i));
                } else {
                    if in_some_span(rest, i) {
                        let k = choose|k: int|
                            0 <= k < rest.len() && (#[trigger] rest[k]).start <= i
                                <= rest[k].end;
                        assert(ts[k + 1].start <= i <= ts[k + 1].end);
                        assert(in_some_span(ts, i));
                    }
                }
            }
        },
    }
}

/// For every input that scans without error: the tokens' spans are
/// strictly increasing and never overlap, each token's text encodes back
/// to exactly the bytes of its span, and every byte outside all spans is
/// whitespace. Concatenating the token texts in span order and
/// re-inserting the original whitespace runs therefore reproduces the
/// buffer byte for byte.
#[verifier::rlimit(100)]
pub proof fn lemma_tokens_reconstruct_buffer(buffer: Seq<u8>, ts: Seq<TokenModel>)
    requires
        scan_tokens(buffer, 0) == Ok::<Seq<TokenModel>, ParseError>(ts),
    ensures
        forall|k: int|
            0 <= k < ts.len() ==> 0 <= (#[trigger] ts[k]).start <= ts[k].end < buffer.len(),
        forall|k: int| 0 < k < ts.len() ==> (#[trigger] ts[k]).start > ts[k - 1].end,
        forall|k: int|
            0 <= k < ts.len() ==> vstd::utf8::encode_utf8((#[trigger] ts[k]).text)
                == buffer.subrange(ts[k].start, ts[k].end + 1),
        forall|i: int|
            0 <= i < buffer.len() && !in_some_span(ts, i) ==> is_whitespace_byte(buffer[i]),
{
    lemma_tokens_cover(buffer, 0, ts);
}

/// The classification the scanner gives a raw run: a run matching the
/// numeric pattern is a Number; the date pattern is tried only after the
/// numeric pattern fails; everything else is Other.
pub proof fn lemma_raw_run_classification(s: Seq<u8>)
    ensures
        is_number_run(s) ==> run_type(s) == TokenType::Number,
        !is_number_run(s) && is_date_run(s) ==> run_type(s) == TokenType::Date,
        !is_number_run(s) && !is_date_run(s) ==> run_type(s) == TokenType::Other,
{
}

/// A token that comes out of a scan step with kind Number, Date or Other
/// is a raw run, and its kind is exactly the run classification of its
/// span's bytes.
pub proof fn lemma_scan_step_classifies_runs(buffer: Seq<u8>, cursor: int)
    requires
        0 <= cursor <= buffer.len(),
        scan_step(buffer, cursor) matches ScanStep::Tok { next, token } && (token.kind
            == TokenType::Number || token.kind == TokenType::Date || token.kind
            == TokenType::Other),
    ensures
        scan_step(buffer, cursor) matches ScanStep::Tok { next, token } && token.kind
            == run_type(buffer.subrange(token.start, token.end + 1)),
{
    lemma_scan_step(buffer, cursor);
}

/// A found [`string_close`] position is a closing position.
proof fn lemma_string_close_found(buffer: Seq<u8>, start: int, quote: u8, i: int)
    requires
        0 <= i <= buffer.len(),
    ensures
        string_close(buffer, start, quote, i) == -1 || string_close_at(
            buffer,
            start,
            quote,
            string_close(buffer, start, quote, i),
        ),
    decreases buffer.len() - i,
{
    if i < buffer.len() && !string_close_at(buffer, start, quote, i) {
        lemma_string_close_found(buffer, start, quote, i + 1);
    }
}

/// A found [`block_close`] position starts a `*/`.
proof fn lemma_block_close_found(buffer: Seq<u8>, i: int)
    requires
        0 <= i <= buffer.len(),
    ensures
        ({
            let e = block_close(buffer, i);
            e == -1 || (e + 1 < buffer.len() && buffer[e] == 42 && buffer[e + 1] == 47)
        }),
    decreases buffer.len() - i,
{
    if i < buffer.len() && !(i + 1 < buffer.len() && buffer[i] == 42 && buffer[i + 1] == 47) {
        lemma_block_close_found(buffer, i + 1);
    }
}

/// A quoted string that is opened but never closed fails the scan with the
/// unterminated-string error, carrying the 1-based line and column of the
/// opening quote.
pub proof fn lemma_unterminated_string(buffer: Seq<u8>, cursor: int)
    requires
        0 <= cursor <= buffer.len(),
        ({
            let c = ws_end(buffer, cursor);
            c < buffer.len() && (buffer[c] == 34 || buffer[c] == 39) && (forall|j: int|
                !string_close_at(buffer, c, buffer[c], j))
        }),
    ensures
        ({
            let c = ws_end(buffer, cursor);
            scan_step(buffer, cursor) == (ScanStep::Fail {
                err: ParseError::UnterminatedString {
                    line: line_of(buffer.take(c)) as usize,
                    col: col_of(buffer.take(c)) as usize,
                },
            })
        }),
{
    lemma_ws_end(buffer, cursor);
    let c = ws_end(buffer, cursor);
    lemma_string_close_found(buffer, c, buffer[c], c + 1);
}

/// A block comment that is opened but never closed fails the scan with the
/// unterminated-comment error, carrying the 1-based line and column of the
/// opening `/*`.
pub proof fn lemma_unterminated_comment(buffer: Seq<u8>, cursor: int)
    requires
        0 <= cursor <= buffer.len(),
        ({
            let c = ws_end(buffer, cursor);
            c + 1 < buffer.len() && buffer[c] == 47 && buffer[c + 1] == 42 && (forall|j: int|
                c + 2 <= j && j + 1 < buffer.len() ==> !(buffer[j] == 42 && #[trigger] buffer[j
                    + 1] == 47))
        }),
    ensures
        ({
            let c = ws_end(buffer, cursor);
            scan_step(buffer, cursor) == (ScanStep::Fail {
                err: ParseError::UnterminatedComment {
                    line: line_of(buffer.take(c)) as usize,
                    col: col_of(buffer.take(c)) as usize,
                },
            })
        }),
{
    lemma_ws_end(buffer, cursor);
    let c = ws_end(buffer, cursor);
    lemma_block_close_bounds(buffer, c + 2);
    lemma_block_close_found(buffer, c + 2);
}

/// The unexpected-character failure is a defined, reported outcome, but
/// it can never actually arise: after whitespace is skipped, every
/// delimiter byte is handled by its own dispatch case, so the raw run at
/// any remaining byte is nonempty.
pub proof fn lemma_unexpected_character_unreachable(buffer: Seq<u8>, cursor: int)
    requires
        0 <= cursor <= buffer.len(),
    ensures
        match scan_step(buffer, cursor) {
            ScanStep::Fail { err } => !(err is UnexpectedCharacter),
            _ => true,
        },
{
    lemma_ws_end(buffer, cursor);
    let c = ws_end(buffer, cursor);
    if c < buffer.len() && !is_delimiter_byte(buffer[c]) {
        lemma_other_end_bounds(buffer, c + 1);
        assert(other_end(buffer, c) == other_end(buffer, c + 1));
    }
}

/// Returns a lazy token stream over the buffer, starting at offset 0.
pub fn scan<'a>(buffer: &'a [u8]) -> (r: ScanIterator<'a>)
    requires
        buffer@.len() < usize::MAX,
    ensures
        r.buffer@ == buffer@,
        r.cursor == 0,
{
    ScanIterator { buffer, cursor: 0 }
}

} // verus!
