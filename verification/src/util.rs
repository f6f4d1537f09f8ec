//! Text utilities: removing common leading indentation from multi-line
//! text, as test fixtures and documentation snippets need.

use vstd::prelude::*;

use vstd::string::{StrSliceExecFns, StringExecFns};

use crate::formatting::push_char;

verus! {

/// True of the whitespace characters that may fill a blank line or trail
/// one: the Unicode White_Space set (tab, the line-break controls, space,
/// next line, no-break and typographic spaces, and the line, paragraph and
/// ideographic separators).
pub open spec fn is_blank_char(c: char) -> bool {
    let u = c as u32;
    (9 <= u <= 13) || u == 32 || u == 0x85 || u == 0xa0 || u == 0x1680 || (0x2000 <= u
        <= 0x200a) || u == 0x2028 || u == 0x2029 || u == 0x202f || u == 0x205f || u == 0x3000
}

/// Decides [`is_blank_char`].
fn blank_char(c: char) -> (b: bool)
    ensures
        b == is_blank_char(c),
{
    let u = c as u32;
    (9 <= u && u <= 13) || u == 32 || u == 0x85 || u == 0xa0 || u == 0x1680 || (0x2000 <= u
        && u <= 0x200a) || u == 0x2028 || u == 0x2029 || u == 0x202f || u == 0x205f || u
        == 0x3000
}

/// The first position at or after `i` holding a line feed, or the length
/// of `s`: the exclusive end of the line starting at `i`.
pub open spec fn line_end(s: Seq<char>, i: int) -> int
    decreases s.len() - i,
    when 0 <= i <= s.len()
{
    if i >= s.len() {
        s.len() as int
    } else if s[i] == '\n' {
        i
    } else {
        line_end(s, i + 1)
    }
}

/// A line without its trailing carriage return, if it has one.
pub open spec fn strip_cr(line: Seq<char>) -> Seq<char> {
    if line.len() > 0 && line.last() == '\r' {
        line.drop_last()
    } else {
        line
    }
}

/// The content of the line starting at position `i`: the characters up to
/// the next line feed, without a trailing carriage return.
pub open spec fn line_at(s: Seq<char>, i: int) -> Seq<char> {
    strip_cr(s.subrange(i, line_end(s, i)))
}

/// The lines of `s` from position `i` on, split at line feeds. A line
/// feed ending the text closes the last line rather than opening an empty
/// one.
pub open spec fn split_lines_from(s: Seq<char>, i: int) -> Seq<Seq<char>>
    decreases s.len() - i,
    when 0 <= i <= s.len()
    via split_lines_from_decreases
{
    let e = line_end(s, i);
    if e >= s.len() || e + 1 == s.len() {
        seq![line_at(s, i)]
    } else {
        seq![line_at(s, i)] + split_lines_from(s, e + 1)
    }
}

#[via_fn]
proof fn split_lines_from_decreases(s: Seq<char>, i: int) {
    lemma_line_end_bounds(s, i);
}

/// Bounds for [`line_end`]: it lies in `[i, s.len()]`.
pub proof fn lemma_line_end_bounds(s: Seq<char>, i: int)
    requires
        0 <= i <= s.len(),
    ensures
        i <= line_end(s, i) <= s.len(),
    decreases s.len() - i,
{
    if i < s.len() && s[i] != '\n' {
        lemma_line_end_bounds(s, i + 1);
    }
}

/// The lines of `s`; an empty text has none.
pub open spec fn split_lines(s: Seq<char>) -> Seq<Seq<char>> {
    if s.len() == 0 {
        Seq::empty()
    } else {
        split_lines_from(s, 0)
    }
}

/// True of a line holding nothing but blank characters.
pub open spec fn is_blank(line: Seq<char>) -> bool {
    forall|j: int| 0 <= j < line.len() ==> is_blank_char(line[j])
}

/// The first position at or after `i` that does not hold a space.
pub open spec fn space_end(line: Seq<char>, i: int) -> int
    decreases line.len() - i,
    when 0 <= i <= line.len()
{
    if i < line.len() && line[i] == ' ' {
        space_end(line, i + 1)
    } else {
        i
    }
}

/// The indentation of a line: the number of its leading spaces.
pub open spec fn indent_of(line: Seq<char>) -> int {
    space_end(line, 0)
}

/// The smallest indentation of the non-blank lines of `s` from position
/// `i` on, or `None` if every such line is blank.
pub open spec fn min_indent_from(s: Seq<char>, i: int) -> Option<int>
    decreases s.len() - i,
    when 0 <= i <= s.len()
    via min_indent_from_decreases
{
    let e = line_end(s, i);
    let line = line_at(s, i);
    let rest = if e >= s.len() || e + 1 == s.len() {
        None
    } else {
        min_indent_from(s, e + 1)
    };
    if is_blank(line) {
        rest
    } else {
        let k = indent_of(line);
        match rest {
            None => Some(k),
            Some(k2) => Some(
                if k < k2 {
                    k
                } else {
                    k2
                },
            ),
        }
    }
}

#[via_fn]
proof fn min_indent_from_decreases(s: Seq<char>, i: int) {
    lemma_line_end_bounds(s, i);
}

/// The smallest indentation over the non-blank lines of `s`.
pub open spec fn min_indent(s: Seq<char>) -> Option<int> {
    if s.len() == 0 {
        None
    } else {
        min_indent_from(s, 0)
    }
}

/// A line without its trailing blank characters.
pub open spec fn trim_end_spec(line: Seq<char>) -> Seq<char>
    decreases line.len(),
{
    if line.len() > 0 && is_blank_char(line.last()) {
        trim_end_spec(line.drop_last())
    } else {
        line
    }
}

/// A line with its first `k` characters removed and its trailing blanks
/// trimmed; a line shorter than `k` becomes empty.
pub open spec fn strip_line(line: Seq<char>, k: int) -> Seq<char>
    recommends
        0 <= k,
{
    if line.len() >= k {
        trim_end_spec(line.skip(k))
    } else {
        Seq::empty()
    }
}

/// Every line of `s` from position `i` on, stripped of `k` leading
/// characters and of trailing blanks.
pub open spec fn stripped_from(s: Seq<char>, i: int, k: int) -> Seq<Seq<char>> {
    let lines = split_lines_from(s, i);
    Seq::new(lines.len(), |j: int| strip_line(lines[j], k))
}

/// The first position at or after `i` holding a nonempty line, or the
/// number of lines.
pub open spec fn first_nonempty(ls: Seq<Seq<char>>, i: int) -> int
    decreases ls.len() - i,
    when 0 <= i <= ls.len()
{
    if i >= ls.len() {
        ls.len() as int
    } else if ls[i].len() > 0 {
        i
    } else {
        first_nonempty(ls, i + 1)
    }
}

/// The last position at or before `i` holding a nonempty line, or -1.
pub open spec fn last_nonempty(ls: Seq<Seq<char>>, i: int) -> int
    decreases i + 1,
    when -1 <= i < ls.len()
{
    if i < 0 {
        -1
    } else if ls[i].len() > 0 {
        i
    } else {
        last_nonempty(ls, i - 1)
    }
}

/// The lines between the first and the last nonempty line, inclusive:
/// what remains after popping the leading and trailing empty lines.
pub open spec fn window(ls: Seq<Seq<char>>) -> Seq<Seq<char>> {
    let f = first_nonempty(ls, 0);
    if f == ls.len() {
        Seq::empty()
    } else {
        ls.subrange(f, last_nonempty(ls, ls.len() - 1) + 1)
    }
}

/// Lines joined with line feeds between them.
pub open spec fn join_lines(ls: Seq<Seq<char>>) -> Seq<char>
    decreases ls.len(),
{
    if ls.len() == 0 {
        Seq::empty()
    } else if ls.len() == 1 {
        ls[0]
    } else {
        join_lines(ls.drop_last()) + "\n"@ + ls.last()
    }
}

/// What [`dedent`] returns: the smallest indentation of the non-blank
/// lines is removed from every line, each line loses its trailing blanks,
/// leading and trailing empty lines are dropped, and the remaining lines
/// are joined with line feeds and closed by one. A text whose every line
/// is blank dedents to a single line feed.
pub open spec fn dedent_spec(s: Seq<char>) -> Seq<char> {
    match min_indent(s) {
        None => "\n"@,
        Some(k) => join_lines(window(stripped_from(s, 0, k))) + "\n"@,
    }
}

/// The sequence of character sequences of a vector of strings.
pub open spec fn strings_model(ss: Seq<String>) -> Seq<Seq<char>> {
    Seq::new(ss.len(), |i: int| ss[i]@)
}

/// The characters of a text, as a vector.
fn text_chars(text: &str) -> (v: Vec<char>)
    ensures
        v@ == text@,
{
    let length = text.unicode_len();
    let mut v: Vec<char> = Vec::new();
    let mut i: usize = 0;

    while i < length
        invariant
            i <= length == text@.len(),
            v@ =~= text@.take(i as int),
        decreases length - i,
    {
        v.push(text.get_char(i));
        proof {
            assert(v@ =~= text@.take(i + 1));
        }
        i = i + 1;
    }

    proof {
        assert(text@.take(length as int) =~= text@);
    }
    v
}

/// The exclusive end of the line starting at `i`.
fn find_line_end(chars: &Vec<char>, i: usize) -> (e: usize)
    requires
        i <= chars@.len(),
    ensures
        e as int == line_end(chars@, i as int),
        i <= e <= chars@.len(),
        e < chars@.len() ==> chars@[e as int] == '\n',
{
    let mut e = i;

    while e < chars.len() && chars[e] != '\n'
        invariant
            i <= e <= chars@.len(),
            line_end(chars@, i as int) == line_end(chars@, e as int),
        decreases chars@.len() - e,
    {
        proof {
            assert(line_end(chars@, e as int) == line_end(chars@, e + 1));
        }
        e = e + 1;
    }

    e
}

/// The smallest indentation of the non-blank lines from position `i` on.
fn min_indent_rec(chars: &Vec<char>, i: usize) -> (r: Option<usize>)
    requires
        i <= chars@.len(),
    ensures
        ({
            match min_indent_from(chars@, i as int) {
                None => r is None,
                Some(k) => r matches Some(u) && u as int == k,
            }
        }),
    decreases chars@.len() - i,
{
    let e = find_line_end(chars, i);
    let pe = if e > i && chars[e - 1] == '\r' {
        e - 1
    } else {
        e
    };
    let ghost line = line_at(chars@, i as int);
    proof {
        if e > i && chars@[e - 1] == '\r' {
            assert(chars@.subrange(i as int, e as int).last() == chars@[e - 1]);
            assert(chars@.subrange(i as int, e as int).drop_last() =~= chars@.subrange(
                i as int,
                pe as int,
            ));
        }
        assert(line =~= chars@.subrange(i as int, pe as int));
    }

    let mut blank = true;
    let mut j = i;

    while j < pe
        invariant
            i <= j <= pe <= chars@.len(),
            line =~= chars@.subrange(i as int, pe as int),
            blank == (forall|m: int| i <= m < j ==> is_blank_char(chars@[m])),
        decreases pe - j,
    {
        if !blank_char(chars[j]) {
            blank = false;
        }
        j = j + 1;
    }

    proof {
        assert(blank == is_blank(line)) by {
            if blank {
                assert forall|m2: int| 0 <= m2 < line.len() implies is_blank_char(
                    line[m2],
                ) by {
                    assert(line[m2] == chars@[i + m2]);
                    assert(is_blank_char(chars@[i + m2]));
                }
            } else {
                let m = choose|m: int| i <= m < pe && !is_blank_char(chars@[m]);
                assert(line[m - i] == chars@[m]);
            }
        }
    }

    let mut sp = i;

    while sp < pe && chars[sp] == ' '
        invariant
            i <= sp <= pe <= chars@.len(),
            line =~= chars@.subrange(i as int, pe as int),
            space_end(line, 0) == space_end(line, sp - i),
        decreases pe - sp,
    {
        proof {
            assert(line[sp - i] == chars@[sp as int]);
            assert(space_end(line, sp - i) == space_end(line, sp - i + 1));
        }
        sp = sp + 1;
    }

    proof {
        if sp < pe {
            assert(line[sp - i] == chars@[sp as int]);
        }
        assert(space_end(line, sp - i) == sp - i);
        assert(indent_of(line) == sp - i);
    }

    let rest: Option<usize> = if e < chars.len() && e + 1 < chars.len() {
        min_indent_rec(chars, e + 1)
    } else {
        None
    };

    if blank {
        rest
    } else {
        let k = sp - i;
        match rest {
            None => Some(k),
            Some(k2) => Some(
                if k < k2 {
                    k
                } else {
                    k2
                },
            ),
        }
    }
}

/// Appends to `out` every line from position `i` on, stripped of `k`
/// leading characters and of trailing blanks.
fn collect_stripped(chars: &Vec<char>, i: usize, k: usize, out: &mut Vec<String>)
    requires
        i <= chars@.len(),
    ensures
        (strings_model(final(out)@) == strings_model(old(out)@) + stripped_from(
            chars@,
            i as int,
            k as int,
        )),
    decreases chars@.len() - i,
{
    let e = find_line_end(chars, i);
    let pe = if e > i && chars[e - 1] == '\r' {
        e - 1
    } else {
        e
    };
    let ghost line = line_at(chars@, i as int);
    proof {
        if e > i && chars@[e - 1] == '\r' {
            assert(chars@.subrange(i as int, e as int).last() == chars@[e - 1]);
            assert(chars@.subrange(i as int, e as int).drop_last() =~= chars@.subrange(
                i as int,
                pe as int,
            ));
        }
        assert(line =~= chars@.subrange(i as int, pe as int));
    }

    let mut piece = String::new();

    if pe - i >= k {
        proof {
            assert(line.skip(k as int) =~= chars@.subrange(i + k, pe as int));
        }
        let mut te = pe;

        while te > i + k && blank_char(chars[te - 1])
            invariant
                i + k <= te <= pe <= chars@.len(),
                line =~= chars@.subrange(i as int, pe as int),
                trim_end_spec(line.skip(k as int)) == trim_end_spec(
                    chars@.subrange(i + k, te as int),
                ),
            decreases te,
        {
            proof {
                assert(chars@.subrange(i + k, te as int).last() == chars@[te - 1]);
                assert(chars@.subrange(i + k, te as int).drop_last() =~= chars@.subrange(
                    i + k,
                    te - 1,
                ));
            }
            te = te - 1;
        }

        proof {
            if te > i + k {
                assert(chars@.subrange(i + k, te as int).last() == chars@[te - 1]);
            }
            assert(trim_end_spec(chars@.subrange(i + k, te as int)) == chars@.subrange(
                i + k,
                te as int,
            ));
        }

        let mut j = i + k;

        while j < te
            invariant
                i + k <= j <= te <= chars@.len(),
                piece@ =~= chars@.subrange(i + k, j as int),
            decreases te - j,
        {
            push_char(&mut piece, chars[j]);
            proof {
                assert(piece@ =~= chars@.subrange(i + k, j + 1));
            }
            j = j + 1;
        }

        proof {
            assert(line.skip(k as int) =~= chars@.subrange(i + k, pe as int));
            assert(piece@ == strip_line(line, k as int));
        }
    } else {
        proof {
            assert(piece@ =~= strip_line(line, k as int));
        }
    }

    let ghost old_out = out@;
    out.push(piece);
    proof {
        assert(strings_model(out@) =~= strings_model(old_out).push(strip_line(
            line,
            k as int,
        )));
    }

    if e < chars.len() && e + 1 < chars.len() {
        collect_stripped(chars, e + 1, k, out);
        proof {
            let lines = split_lines_from(chars@, i as int);
            assert(lines == seq![line] + split_lines_from(chars@, e + 1));
            assert(strings_model(final(out)@) =~= strings_model(old(out)@) + stripped_from(
                chars@,
                i as int,
                k as int,
            ));
        }
    } else {
        proof {
            let lines = split_lines_from(chars@, i as int);
            assert(lines == seq![line]);
            assert(strings_model(out@) =~= strings_model(old(out)@) + stripped_from(
                chars@,
                i as int,
                k as int,
            ));
        }
    }
}

/// Removes the common leading indentation of the non-blank lines, trims
/// every line's trailing blanks, and drops leading and trailing blank
/// lines; the result always ends with a single line feed.
#[verifier::loop_isolation(false)]
#[verifier::rlimit(100)]
pub fn dedent(text: &str) -> (r: String)
    ensures
        r@ == dedent_spec(text@),
{
    let chars = text_chars(text);

    let smallest_indent: Option<usize> = if chars.len() == 0 {
        None
    } else {
        min_indent_rec(&chars, 0)
    };

    let k = match smallest_indent {
        None => {
            let mut out = String::new();
            out.append("\n");
            proof {
                assert(out@ =~= dedent_spec(text@));
            }
            return out;
        },
        Some(k) => k,
    };

    let mut lines: Vec<String> = Vec::new();
    collect_stripped(&chars, 0, k, &mut lines);

    let ghost ls = stripped_from(chars@, 0, k as int);
    proof {
        assert(strings_model(lines@) =~= ls);
    }

    let mut f: usize = 0;

    while f < lines.len() && lines[f].as_str().is_empty()
        invariant
            f <= lines@.len(),
            first_nonempty(ls, 0) == first_nonempty(ls, f as int),
        decreases lines@.len() - f,
    {
        proof {
            assert(ls[f as int] == lines@[f as int]@);
            assert(first_nonempty(ls, f as int) == first_nonempty(ls, f + 1));
        }
        f = f + 1;
    }

    if f == lines.len() {
        proof {
            assert(first_nonempty(ls, f as int) == ls.len());
            assert(window(ls) =~= Seq::<Seq<char>>::empty());
        }
        let mut out = String::new();
        out.append("\n");
        proof {
            assert(out@ =~= dedent_spec(text@));
        }
        return out;
    }

    proof {
        assert(ls[f as int] == lines@[f as int]@);
        assert(first_nonempty(ls, f as int) == f as int);
    }

    let mut l: usize = lines.len() - 1;

    while lines[l].as_str().is_empty()
        invariant
            f <= l < lines@.len(),
            last_nonempty(ls, ls.len() - 1) == last_nonempty(ls, l as int),
            ls[f as int].len() > 0,
        decreases l,
    {
        proof {
            assert(ls[l as int] == lines@[l as int]@);
            assert(last_nonempty(ls, l as int) == last_nonempty(ls, l - 1));
        }
        l = l - 1;
    }

    proof {
        assert(ls[l as int] == lines@[l as int]@);
        assert(last_nonempty(ls, l as int) == l as int);
    }

    let ghost w = window(ls);
    proof {
        assert(w =~= ls.subrange(f as int, l + 1));
    }

    let mut out = String::new();
    out.append(lines[f].as_str());
    proof {
        assert(w[0] == ls[f as int]);
        assert(out@ =~= join_lines(w.take(1)));
    }

    let mut t = f + 1;

    while t <= l
        invariant
            f + 1 <= t <= l + 1,
            l < lines@.len(),
            out@ == join_lines(w.take(t - f)),
        decreases l + 1 - t,
    {
        out.append("\n");
        out.append(lines[t].as_str());
        proof {
            assert(w.take(t - f + 1).drop_last() =~= w.take(t - f));
            assert(w.take(t - f + 1).last() == ls[t as int]);
            assert(ls[t as int] == lines@[t as int]@);
            assert(out@ =~= join_lines(w.take(t - f + 1)));
        }
        t = t + 1;
    }

    proof {
        assert(w.take(l + 1 - f) =~= w);
    }

    out.append("\n");
    proof {
        assert(out@ =~= dedent_spec(text@));
    }
    out
}

} // verus!
