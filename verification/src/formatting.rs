//! Renderers for the two fixed text formats the library emits: the
//! human-readable token dump (one fixed-width line per token) and the
//! s-expression-like tree pretty-print.

use vstd::prelude::*;

use vstd::string::{StrSliceExecFns, StringExecFns};

use crate::lexing::{Token, TokenModel, TokenType};
use crate::parsing::{KeywordModel, Node, NodeModel, NodeValue, RootNode, StatementKeyword, ValueModel, nodes_model};

verus! {

/// The digit character of a decimal digit value.
pub open spec fn digit_char(d: nat) -> char
    recommends
        d < 10,
{
    if d == 0 {
        '0'
    } else if d == 1 {
        '1'
    } else if d == 2 {
        '2'
    } else if d == 3 {
        '3'
    } else if d == 4 {
        '4'
    } else if d == 5 {
        '5'
    } else if d == 6 {
        '6'
    } else if d == 7 {
        '7'
    } else if d == 8 {
        '8'
    } else {
        '9'
    }
}

/// The decimal digit string of `n`, without leading zeros.
pub open spec fn dec_str(n: nat) -> Seq<char>
    decreases n,
{
    if n < 10 {
        seq![digit_char(n)]
    } else {
        dec_str(n / 10) + seq![digit_char(n % 10)]
    }
}

/// The character of a hexadecimal digit value, in lower case.
pub open spec fn hex_digit_char(d: nat) -> char
    recommends
        d < 16,
{
    if d == 10 {
        'a'
    } else if d == 11 {
        'b'
    } else if d == 12 {
        'c'
    } else if d == 13 {
        'd'
    } else if d == 14 {
        'e'
    } else if d == 15 {
        'f'
    } else {
        digit_char(d)
    }
}

/// The lower-case hexadecimal digit string of `n`, without leading zeros.
pub open spec fn hex_str(n: nat) -> Seq<char>
    decreases n,
{
    if n < 16 {
        seq![hex_digit_char(n)]
    } else {
        hex_str(n / 16) + seq![hex_digit_char(n % 16)]
    }
}

/// A character as it appears inside a quoted rendering: quotes,
/// backslashes, line feeds, carriage returns and tabs are escaped with a
/// backslash; any other ASCII control character renders as `\u{..}` with
/// lower-case hexadecimal digits; every other character, characters
/// beyond ASCII included, stands as itself.
pub open spec fn escaped_char(c: char) -> Seq<char> {
    if c == '"' {
        seq!['\\', '"']
    } else if c == '\\' {
        seq!['\\', '\\']
    } else if c == '\n' {
        seq!['\\', 'n']
    } else if c == '\r' {
        seq!['\\', 'r']
    } else if c == '\t' {
        seq!['\\', 't']
    } else if (c as u32) < 32 || c as u32 == 127 {
        seq!['\\', 'u', '{'] + hex_str(c as u32 as nat) + seq!['}']
    } else {
        seq![c]
    }
}

/// The escaped rendering of a text.
pub open spec fn escaped(s: Seq<char>) -> Seq<char>
    decreases s.len(),
{
    if s.len() == 0 {
        Seq::empty()
    } else {
        escaped(s.drop_last()) + escaped_char(s.last())
    }
}

/// A text wrapped in double quotes, with its content escaped.
pub open spec fn quoted(s: Seq<char>) -> Seq<char> {
    seq!['"'] + escaped(s) + seq!['"']
}

/// `n` spaces.
pub open spec fn spaces(n: nat) -> Seq<char>
    decreases n,
{
    if n == 0 {
        Seq::empty()
    } else {
        spaces((n - 1) as nat) + seq![' ']
    }
}

/// A text padded with trailing spaces to width `w`; a longer text stands
/// unchanged.
pub open spec fn padded(s: Seq<char>, w: nat) -> Seq<char> {
    if s.len() >= w {
        s
    } else {
        s + spaces((w - s.len()) as nat)
    }
}

/// The display name of a token kind.
pub open spec fn token_kind_name(t: TokenType) -> Seq<char> {
    match t {
        TokenType::String => "String"@,
        TokenType::Date => "Date"@,
        TokenType::Number => "Number"@,
        TokenType::Comment => "Comment"@,
        TokenType::OpenCurlyBrace => "OpenCurlyBrace"@,
        TokenType::ClosingCurlyBrace => "ClosingCurlyBrace"@,
        TokenType::SemiColon => "SemiColon"@,
        TokenType::Other => "Other"@,
    }
}

/// One line of the token dump: the kind name padded to 20 columns, a
/// space, the span as `start -> end` padded to 15 columns, a space, the
/// quoted token text, and a line feed.
pub open spec fn token_line(t: TokenModel) -> Seq<char> {
    padded(token_kind_name(t.kind), 20) + " "@ + padded(
        dec_str(t.start as nat) + " -> "@ + dec_str(t.end as nat),
        15,
    ) + " "@ + quoted(t.text) + "\n"@
}

/// The token dump of a token list: one line per token.
pub open spec fn token_lines(ts: Seq<Token>) -> Seq<char>
    decreases ts.len(),
{
    if ts.len() == 0 {
        Seq::empty()
    } else {
        token_lines(ts.drop_last()) + token_line(ts.last()@)
    }
}

/// Relies on `String::push`: appends one character to the string.
#[verifier::external_body]
pub(crate) fn push_char(s: &mut String, c: char)
    ensures
        final(s)@ == old(s)@.push(c),
{
    s.push(c);
}

/// The digit character of a decimal digit value.
fn digit_char_of(d: usize) -> (c: char)
    requires
        d < 10,
    ensures
        c == digit_char(d as nat),
{
    match d {
        0 => '0',
        1 => '1',
        2 => '2',
        3 => '3',
        4 => '4',
        5 => '5',
        6 => '6',
        7 => '7',
        8 => '8',
        _ => '9',
    }
}

/// Appends the decimal digit string of `n`.
fn push_usize(out: &mut String, n: usize)
    ensures
        final(out)@ == old(out)@ + dec_str(n as nat),
    decreases n,
{
    if n < 10 {
        push_char(out, digit_char_of(n));
        proof {
            assert(final(out)@ =~= old(out)@ + dec_str(n as nat));
        }
    } else {
        push_usize(out, n / 10);
        push_char(out, digit_char_of(n % 10));
        proof {
            assert(final(out)@ =~= old(out)@ + dec_str(n as nat));
        }
    }
}

/// The character of a hexadecimal digit value, in lower case.
fn hex_digit_of(d: usize) -> (c: char)
    requires
        d < 16,
    ensures
        c == hex_digit_char(d as nat),
{
    match d {
        10 => 'a',
        11 => 'b',
        12 => 'c',
        13 => 'd',
        14 => 'e',
        15 => 'f',
        _ => digit_char_of(d),
    }
}

/// Appends the lower-case hexadecimal digit string of `n`.
fn push_hex(out: &mut String, n: usize)
    ensures
        final(out)@ == old(out)@ + hex_str(n as nat),
    decreases n,
{
    if n < 16 {
        push_char(out, hex_digit_of(n));
        proof {
            assert(final(out)@ =~= old(out)@ + hex_str(n as nat));
        }
    } else {
        push_hex(out, n / 16);
        push_char(out, hex_digit_of(n % 16));
        proof {
            assert(final(out)@ =~= old(out)@ + hex_str(n as nat));
        }
    }
}

/// Appends `n` spaces.
fn push_spaces(out: &mut String, n: usize)
    ensures
        final(out)@ == old(out)@ + spaces(n as nat),
{
    let mut i: usize = 0;

    while i < n
        invariant
            i <= n,
            out@ == old(out)@ + spaces(i as nat),
        decreases n - i,
    {
        push_char(out, ' ');
        proof {
            assert(old(out)@ + spaces((i + 1) as nat) =~= (old(out)@ + spaces(i as nat)).push(
                ' ',
            ));
        }
        i = i + 1;
    }
}

/// Appends `piece` padded with trailing spaces to `width` columns.
fn push_padded(out: &mut String, piece: &String, width: usize)
    ensures
        final(out)@ == old(out)@ + padded(piece@, width as nat),
{
    let length = piece.as_str().unicode_len();
    out.append(piece.as_str());

    if length < width {
        push_spaces(out, width - length);
        proof {
            assert(final(out)@ =~= old(out)@ + padded(piece@, width as nat));
        }
    }
}

/// Appends the quoted, escaped rendering of `text`.
fn push_quoted(out: &mut String, text: &str)
    ensures
        final(out)@ == old(out)@ + quoted(text@),
{
    push_char(out, '"');

    let length = text.unicode_len();
    let mut i: usize = 0;

    while i < length
        invariant
            i <= length == text@.len(),
            out@ == old(out)@ + seq!['"'] + escaped(text@.take(i as int)),
        decreases length - i,
    {
        let ghost prefix = out@;
        let c = text.get_char(i);
        if c == '"' {
            push_char(out, '\\');
            push_char(out, '"');
        } else if c == '\\' {
            push_char(out, '\\');
            push_char(out, '\\');
        } else if c == '\n' {
            push_char(out, '\\');
            push_char(out, 'n');
        } else if c == '\r' {
            push_char(out, '\\');
            push_char(out, 'r');
        } else if c == '\t' {
            push_char(out, '\\');
            push_char(out, 't');
        } else if (c as u32) < 32 || c as u32 == 127 {
            push_char(out, '\\');
            push_char(out, 'u');
            push_char(out, '{');
            push_hex(out, (c as u32) as usize);
            push_char(out, '}');
        } else {
            push_char(out, c);
        }
        proof {
            assert(out@ =~= prefix + escaped_char(text@[i as int]));
            assert(text@.take(i + 1).drop_last() =~= text@.take(i as int));
            assert(text@.take(i + 1).last() == text@[i as int]);
            assert(out@ =~= old(out)@ + seq!['"'] + escaped(text@.take(i + 1)));
        }
        i = i + 1;
    }

    push_char(out, '"');
    proof {
        assert(text@.take(length as int) =~= text@);
        assert(final(out)@ =~= old(out)@ + quoted(text@));
    }
}

/// Formats tokens into a human-readable string for troubleshooting.
pub trait HumanReadableTokensExt {
    /// The human-readable rendering of this value's tokens.
    fn human_readable_string(&self) -> String;
}

impl HumanReadableTokensExt for Token {
    /// One fixed-width line describing this token.
    fn human_readable_string(&self) -> (r: String)
        ensures
            r@ == token_line(self@),
    {
        let mut kind_col = String::new();
        kind_col.append(kind_name(&self.token_type));

        let mut span_col = String::new();
        push_usize(&mut span_col, self.span.0);
        span_col.append(" -> ");
        push_usize(&mut span_col, self.span.1);

        let mut out = String::new();
        push_padded(&mut out, &kind_col, 20);
        out.append(" ");
        push_padded(&mut out, &span_col, 15);
        out.append(" ");
        push_quoted(&mut out, self.text.as_str());
        out.append("\n");

        proof {
            assert(out@ =~= token_line(self@));
        }
        out
    }
}

impl HumanReadableTokensExt for Vec<Token> {
    /// The concatenated lines of all tokens, in order.
    fn human_readable_string(&self) -> (r: String)
        ensures
            r@ == token_lines(self@),
    {
        let mut out = String::new();
        let mut i: usize = 0;

        while i < self.len()
            invariant
                i <= self@.len(),
                out@ == token_lines(self@.take(i as int)),
            decreases self@.len() - i,
        {
            let line = self[i].human_readable_string();
            out.append(line.as_str());
            proof {
                assert(self@.take(i + 1).drop_last() =~= self@.take(i as int));
                assert(self@.take(i + 1).last() == self@[i as int]);
            }
            i = i + 1;
        }

        proof {
            assert(self@.take(self@.len() as int) =~= self@);
        }
        out
    }
}

/// The rendering of a statement keyword in the tree pretty-print: its
/// classification tag followed by its quoted text.
pub open spec fn keyword_render(k: KeywordModel) -> Seq<char> {
    match k {
        KeywordModel::Keyword(s) => "Keyword "@ + quoted(s),
        KeywordModel::ExtensionKeyword(p, n) => "ExtensionKeyword "@ + quoted(p + ":"@ + n),
        KeywordModel::Invalid(s) => "INVALID "@ + quoted(s),
    }
}

/// The rendering of a node value in the tree pretty-print: only its kind
/// is shown, never its content.
pub open spec fn value_render(v: ValueModel) -> Seq<char> {
    match v {
        ValueModel::StringValue(_) => "String"@,
        ValueModel::NumberValue(_) => "Number"@,
        ValueModel::DateValue(_) => "Date"@,
        ValueModel::OtherValue(_) => "Other"@,
    }
}

/// The rendering of one tree node at the given indentation: a line break,
/// the indentation, and a parenthesized form. Comment nodes render as
/// `(comment)` regardless of text content; block nodes render their
/// children two spaces deeper.
pub open spec fn node_render(n: NodeModel, ind: Seq<char>) -> Seq<char>
    decreases n, 0int,
{
    "\n"@ + ind + (match n {
        NodeModel::Leaf { keyword, value } => "("@ + keyword_render(keyword) + " "@
            + value_render(value) + ")"@,
        NodeModel::Block { keyword, value, children } => "("@ + keyword_render(keyword) + (
        match value {
            Some(v) => " "@ + value_render(v),
            None => Seq::empty(),
        }) + children_render(children, ind + "  "@, 0) + ")"@,
        NodeModel::Comment { text: _ } => "(comment)"@,
    })
}

/// The concatenated renderings of the children from position `i` on.
pub open spec fn children_render(children: Seq<NodeModel>, ind: Seq<char>, i: int) -> Seq<char>
    decreases children, children.len() - i,
{
    if 0 <= i < children.len() {
        node_render(children[i], ind) + children_render(children, ind, i + 1)
    } else {
        Seq::empty()
    }
}

/// The pretty-print of a whole tree: the children of the synthetic root,
/// indented two spaces, between `(root` and `)`.
pub open spec fn tree_render(root: Seq<NodeModel>) -> Seq<char> {
    "(root"@ + children_render(root, "  "@, 0) + ")"@
}

/// The display name of a node value's kind.
fn value_name(v: &NodeValue) -> (r: &'static str)
    ensures
        r@ == value_render(v@),
{
    match v {
        NodeValue::StringValue(_) => "String",
        NodeValue::NumberValue(_) => "Number",
        NodeValue::DateValue(_) => "Date",
        NodeValue::OtherValue(_) => "Other",
    }
}

/// Appends the rendering of a statement keyword.
fn push_keyword(out: &mut String, k: &StatementKeyword)
    ensures
        final(out)@ == old(out)@ + keyword_render(k@),
{
    match k {
        StatementKeyword::Keyword(s) => {
            out.append("Keyword ");
            push_quoted(out, s.as_str());
            proof {
                assert(final(out)@ =~= old(out)@ + keyword_render(k@));
            }
        },
        StatementKeyword::ExtensionKeyword(p, n) => {
            out.append("ExtensionKeyword ");
            let mut combined = p.clone();
            combined.append(":");
            combined.append(n.as_str());
            proof {
                assert(combined@ =~= p@ + ":"@ + n@);
            }
            push_quoted(out, combined.as_str());
            proof {
                assert(final(out)@ =~= old(out)@ + keyword_render(k@));
            }
        },
        StatementKeyword::Invalid(s) => {
            out.append("INVALID ");
            push_quoted(out, s.as_str());
            proof {
                assert(final(out)@ =~= old(out)@ + keyword_render(k@));
            }
        },
    }
}

/// Appends the rendering of one node and, recursively, of its children.
#[verifier::loop_isolation(false)]
#[verifier::rlimit(100)]
fn print_node(out: &mut String, node: &Node, indent: &String)
    ensures
        final(out)@ == old(out)@ + node_render(node@, indent@),
    decreases node,
{
    out.append("\n");
    out.append(indent.as_str());

    match node {
        Node::LeafNode(leaf) => {
            out.append("(");
            push_keyword(out, &leaf.keyword);
            out.append(" ");
            out.append(value_name(&leaf.value));
            out.append(")");
            proof {
                assert(final(out)@ =~= old(out)@ + node_render(node@, indent@));
            }
        },
        Node::BlockNode(block) => {
            out.append("(");
            push_keyword(out, &block.keyword);
            match &block.value {
                Some(v) => {
                    out.append(" ");
                    out.append(value_name(v));
                },
                None => {},
            }

            let mut deeper = indent.clone();
            deeper.append("  ");

            proof {
                crate::parsing::lemma_block_node_model(
                    block.keyword,
                    block.value,
                    block.children,
                );
            }
            let ghost children_m = nodes_model(block.children@);
            let ghost base = out@;

            let mut i: usize = 0;

            while i < block.children.len()
                invariant
                    i <= block.children@.len(),
                    deeper@ == indent@ + "  "@,
                    out@ + children_render(children_m, deeper@, i as int) == base
                        + children_render(children_m, deeper@, 0),
                decreases block.children@.len() - i,
            {
                let ghost before = out@;
                print_node(out, &block.children[i], &deeper);
                proof {
                    assert(out@ + children_render(children_m, deeper@, i + 1) =~= before
                        + children_render(children_m, deeper@, i as int));
                }
                i = i + 1;
            }

            out.append(")");
            proof {
                assert(final(out)@ =~= old(out)@ + node_render(node@, indent@));
            }
        },
        Node::CommentNode(_) => {
            out.append("(comment)");
            proof {
                assert(final(out)@ =~= old(out)@ + node_render(node@, indent@));
            }
        },
    }
}

/// Renders the tree as an s-expression-like pretty-print, two spaces of
/// indent per nesting depth.
#[verifier::loop_isolation(false)]
pub fn print_tree(root: &RootNode) -> (r: String)
    ensures
        r@ == tree_render(root@),
{
    let mut out = String::new();
    out.append("(root");

    let mut indent = String::new();
    indent.append("  ");

    let ghost root_m = root@;
    let ghost base = out@;

    let mut i: usize = 0;

    while i < root.children.len()
        invariant
            i <= root.children@.len(),
            root_m == root@,
            indent@ == "  "@,
            base == "(root"@,
            out@ + children_render(root_m, indent@, i as int) == base + children_render(
                root_m,
                indent@,
                0,
            ),
        decreases root.children@.len() - i,
    {
        let ghost before = out@;
        print_node(&mut out, &root.children[i], &indent);
        proof {
            assert(out@ + children_render(root_m, indent@, i + 1) =~= before + children_render(
                root_m,
                indent@,
                i as int,
            ));
        }
        i = i + 1;
    }

    out.append(")");
    proof {
        assert(out@ =~= tree_render(root@));
    }
    out
}

/// The display name of a token kind.
fn kind_name(t: &TokenType) -> (r: &'static str)
    ensures
        r@ == token_kind_name(*t),
{
    match t {
        TokenType::String => "String",
        TokenType::Date => "Date",
        TokenType::Number => "Number",
        TokenType::Comment => "Comment",
        TokenType::OpenCurlyBrace => "OpenCurlyBrace",
        TokenType::ClosingCurlyBrace => "ClosingCurlyBrace",
        TokenType::SemiColon => "SemiColon",
        TokenType::Other => "Other",
    }
}

} // verus!
