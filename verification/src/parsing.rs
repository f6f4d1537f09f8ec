//! The parser: consumes the scanner's token stream and assembles a generic
//! syntax tree of block, leaf and comment nodes.
//!
//! The parser does not enforce the official grammar of any schema language:
//! unrecognized statement keywords are preserved in the tree as
//! [`StatementKeyword::Invalid`] rather than rejected, so that downstream
//! consumers (linters, formatters) can report them with position context
//! instead of aborting the whole parse.

use vstd::prelude::*;

use vstd::string::{StrSliceExecFns, StringSliceAdditionalSpecFns};

use crate::errors::ParseError;
use crate::lexing::{ScanIterator, ScanStep, Token, TokenModel, TokenType, scan, scan_step};

verus! {

/// True of a character that may start an identifier: a letter or an
/// underscore.
pub open spec fn is_ident_start_char(c: char) -> bool {
    (65 <= c as u32 <= 90) || (97 <= c as u32 <= 122) || c as u32 == 95
}

/// True of a character that may continue an identifier: a letter, a digit,
/// `-`, `_` or `.`.
pub open spec fn is_ident_char(c: char) -> bool {
    is_ident_start_char(c) || (48 <= c as u32 <= 57) || c as u32 == 45 || c as u32 == 46
}

/// True when `s` matches the identifier pattern
/// `[A-Za-z_][A-Za-z0-9_.-]*`.
pub open spec fn is_identifier(s: Seq<char>) -> bool {
    s.len() > 0 && is_ident_start_char(s[0]) && (forall|i: int|
        0 < i < s.len() ==> is_ident_char(s[i]))
}

/// True when the colon at position `i` splits `s` into two identifiers:
/// the `prefix:name` shape of an extension keyword.
pub open spec fn is_ext_split(s: Seq<char>, i: int) -> bool {
    0 <= i < s.len() && s[i] == ':' && is_identifier(s.take(i)) && is_identifier(s.skip(i + 1))
}

/// True when `s` matches the extension-keyword pattern
/// `identifier:identifier`.
pub open spec fn is_ext_keyword(s: Seq<char>) -> bool {
    exists|i: int| is_ext_split(s, i)
}

/// The position of the colon of an extension keyword. Identifiers cannot
/// contain colons, so the split position is unique.
pub open spec fn ext_colon(s: Seq<char>) -> int {
    choose|i: int| is_ext_split(s, i)
}

/// An extension keyword splits at exactly one position.
proof fn lemma_ext_split_unique(s: Seq<char>, i: int, j: int)
    requires
        is_ext_split(s, i),
        is_ext_split(s, j),
    ensures
        i == j,
{
    if i < j {
        assert(s.take(j)[i] == ':');
        assert(!is_ident_char(':'));
    } else if j < i {
        assert(s.take(i)[j] == ':');
        assert(!is_ident_char(':'));
    }
}

/// True when `s` is one of the recognized statement keywords of the
/// grammar.
pub open spec fn is_recognized_keyword(s: Seq<char>) -> bool {
    ||| s == "action"@
    ||| s == "anydata"@
    ||| s == "anyxml"@
    ||| s == "argument"@
    ||| s == "augment"@
    ||| s == "base"@
    ||| s == "belongs-to"@
    ||| s == "bit"@
    ||| s == "case"@
    ||| s == "choice"@
    ||| s == "config"@
    ||| s == "contact"@
    ||| s == "container"@
    ||| s == "default"@
    ||| s == "description"@
    ||| s == "deviate"@
    ||| s == "deviation"@
    ||| s == "enum"@
    ||| s == "error-app-tag"@
    ||| s == "error-message"@
    ||| s == "extension"@
    ||| s == "feature"@
    ||| s == "fraction-digits"@
    ||| s == "grouping"@
    ||| s == "identity"@
    ||| s == "if-feature"@
    ||| s == "import"@
    ||| s == "include"@
    ||| s == "input"@
    ||| s == "key"@
    ||| s == "leaf"@
    ||| s == "leaf-list"@
    ||| s == "length"@
    ||| s == "list"@
    ||| s == "mandatory"@
    ||| s == "max-elements"@
    ||| s == "min-elements"@
    ||| s == "modifier"@
    ||| s == "module"@
    ||| s == "must"@
    ||| s == "namespace"@
    ||| s == "notification"@
    ||| s == "ordered-by"@
    ||| s == "organization"@
    ||| s == "output"@
    ||| s == "path"@
    ||| s == "pattern"@
    ||| s == "position"@
    ||| s == "prefix"@
    ||| s == "presence"@
    ||| s == "range"@
    ||| s == "reference"@
    ||| s == "refine"@
    ||| s == "require-instance"@
    ||| s == "revision"@
    ||| s == "revision-date"@
    ||| s == "rpc"@
    ||| s == "status"@
    ||| s == "submodule"@
    ||| s == "type"@
    ||| s == "typedef"@
    ||| s == "unique"@
    ||| s == "units"@
    ||| s == "uses"@
    ||| s == "value"@
    ||| s == "when"@
    ||| s == "yang-version"@
    ||| s == "yin-element"@
}

/// The classification of a statement-keyword text: exact membership in the
/// recognized set first, then the `identifier:identifier` extension shape,
/// and anything else is invalid.
pub open spec fn classify_spec(s: Seq<char>) -> KeywordModel {
    if is_recognized_keyword(s) {
        KeywordModel::Keyword(s)
    } else if is_ext_keyword(s) {
        KeywordModel::ExtensionKeyword(s.take(ext_colon(s)), s.skip(ext_colon(s) + 1))
    } else {
        KeywordModel::Invalid(s)
    }
}

/// The mathematical model of a [`StatementKeyword`].
#[verifier::ext_equal]
pub enum KeywordModel {
    Keyword(Seq<char>),
    ExtensionKeyword(Seq<char>, Seq<char>),
    Invalid(Seq<char>),
}

/// Compares two byte slices for equality.
fn bytes_eq(a: &[u8], b: &[u8]) -> (r: bool)
    ensures
        r == (a@ == b@),
{
    if a.len() != b.len() {
        proof {
            assert(a@.len() != b@.len());
        }
        return false;
    }

    let mut i: usize = 0;

    while i < a.len()
        invariant
            i <= a@.len() == b@.len(),
            forall|j: int| 0 <= j < i ==> a@[j] == b@[j],
        decreases a@.len() - i,
    {
        if a[i] != b[i] {
            return false;
        }
        i = i + 1;
    }

    proof {
        assert(a@ =~= b@);
    }
    true
}

/// Compares two text slices for equality, byte by byte.
fn str_eq(a: &str, b: &str) -> (r: bool)
    ensures
        r == (a@ == b@),
{
    let r = bytes_eq(a.as_bytes(), b.as_bytes());
    proof {
        if a.spec_bytes() == b.spec_bytes() {
            vstd::utf8::encode_utf8_decode_utf8(a@);
            vstd::utf8::encode_utf8_decode_utf8(b@);
        }
    }
    r
}

/// Decides membership of a text in the recognized statement-keyword set.
fn is_keyword_str(text: &str) -> (b: bool)
    ensures
        b == is_recognized_keyword(text@),
{
    str_eq(text, "action") || str_eq(text, "anydata") || str_eq(text, "anyxml") || str_eq(
        text,
        "argument",
    ) || str_eq(text, "augment") || str_eq(text, "base") || str_eq(text, "belongs-to")
        || str_eq(text, "bit") || str_eq(text, "case") || str_eq(text, "choice") || str_eq(
        text,
        "config",
    ) || str_eq(text, "contact") || str_eq(text, "container") || str_eq(text, "default")
        || str_eq(text, "description") || str_eq(text, "deviate") || str_eq(text, "deviation")
        || str_eq(text, "enum") || str_eq(text, "error-app-tag") || str_eq(text, "error-message")
        || str_eq(text, "extension") || str_eq(text, "feature") || str_eq(text, "fraction-digits")
        || str_eq(text, "grouping") || str_eq(text, "identity") || str_eq(text, "if-feature")
        || str_eq(text, "import") || str_eq(text, "include") || str_eq(text, "input") || str_eq(
        text,
        "key",
    ) || str_eq(text, "leaf") || str_eq(text, "leaf-list") || str_eq(text, "length") || str_eq(
        text,
        "list",
    ) || str_eq(text, "mandatory") || str_eq(text, "max-elements") || str_eq(text, "min-elements")
        || str_eq(text, "modifier") || str_eq(text, "module") || str_eq(text, "must") || str_eq(
        text,
        "namespace",
    ) || str_eq(text, "notification") || str_eq(text, "ordered-by") || str_eq(text, "organization")
        || str_eq(text, "output") || str_eq(text, "path") || str_eq(text, "pattern") || str_eq(
        text,
        "position",
    ) || str_eq(text, "prefix") || str_eq(text, "presence") || str_eq(text, "range") || str_eq(
        text,
        "reference",
    ) || str_eq(text, "refine") || str_eq(text, "require-instance") || str_eq(text, "revision")
        || str_eq(text, "revision-date") || str_eq(text, "rpc") || str_eq(text, "status")
        || str_eq(text, "submodule") || str_eq(text, "type") || str_eq(text, "typedef") || str_eq(
        text,
        "unique",
    ) || str_eq(text, "units") || str_eq(text, "uses") || str_eq(text, "value") || str_eq(
        text,
        "when",
    ) || str_eq(text, "yang-version") || str_eq(text, "yin-element")
}

/// Finds the first colon in the text, if any.
fn find_colon(text: &str, len: usize) -> (r: Option<usize>)
    requires
        len == text@.len(),
    ensures
        match r {
            Some(i) => i < text@.len() && text@[i as int] == ':' && (forall|k: int|
                0 <= k < i ==> text@[k] != ':'),
            None => forall|k: int| 0 <= k < text@.len() ==> text@[k] != ':',
        },
{
    let mut i: usize = 0;

    while i < len
        invariant
            i <= len == text@.len(),
            forall|k: int| 0 <= k < i ==> text@[k] != ':',
        decreases len - i,
    {
        if text.get_char(i) == ':' {
            return Some(i);
        }
        i = i + 1;
    }

    None
}

/// Decides whether the characters of `text` in `[from, to)` form an
/// identifier.
fn check_identifier_range(text: &str, from: usize, to: usize) -> (b: bool)
    requires
        from <= to <= text@.len(),
    ensures
        b == is_identifier(text@.subrange(from as int, to as int)),
{
    let ghost sub = text@.subrange(from as int, to as int);

    if from == to {
        return false;
    }

    let c = text.get_char(from);
    let u = c as u32;
    if !((65 <= u && u <= 90) || (97 <= u && u <= 122) || u == 95) {
        proof {
            assert(sub[0] == text@[from as int]);
        }
        return false;
    }

    let mut i = from + 1;

    while i < to
        invariant
            from < i <= to <= text@.len(),
            sub == text@.subrange(from as int, to as int),
            forall|j: int| from < j < i ==> is_ident_char(text@[j]),
        decreases to - i,
    {
        let c = text.get_char(i);
        let u = c as u32;
        if !((65 <= u && u <= 90) || (97 <= u && u <= 122) || u == 95 || (48 <= u && u <= 57)
            || u == 45 || u == 46) {
            proof {
                assert(sub[i - from] == text@[i as int]);
            }
            return false;
        }
        i = i + 1;
    }

    proof {
        assert(sub[0] == text@[from as int]);
        assert forall|j: int| 0 < j < sub.len() implies is_ident_char(sub[j]) by {
            assert(sub[j] == text@[from + j]);
        }
    }
    true
}

/// The classification of a token found in statement-keyword position.
#[derive(Debug, PartialEq)]
pub enum StatementKeyword {
    /// A member of the recognized statement-keyword set.
    Keyword(String),
    /// A `prefix:name` keyword, both halves well-formed identifiers.
    ExtensionKeyword(String, String),
    /// Anything else; kept in the tree rather than rejected.
    Invalid(String),
}

impl View for StatementKeyword {
    type V = KeywordModel;

    open spec fn view(&self) -> KeywordModel {
        match self {
            StatementKeyword::Keyword(s) => KeywordModel::Keyword(s@),
            StatementKeyword::ExtensionKeyword(p, n) => KeywordModel::ExtensionKeyword(p@, n@),
            StatementKeyword::Invalid(s) => KeywordModel::Invalid(s@),
        }
    }
}

impl StatementKeyword {
    /// Classifies a statement-keyword text. Decision order: exact
    /// membership in the recognized keyword set, then the
    /// `identifier:identifier` extension-keyword pattern, and anything else
    /// is invalid. Classification never fails.
    pub fn classify(text: &str) -> (r: StatementKeyword)
        ensures
            r@ == classify_spec(text@),
    {
        if is_keyword_str(text) {
            return StatementKeyword::Keyword(text.to_owned());
        }

        let len = text.unicode_len();

        match find_colon(text, len) {
            Some(i) => {
                if check_identifier_range(text, 0, i) && check_identifier_range(
                    text,
                    i + 1,
                    len,
                ) {
                    proof {
                        assert(text@.take(i as int) =~= text@.subrange(0, i as int));
                        assert(text@.skip(i + 1) =~= text@.subrange(i + 1, len as int));
                        assert(is_ext_split(text@, i as int));
                        lemma_ext_split_unique(text@, i as int, ext_colon(text@));
                    }
                    let prefix = text.substring_char(0, i).to_owned();
                    let name = text.substring_char(i + 1, len).to_owned();
                    StatementKeyword::ExtensionKeyword(prefix, name)
                } else {
                    proof {
                        if is_ext_keyword(text@) {
                            let j = choose|j: int| is_ext_split(text@, j);
                            if j < i {
                                assert(text@[j] == ':');
                            } else if j > i {
                                assert(text@.take(j)[i as int] == ':');
                                assert(!is_ident_char(':'));
                            } else {
                                assert(text@.take(i as int) =~= text@.subrange(0, i as int));
                                assert(text@.skip(i + 1) =~= text@.subrange(
                                    i + 1,
                                    len as int,
                                ));
                            }
                        }
                    }
                    StatementKeyword::Invalid(text.to_owned())
                }
            },
            None => {
                proof {
                    if is_ext_keyword(text@) {
                        let j = choose|j: int| is_ext_split(text@, j);
                        assert(text@[j] == ':');
                    }
                }
                StatementKeyword::Invalid(text.to_owned())
            },
        }
    }
}

/// The mathematical model of a [`NodeValue`].
#[verifier::ext_equal]
pub enum ValueModel {
    StringValue(Seq<char>),
    NumberValue(Seq<char>),
    DateValue(Seq<char>),
    OtherValue(Seq<char>),
}

/// The value carried by a statement, wrapping the originating token's raw
/// text (quotes retained for strings).
#[derive(Debug, PartialEq)]
pub enum NodeValue {
    StringValue(String),
    NumberValue(String),
    DateValue(String),
    OtherValue(String),
}

impl View for NodeValue {
    type V = ValueModel;

    open spec fn view(&self) -> ValueModel {
        match self {
            NodeValue::StringValue(s) => ValueModel::StringValue(s@),
            NodeValue::NumberValue(s) => ValueModel::NumberValue(s@),
            NodeValue::DateValue(s) => ValueModel::DateValue(s@),
            NodeValue::OtherValue(s) => ValueModel::OtherValue(s@),
        }
    }
}

/// The value carried by a value-bearing token: its raw text, tagged by the
/// token's kind.
pub open spec fn token_value(t: TokenModel) -> ValueModel {
    if t.kind == TokenType::String {
        ValueModel::StringValue(t.text)
    } else if t.kind == TokenType::Number {
        ValueModel::NumberValue(t.text)
    } else if t.kind == TokenType::Date {
        ValueModel::DateValue(t.text)
    } else {
        ValueModel::OtherValue(t.text)
    }
}

impl NodeValue {
    /// Wraps a token's text as a node value tagged by the token's kind.
    pub fn from_token(token: Token) -> (v: NodeValue)
        ensures
            v@ == token_value(token@),
    {
        match token.token_type {
            TokenType::String => NodeValue::StringValue(token.text),
            TokenType::Number => NodeValue::NumberValue(token.text),
            TokenType::Date => NodeValue::DateValue(token.text),
            _ => NodeValue::OtherValue(token.text),
        }
    }
}

/// The model of an optional node value.
pub open spec fn opt_value_model(v: Option<NodeValue>) -> Option<ValueModel> {
    match v {
        Some(x) => Some(x@),
        None => None,
    }
}

/// The mathematical model of a [`Node`].
#[verifier::ext_equal]
pub enum NodeModel {
    Block { keyword: KeywordModel, value: Option<ValueModel>, children: Seq<NodeModel> },
    Leaf { keyword: KeywordModel, value: ValueModel },
    Comment { text: Seq<char> },
}

/// A statement with nested children between braces.
#[derive(Debug, PartialEq)]
pub struct BlockNode {
    pub keyword: StatementKeyword,
    pub value: Option<NodeValue>,
    pub children: Vec<Node>,
}

/// A statement terminated by `;` with no children.
#[derive(Debug, PartialEq)]
pub struct LeafNode {
    pub keyword: StatementKeyword,
    pub value: NodeValue,
}

/// One node of the syntax tree.
#[derive(Debug, PartialEq)]
pub enum Node {
    BlockNode(BlockNode),
    LeafNode(LeafNode),
    CommentNode(String),
}

impl Node {
    /// The mathematical model of this node and, recursively, its children.
    pub open spec fn model(self) -> NodeModel
        decreases self,
    {
        match self {
            Node::BlockNode(b) => NodeModel::Block {
                keyword: b.keyword@,
                value: opt_value_model(b.value),
                children: Seq::new(
                    b.children@.len(),
                    |i: int|
                        if 0 <= i < b.children@.len() {
                            b.children@[i].model()
                        } else {
                            NodeModel::Comment { text: Seq::empty() }
                        },
                ),
            },
            Node::LeafNode(l) => NodeModel::Leaf { keyword: l.keyword@, value: l.value@ },
            Node::CommentNode(s) => NodeModel::Comment { text: s@ },
        }
    }
}

impl View for Node {
    type V = NodeModel;

    open spec fn view(&self) -> NodeModel {
        self.model()
    }
}

/// The synthetic top-level container: zero or more top-level statements plus
/// interleaved comments.
#[derive(Debug, PartialEq)]
pub struct RootNode {
    pub children: Vec<Node>,
}

/// The sequence of node models of a vector of nodes.
pub open spec fn nodes_model(nodes: Seq<Node>) -> Seq<NodeModel> {
    Seq::new(nodes.len(), |i: int| nodes[i]@)
}

impl View for RootNode {
    type V = Seq<NodeModel>;

    open spec fn view(&self) -> Seq<NodeModel> {
        nodes_model(self.children@)
    }
}

/// The parser's state within one nesting level: nothing pending, a
/// statement keyword pending, or a keyword and its value pending.
pub enum SpecState {
    Clean,
    GotKeyword(KeywordModel),
    GotValue(KeywordModel, ValueModel),
}

/// One suspended nesting level: the keyword and optional value of the
/// block being built, and the statements accumulated at that level so far.
pub struct SpecFrame {
    pub keyword: KeywordModel,
    pub value: Option<ValueModel>,
    pub acc: Seq<NodeModel>,
}

/// Closes every open nesting level: each suspended frame becomes a block
/// node holding the statements accumulated below it. This is how the
/// parser treats end of input in a clean state, at any depth.
pub open spec fn unwind(stack: Seq<SpecFrame>, acc: Seq<NodeModel>) -> Seq<NodeModel>
    decreases stack.len(),
{
    if stack.len() == 0 {
        acc
    } else {
        let f = stack.last();
        unwind(
            stack.drop_last(),
            f.acc.push(NodeModel::Block { keyword: f.keyword, value: f.value, children: acc }),
        )
    }
}

/// The parser's state machine, one token per step, over the scanner's
/// token stream starting at `cursor`.
///
/// In a clean state a comment is appended, a closing brace finishes the
/// current level (the whole parse if no level is open), and a value-bearing
/// token is classified as a statement keyword. After a keyword, an opening
/// brace starts a block without a value, a semicolon is a missing value,
/// and a value-bearing token becomes the pending value. After a value, an
/// opening brace starts a block with that value and a semicolon finishes a
/// leaf statement. Any other token fails, and end of input is accepted
/// only in a clean state, where it closes every open level.
pub open spec fn parse_from(
    buffer: Seq<u8>,
    cursor: int,
    state: SpecState,
    stack: Seq<SpecFrame>,
    acc: Seq<NodeModel>,
) -> Result<Seq<NodeModel>, ParseError>
    decreases buffer.len() - cursor,
    when 0 <= cursor <= buffer.len()
{
    match scan_step(buffer, cursor) {
        ScanStep::Fail { err } => Err(err),
        ScanStep::End => match state {
            SpecState::Clean => Ok(unwind(stack, acc)),
            _ => Err(ParseError::UnexpectedEndOfInput),
        },
        ScanStep::Tok { next, token } => if !(cursor < next <= buffer.len()) {
            Err(ParseError::UnexpectedEndOfInput)
        } else {
            match state {
                SpecState::Clean => match token.kind {
                    TokenType::Comment => parse_from(
                        buffer,
                        next,
                        SpecState::Clean,
                        stack,
                        acc.push(NodeModel::Comment { text: token.text }),
                    ),
                    TokenType::ClosingCurlyBrace => if stack.len() == 0 {
                        Ok(acc)
                    } else {
                        let f = stack.last();
                        parse_from(
                            buffer,
                            next,
                            SpecState::Clean,
                            stack.drop_last(),
                            f.acc.push(
                                NodeModel::Block {
                                    keyword: f.keyword,
                                    value: f.value,
                                    children: acc,
                                },
                            ),
                        )
                    },
                    TokenType::OpenCurlyBrace => Err(
                        ParseError::UnexpectedToken { pos: token.start as usize },
                    ),
                    TokenType::SemiColon => Err(
                        ParseError::UnexpectedToken { pos: token.start as usize },
                    ),
                    _ => parse_from(
                        buffer,
                        next,
                        SpecState::GotKeyword(classify_spec(token.text)),
                        stack,
                        acc,
                    ),
                },
                SpecState::GotKeyword(keyword) => match token.kind {
                    TokenType::OpenCurlyBrace => parse_from(
                        buffer,
                        next,
                        SpecState::Clean,
                        stack.push(SpecFrame { keyword, value: None, acc }),
                        Seq::empty(),
                    ),
                    TokenType::SemiColon => Err(
                        ParseError::MissingValue { pos: token.start as usize },
                    ),
                    TokenType::Comment => Err(
                        ParseError::UnexpectedToken { pos: token.start as usize },
                    ),
                    TokenType::ClosingCurlyBrace => Err(
                        ParseError::UnexpectedToken { pos: token.start as usize },
                    ),
                    _ => parse_from(
                        buffer,
                        next,
                        SpecState::GotValue(keyword, token_value(token)),
                        stack,
                        acc,
                    ),
                },
                SpecState::GotValue(keyword, value) => match token.kind {
                    TokenType::OpenCurlyBrace => parse_from(
                        buffer,
                        next,
                        SpecState::Clean,
                        stack.push(SpecFrame { keyword, value: Some(value), acc }),
                        Seq::empty(),
                    ),
                    TokenType::SemiColon => parse_from(
                        buffer,
                        next,
                        SpecState::Clean,
                        stack,
                        acc.push(NodeModel::Leaf { keyword, value }),
                    ),
                    _ => Err(ParseError::UnexpectedToken { pos: token.start as usize }),
                },
            }
        },
    }
}

/// What parsing the whole buffer yields: the sequence of top-level node
/// models, or the first scan or parse failure.
pub open spec fn parse_result(buffer: Seq<u8>) -> Result<Seq<NodeModel>, ParseError> {
    parse_from(buffer, 0, SpecState::Clean, Seq::empty(), Seq::empty())
}

/// The parser's state within one nesting level.
enum ParseState {
    Clean,
    GotKeyword(StatementKeyword),
    GotValue(StatementKeyword, NodeValue),
}

impl ParseState {
    spec fn model(&self) -> SpecState {
        match self {
            ParseState::Clean => SpecState::Clean,
            ParseState::GotKeyword(k) => SpecState::GotKeyword(k@),
            ParseState::GotValue(k, v) => SpecState::GotValue(k@, v@),
        }
    }
}

/// One suspended nesting level of the executable parser.
struct Frame {
    keyword: StatementKeyword,
    value: Option<NodeValue>,
    acc: Vec<Node>,
}

impl Frame {
    spec fn model(&self) -> SpecFrame {
        SpecFrame {
            keyword: self.keyword@,
            value: opt_value_model(self.value),
            acc: nodes_model(self.acc@),
        }
    }
}

/// The sequence of frame models of the parser's stack.
spec fn frames_model(s: Seq<Frame>) -> Seq<SpecFrame> {
    Seq::new(s.len(), |i: int| s[i].model())
}

/// The model of a block node is the block of its parts' models.
pub(crate) proof fn lemma_block_node_model(keyword: StatementKeyword, value: Option<NodeValue>, children: Vec<Node>)
    ensures
        (Node::BlockNode(BlockNode { keyword, value, children })@ == NodeModel::Block {
            keyword: keyword@,
            value: opt_value_model(value),
            children: nodes_model(children@),
        }),
{
    let n = Node::BlockNode(BlockNode { keyword, value, children });
    assert(n.model()->Block_children =~= nodes_model(children@));
    assert(n.model() == NodeModel::Block {
        keyword: keyword@,
        value: opt_value_model(value),
        children: nodes_model(children@),
    });
}

/// Pushing a node onto a statement list appends its model.
proof fn lemma_nodes_model_push(s: Seq<Node>, n: Node)
    ensures
        nodes_model(s.push(n)) =~= nodes_model(s).push(n@),
{
}

/// Consumes tokens from the scanner and builds the statement list of one
/// nesting level and, through an explicit stack of suspended levels, of
/// every level opened below it.
#[verifier::loop_isolation(false)]
fn parse_statements(tokens: &mut ScanIterator) -> (r: Result<Vec<Node>, ParseError>)
    requires
        old(tokens).wf(),
    ensures
        final(tokens).wf(),
        final(tokens).buffer@ == old(tokens).buffer@,
        match parse_from(
            old(tokens).buffer@,
            old(tokens).cursor as int,
            SpecState::Clean,
            Seq::empty(),
            Seq::empty(),
        ) {
            Ok(models) => r matches Ok(nodes) && nodes_model(nodes@) == models,
            Err(e) => r == Err::<Vec<Node>, ParseError>(e),
        },
{
    let ghost buf = old(tokens).buffer@;
    let ghost goal = parse_from(
        buf,
        old(tokens).cursor as int,
        SpecState::Clean,
        Seq::empty(),
        Seq::empty(),
    );

    let mut state = ParseState::Clean;
    let mut stack: Vec<Frame> = Vec::new();
    let mut acc: Vec<Node> = Vec::new();

    proof {
        assert(frames_model(stack@) =~= Seq::<SpecFrame>::empty());
        assert(nodes_model(acc@) =~= Seq::<NodeModel>::empty());
    }

    loop
        invariant
            tokens.wf(),
            tokens.buffer@ == buf,
            goal == parse_from(
                buf,
                tokens.cursor as int,
                state.model(),
                frames_model(stack@),
                nodes_model(acc@),
            ),
        decreases buf.len() - tokens.cursor,
    {
        let ghost prev = tokens.cursor as int;
        match tokens.next() {
            Err(e) => {
                return Err(e);
            },
            Ok(None) => {
                match state {
                    ParseState::Clean => {
                        // End of input in a clean state: close every open
                        // level, exactly as a matching run of closing
                        // braces would.
                        while stack.len() > 0
                            invariant
                                goal matches Ok(models) && models == unwind(
                                    frames_model(stack@),
                                    nodes_model(acc@),
                                ),
                            decreases stack@.len(),
                        {
                            let ghost old_stack = stack@;
                            let ghost old_acc = acc@;
                            let f = stack.pop().unwrap();
                            let Frame { keyword, value, acc: parent_acc } = f;
                            let mut parent_acc = parent_acc;
                            proof {
                                lemma_block_node_model(keyword, value, acc);
                                lemma_nodes_model_push(
                                    parent_acc@,
                                    Node::BlockNode(BlockNode { keyword, value, children: acc }),
                                );
                            }
                            parent_acc.push(
                                Node::BlockNode(BlockNode { keyword, value, children: acc }),
                            );
                            acc = parent_acc;
                            proof {
                                assert(frames_model(old_stack).drop_last() =~= frames_model(
                                    stack@,
                                ));
                                assert(frames_model(old_stack).last() == old_stack.last().model());
                                assert(nodes_model(acc@) == old_stack.last().model().acc.push(
                                    NodeModel::Block {
                                        keyword: old_stack.last().model().keyword,
                                        value: old_stack.last().model().value,
                                        children: nodes_model(old_acc),
                                    },
                                ));
                            }
                        }
                        proof {
                            assert(frames_model(stack@) =~= Seq::<SpecFrame>::empty());
                        }
                        return Ok(acc);
                    },
                    _ => {
                        return Err(ParseError::UnexpectedEndOfInput);
                    },
                }
            },
            Ok(Some(token)) => {
                let ghost step_token = (scan_step(buf, prev)->Tok_token);
                match state {
                    ParseState::Clean => {
                        match token.token_type {
                            TokenType::Comment => {
                                let ghost old_acc = acc@;
                                acc.push(Node::CommentNode(token.text));
                                state = ParseState::Clean;
                                proof {
                                    assert(nodes_model(acc@) =~= nodes_model(old_acc).push(
                                        NodeModel::Comment { text: step_token.text },
                                    ));
                                }
                            },
                            TokenType::ClosingCurlyBrace => {
                                if stack.len() == 0 {
                                    proof {
                                        assert(frames_model(stack@).len() == 0);
                                    }
                                    return Ok(acc);
                                }
                                let ghost old_stack = stack@;
                                let ghost old_acc = acc@;
                                let f = stack.pop().unwrap();
                                let Frame { keyword, value, acc: parent_acc } = f;
                                let mut parent_acc = parent_acc;
                                proof {
                                    lemma_block_node_model(keyword, value, acc);
                                    lemma_nodes_model_push(
                                        parent_acc@,
                                        Node::BlockNode(BlockNode { keyword, value, children: acc }),
                                    );
                                }
                                parent_acc.push(
                                    Node::BlockNode(BlockNode { keyword, value, children: acc }),
                                );
                                acc = parent_acc;
                                state = ParseState::Clean;
                                proof {
                                    assert(frames_model(old_stack).len() > 0);
                                    assert(frames_model(old_stack).drop_last() =~= frames_model(
                                        stack@,
                                    ));
                                    assert(frames_model(old_stack).last() == old_stack.last().model());
                                    assert(nodes_model(acc@) == old_stack.last().model().acc.push(
                                        NodeModel::Block {
                                            keyword: old_stack.last().model().keyword,
                                            value: old_stack.last().model().value,
                                            children: nodes_model(old_acc),
                                        },
                                    ));
                                }
                            },
                            TokenType::OpenCurlyBrace => {
                                return Err(ParseError::UnexpectedToken { pos: token.span.0 });
                            },
                            TokenType::SemiColon => {
                                return Err(ParseError::UnexpectedToken { pos: token.span.0 });
                            },
                            _ => {
                                state = ParseState::GotKeyword(
                                    StatementKeyword::classify(token.text.as_str()),
                                );
                            },
                        }
                    },
                    ParseState::GotKeyword(keyword) => {
                        match token.token_type {
                            TokenType::OpenCurlyBrace => {
                                let ghost old_stack = stack@;
                                let ghost old_acc = acc@;
                                stack.push(Frame { keyword, value: None, acc });
                                acc = Vec::new();
                                state = ParseState::Clean;
                                proof {
                                    assert(frames_model(stack@) =~= frames_model(old_stack).push(
                                        stack@.last().model(),
                                    ));
                                    assert(nodes_model(acc@) =~= Seq::<NodeModel>::empty());
                                }
                            },
                            TokenType::SemiColon => {
                                return Err(ParseError::MissingValue { pos: token.span.0 });
                            },
                            TokenType::Comment => {
                                return Err(ParseError::UnexpectedToken { pos: token.span.0 });
                            },
                            TokenType::ClosingCurlyBrace => {
                                return Err(ParseError::UnexpectedToken { pos: token.span.0 });
                            },
                            _ => {
                                state = ParseState::GotValue(keyword, NodeValue::from_token(token));
                            },
                        }
                    },
                    ParseState::GotValue(keyword, value) => {
                        match token.token_type {
                            TokenType::OpenCurlyBrace => {
                                let ghost old_stack = stack@;
                                stack.push(Frame { keyword, value: Some(value), acc });
                                acc = Vec::new();
                                state = ParseState::Clean;
                                proof {
                                    assert(frames_model(stack@) =~= frames_model(old_stack).push(
                                        stack@.last().model(),
                                    ));
                                    assert(nodes_model(acc@) =~= Seq::<NodeModel>::empty());
                                }
                            },
                            TokenType::SemiColon => {
                                let ghost old_acc = acc@;
                                let ghost kw_model = keyword@;
                                let ghost v_model = value@;
                                acc.push(Node::LeafNode(LeafNode { keyword, value }));
                                state = ParseState::Clean;
                                proof {
                                    assert(nodes_model(acc@) =~= nodes_model(old_acc).push(
                                        NodeModel::Leaf { keyword: kw_model, value: v_model },
                                    ));
                                }
                            },
                            _ => {
                                return Err(ParseError::UnexpectedToken { pos: token.span.0 });
                            },
                        }
                    },
                }
            },
        }
    }
}

/// Classification never fails, and an unrecognized keyword is preserved
/// rather than rejected: a text that is neither a recognized keyword nor
/// of the `identifier:identifier` shape classifies as `Invalid` carrying
/// that text.
pub proof fn lemma_invalid_keyword_preserved(s: Seq<char>)
    requires
        !is_recognized_keyword(s),
        !is_ext_keyword(s),
    ensures
        classify_spec(s) == KeywordModel::Invalid(s),
{
}

/// An unrecognized statement keyword is never fatal. In a clean state any
/// value-bearing token — whatever its text classifies as, `Invalid`
/// included — moves the parser into the keyword-pending state instead of
/// failing; invalid keywords are the system's tolerance mechanism, kept in
/// the tree for downstream consumers.
pub proof fn lemma_unrecognized_keyword_not_fatal(
    buffer: Seq<u8>,
    cursor: int,
    stack: Seq<SpecFrame>,
    acc: Seq<NodeModel>,
)
    requires
        0 <= cursor <= buffer.len(),
        scan_step(buffer, cursor) matches ScanStep::Tok { next, token } && cursor < next
            <= buffer.len() && (token.kind == TokenType::Other || token.kind == TokenType::String
            || token.kind == TokenType::Number || token.kind == TokenType::Date),
    ensures
        scan_step(buffer, cursor) matches ScanStep::Tok { next, token } && parse_from(
            buffer,
            cursor,
            SpecState::Clean,
            stack,
            acc,
        ) == parse_from(
            buffer,
            next,
            SpecState::GotKeyword(classify_spec(token.text)),
            stack,
            acc,
        ),
{
}

/// Parsing is deterministic: the result is a function of the buffer
/// alone, so two successful runs of [`parse`] on the identical buffer
/// yield structurally equal trees. [`parse`] pins each successful result
/// to `parse_result(buffer)`, of which this is an immediate consequence.
pub proof fn lemma_parse_deterministic(buffer: Seq<u8>, r1: RootNode, r2: RootNode)
    requires
        parse_result(buffer) matches Ok(models) && r1@ == models && r2@ == models,
    ensures
        r1@ == r2@,
{
}

/// Parses the input bytes as a schema document and returns a syntax tree.
///
/// The returned node is a virtual root container. Its children are the
/// document's top-level statements and comments: the grammar is not
/// enforced, so a document may hold several top-level blocks, or none.
pub fn parse(buffer: &[u8]) -> (r: Result<RootNode, ParseError>)
    requires
        buffer@.len() < usize::MAX,
    ensures
        match parse_result(buffer@) {
            Ok(models) => r matches Ok(root) && root@ == models,
            Err(e) => r == Err::<RootNode, ParseError>(e),
        },
{
    let mut tokens = scan(buffer);

    match parse_statements(&mut tokens) {
        Ok(children) => Ok(RootNode { children }),
        Err(e) => Err(e),
    }
}

} // verus!
