use yangparse::errors::ParseError;
use yangparse::formatting::print_tree;
use yangparse::parsing::{parse, Node, NodeValue, RootNode, StatementKeyword};
use yangparse::util::dedent;

#[test]
fn smoke_test() {
    let buffer: Vec<u8> = dedent(
        r#"
             /*
              * This is a block comment
              */

             module test {
                 yang-version 1;
                 namespace "https://github.com/Hubro/yangparse";
                 description 'A small smoke test to make sure basic lexing works';

                 revision 2018-12-03 {
                     // I'm a comment!
                     description
                       "A multi-line string starting in an indented line

                        This is an idiomatic way to format large strings
                        in YANG models";
                 }

                 number 12.34;
             }
             "#,
    )
    .bytes()
    .collect();

    let tree = parse(&buffer).expect("Failed to parse YANG");

    assert_eq!(
        dedent(
            r#"
                (root
                  (comment)
                  (Keyword "module" Other
                    (Keyword "yang-version" Number)
                    (Keyword "namespace" String)
                    (Keyword "description" String)
                    (Keyword "revision" Date
                      (comment)
                      (Keyword "description" String))
                    (INVALID "number" Number)))
                "#
        ),
        format!("{}\n", print_tree(&tree)),
    );
}

#[test]
fn nested_blocks_build_the_expected_tree() {
    let buffer = b"module test {\n  leaf foo {\n    type string;\n  }\n}\n";
    let tree = parse(buffer).expect("parse failed");

    assert_eq!(tree.children.len(), 1);
    let module = match &tree.children[0] {
        Node::BlockNode(block) => block,
        other => panic!("expected a block node, got {:?}", other),
    };
    assert!(matches!(&module.keyword, StatementKeyword::Keyword(k) if k == "module"));
    assert!(matches!(&module.value, Some(NodeValue::OtherValue(v)) if v == "test"));
    assert_eq!(module.children.len(), 1);

    let leaf_block = match &module.children[0] {
        Node::BlockNode(block) => block,
        other => panic!("expected a block node, got {:?}", other),
    };
    assert!(matches!(&leaf_block.keyword, StatementKeyword::Keyword(k) if k == "leaf"));
    assert!(matches!(&leaf_block.value, Some(NodeValue::OtherValue(v)) if v == "foo"));
    assert_eq!(leaf_block.children.len(), 1);

    let type_leaf = match &leaf_block.children[0] {
        Node::LeafNode(leaf) => leaf,
        other => panic!("expected a leaf node, got {:?}", other),
    };
    assert!(matches!(&type_leaf.keyword, StatementKeyword::Keyword(k) if k == "type"));
    assert!(matches!(&type_leaf.value, NodeValue::OtherValue(v) if v == "string"));
}

#[test]
fn unrecognized_keyword_is_kept_as_invalid() {
    let tree = parse(b"foo 1;").expect("parse failed");

    assert_eq!(tree.children.len(), 1);
    let leaf = match &tree.children[0] {
        Node::LeafNode(leaf) => leaf,
        other => panic!("expected a leaf node, got {:?}", other),
    };
    assert!(matches!(&leaf.keyword, StatementKeyword::Invalid(k) if k == "foo"));
    assert!(matches!(&leaf.value, NodeValue::NumberValue(v) if v == "1"));
}

#[test]
fn keyword_without_value_before_semicolon_fails() {
    let result = parse(b"foo;");
    assert!(matches!(result, Err(ParseError::MissingValue { .. })));
}

#[test]
fn extension_keyword_splits_at_the_colon() {
    let tree = parse(b"ns:ext 1;").expect("parse failed");

    let leaf = match &tree.children[0] {
        Node::LeafNode(leaf) => leaf,
        other => panic!("expected a leaf node, got {:?}", other),
    };
    match &leaf.keyword {
        StatementKeyword::ExtensionKeyword(prefix, name) => {
            assert_eq!(prefix, "ns");
            assert_eq!(name, "ext");
        },
        other => panic!("expected an extension keyword, got {:?}", other),
    }

    // The pretty-print shows the whole prefix:name text.
    assert_eq!(print_tree(&tree), "(root\n  (ExtensionKeyword \"ns:ext\" Number))");
}

#[test]
fn missing_inner_semicolon_fails() {
    let result = parse(b"leaf foo { type string }");
    assert!(matches!(
        result,
        Err(ParseError::UnexpectedToken { .. }) | Err(ParseError::UnexpectedEndOfInput)
    ));
}

#[test]
fn input_ending_mid_statement_fails() {
    let result = parse(b"leaf foo");
    assert!(matches!(result, Err(ParseError::UnexpectedEndOfInput)));
}

#[test]
fn stray_semicolon_fails() {
    let result = parse(b"; leaf foo;");
    assert!(matches!(result, Err(ParseError::UnexpectedToken { pos: 0 })));
}

#[test]
fn comments_become_comment_nodes() {
    let tree = parse(b"// above\nfoo 1;\n/* below */").expect("parse failed");

    assert_eq!(tree.children.len(), 3);
    assert!(matches!(&tree.children[0], Node::CommentNode(text) if text == "// above"));
    assert!(matches!(&tree.children[1], Node::LeafNode(_)));
    assert!(matches!(&tree.children[2], Node::CommentNode(text) if text == "/* below */"));
}

#[test]
fn missing_final_close_brace_is_tolerated() {
    // End of input in a clean state closes every open level.
    let tree = parse(b"module test {\n  foo 1;\n").expect("parse failed");

    assert_eq!(tree.children.len(), 1);
    let module = match &tree.children[0] {
        Node::BlockNode(block) => block,
        other => panic!("expected a block node, got {:?}", other),
    };
    assert_eq!(module.children.len(), 1);
}

#[test]
fn parse_is_deterministic() {
    let buffer = b"module test {\n  leaf foo {\n    type string;\n  }\n}\n";

    let first: RootNode = parse(buffer).expect("parse failed");
    let second: RootNode = parse(buffer).expect("parse failed");

    assert_eq!(first, second);
    assert_eq!(print_tree(&first), print_tree(&second));
}

#[test]
fn empty_input_yields_an_empty_root() {
    let tree = parse(b"").expect("parse failed");
    assert_eq!(tree.children.len(), 0);
    assert_eq!(print_tree(&tree), "(root)");
}
