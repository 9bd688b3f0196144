use pratt_parser::nodes::Node;
use pratt_parser::nodes::NodeType;

fn leaf(text: &str) -> Node {
    Node { kind: NodeType::Literal(text.to_string(), vec![]) }
}

fn operator(op: char, children: Vec<Node>) -> Node {
    Node { kind: NodeType::Operator(op, children) }
}

#[test]
fn leaf_has_no_children() {
    assert!(leaf("a").get_children().is_empty());
}

#[test]
fn operator_hands_out_its_children_in_order() {
    let node = operator('+', vec![leaf("a"), operator('-', vec![leaf("b")])]);
    assert_eq!(
        node.get_children(),
        &vec![leaf("a"), operator('-', vec![leaf("b")])]
    );
    assert_eq!(node.get_children()[1].get_children(), &vec![leaf("b")]);
}

#[test]
fn outline_of_a_leaf_is_one_line() {
    assert_eq!(leaf("abc").traverse(0), "abc\n");
    assert_eq!(leaf("abc").traverse(1), "  abc\n");
    assert_eq!(leaf("abc").traverse(3), "      abc\n");
    assert_eq!(leaf("").traverse(2), "    \n");
}

#[test]
fn outline_indents_children_by_two_spaces_a_level() {
    let tree = operator(
        '+',
        vec![
            leaf("a"),
            operator('*', vec![leaf("b"), operator('!', vec![leaf("c")])]),
            leaf("d"),
        ],
    );
    assert_eq!(
        tree.traverse(0),
        "+\n  a\n  *\n    b\n    !\n      c\n  d\n"
    );
    assert_eq!(
        tree.traverse(2),
        "    +\n      a\n      *\n        b\n        !\n          c\n      d\n"
    );
}

#[test]
fn outline_keeps_the_text_of_a_leaf_as_it_is() {
    let tree = operator('.', vec![leaf("two words"), leaf("h\u{e9}")]);
    assert_eq!(tree.traverse(0), ".\n  two words\n  h\u{e9}\n");
}
