use radium::dom::{build_tree, Node};
use radium::parser::{tokenize, Token};

fn element(node: &Node) -> (&String, &Vec<Node>) {
    match node {
        Node::Element { tag, children, .. } => (tag, children),
        other => panic!("expected an element, got {:?}", other),
    }
}

fn text(node: &Node) -> &String {
    match node {
        Node::Text(content) => content,
        other => panic!("expected text, got {:?}", other),
    }
}

#[test]
fn implicit_closing_keeps_nesting() {
    let forest = build_tree(tokenize("<div><p>A</div>"));
    assert_eq!(forest.len(), 1);
    let (tag, children) = element(&forest[0]);
    assert_eq!(tag, "div");
    assert_eq!(children.len(), 1);
    let (ptag, pchildren) = element(&children[0]);
    assert_eq!(ptag, "p");
    assert_eq!(pchildren.len(), 1);
    assert_eq!(text(&pchildren[0]), "A");
}

#[test]
fn unmatched_close_tag_is_a_no_op() {
    let forest = build_tree(tokenize("<p>A</b>B</p>"));
    assert_eq!(forest.len(), 1);
    let (tag, children) = element(&forest[0]);
    assert_eq!(tag, "p");
    assert_eq!(children.len(), 2);
    assert_eq!(text(&children[0]), "A");
    assert_eq!(text(&children[1]), "B");
}

#[test]
fn void_elements_never_take_children() {
    let forest = build_tree(tokenize("<p><br>x</p>"));
    let (tag, children) = element(&forest[0]);
    assert_eq!(tag, "p");
    assert_eq!(children.len(), 2);
    let (brtag, brchildren) = element(&children[0]);
    assert_eq!(brtag, "br");
    assert!(brchildren.is_empty());
    assert_eq!(text(&children[1]), "x");
}

#[test]
fn self_closing_matches_void_shape() {
    let with_slash = build_tree(tokenize("<br/>"));
    let plain = build_tree(tokenize("<br>"));
    assert_eq!(with_slash, plain);
}

#[test]
fn unclosed_tags_flush_at_end_of_input() {
    let forest = build_tree(tokenize("<div><p>a"));
    assert_eq!(forest.len(), 1);
    let (tag, children) = element(&forest[0]);
    assert_eq!(tag, "div");
    let (ptag, pchildren) = element(&children[0]);
    assert_eq!(ptag, "p");
    assert_eq!(text(&pchildren[0]), "a");
}

#[test]
fn doctype_tokens_are_dropped() {
    let forest = build_tree(tokenize("<!DOCTYPE html><p>a</p>"));
    assert_eq!(forest.len(), 1);
    let (tag, _) = element(&forest[0]);
    assert_eq!(tag, "p");
}

#[test]
fn stray_empty_close_tag_is_ignored() {
    let forest = build_tree(vec![
        Token::Text("a".to_string()),
        Token::CloseTag(String::new()),
        Token::Text("b".to_string()),
    ]);
    assert_eq!(forest.len(), 2);
    assert_eq!(text(&forest[0]), "a");
    assert_eq!(text(&forest[1]), "b");
}

#[test]
fn close_tag_picks_most_recent_match() {
    // The inner <b> is closed by the first </b>; the outer one stays open
    // for the second.
    let forest = build_tree(tokenize("<b>x<b>y</b>z</b>"));
    assert_eq!(forest.len(), 1);
    let (tag, children) = element(&forest[0]);
    assert_eq!(tag, "b");
    assert_eq!(children.len(), 3);
    assert_eq!(text(&children[0]), "x");
    let (inner_tag, inner_children) = element(&children[1]);
    assert_eq!(inner_tag, "b");
    assert_eq!(text(&inner_children[0]), "y");
    assert_eq!(text(&children[2]), "z");
}
