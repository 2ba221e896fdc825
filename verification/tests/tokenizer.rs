use radium::attrs::AttrMap;
use radium::parser::{tokenize, Token};

fn open_tag(name: &str, self_closing: bool) -> Token {
    Token::OpenTag { name: name.to_string(), attrs: AttrMap::new(), self_closing }
}

#[test]
fn roundtrip_well_formed() {
    let tokens = tokenize("<p>Hi</p>");
    assert_eq!(
        tokens,
        vec![open_tag("p", false), Token::Text("Hi".to_string()), Token::CloseTag("p".to_string())]
    );
}

#[test]
fn whitespace_collapsing() {
    let tokens = tokenize("<p>  a   b\n c </p>");
    assert_eq!(tokens[1], Token::Text("a b c".to_string()));
}

#[test]
fn self_closing_and_plain_void() {
    assert_eq!(tokenize("<br/>"), vec![open_tag("br", true)]);
    assert_eq!(tokenize("<br>"), vec![open_tag("br", false)]);
}

#[test]
fn names_are_lowercased() {
    let tokens = tokenize("<DIV CLASS='x'>text</DIV>");
    match &tokens[0] {
        Token::OpenTag { name, attrs, self_closing } => {
            assert_eq!(name, "div");
            assert!(!*self_closing);
            assert_eq!(attrs.get("class").unwrap(), "x");
        }
        other => panic!("expected an open tag, got {:?}", other),
    }
    assert_eq!(tokens[2], Token::CloseTag("div".to_string()));
}

#[test]
fn attribute_forms() {
    let tokens = tokenize("<a href=\"u1\" title='t' id=plain disabled>");
    match &tokens[0] {
        Token::OpenTag { attrs, .. } => {
            assert_eq!(attrs.get("href").unwrap(), "u1");
            assert_eq!(attrs.get("title").unwrap(), "t");
            assert_eq!(attrs.get("id").unwrap(), "plain");
            assert_eq!(attrs.get("disabled").unwrap(), "");
            assert!(attrs.get("missing").is_none());
        }
        other => panic!("expected an open tag, got {:?}", other),
    }
}

#[test]
fn later_duplicate_attribute_wins() {
    let tokens = tokenize("<a href=x href='y'>");
    match &tokens[0] {
        Token::OpenTag { attrs, .. } => {
            assert_eq!(attrs.get("href").unwrap(), "y");
        }
        other => panic!("expected an open tag, got {:?}", other),
    }
}

#[test]
fn doctype_and_comments_become_doctype_tokens() {
    let tokens = tokenize("<!DOCTYPE html><p>x</p>");
    assert_eq!(tokens[0], Token::Doctype);
    assert_eq!(tokens[1], open_tag("p", false));
    let tokens = tokenize("<!-- note -->y");
    assert_eq!(tokens, vec![Token::Doctype, Token::Text("y".to_string())]);
}

#[test]
fn processing_instruction_is_skipped() {
    let tokens = tokenize("<?xml version='1.0'?><p>x</p>");
    assert_eq!(
        tokens,
        vec![open_tag("p", false), Token::Text("x".to_string()), Token::CloseTag("p".to_string())]
    );
}

#[test]
fn empty_tag_name_is_discarded() {
    let tokens = tokenize("a <* b> c");
    assert_eq!(tokens, vec![Token::Text("a".to_string()), Token::Text("c".to_string())]);
}

#[test]
fn digit_initial_tag_name_is_discarded() {
    let tokens = tokenize("a <3 b> c");
    assert_eq!(tokens, vec![Token::Text("a".to_string()), Token::Text("c".to_string())]);
}

#[test]
fn digits_after_the_first_letter_are_part_of_the_name() {
    let tokens = tokenize("<h2>x</h2>");
    assert_eq!(
        tokens,
        vec![
            open_tag("h2", false),
            Token::Text("x".to_string()),
            Token::CloseTag("h2".to_string()),
        ]
    );
}

#[test]
fn bare_close_is_dropped() {
    let tokens = tokenize("x</>y");
    assert_eq!(tokens, vec![Token::Text("x".to_string()), Token::Text("y".to_string())]);
}

#[test]
fn unterminated_tag_at_end_of_input() {
    let tokens = tokenize("<p class=x");
    match &tokens[0] {
        Token::OpenTag { name, attrs, self_closing } => {
            assert_eq!(name, "p");
            assert!(!*self_closing);
            assert_eq!(attrs.get("class").unwrap(), "x");
        }
        other => panic!("expected an open tag, got {:?}", other),
    }
    assert_eq!(tokens.len(), 1);
}

#[test]
fn whitespace_only_text_is_dropped() {
    let tokens = tokenize("<p>   \n\t  </p>");
    assert_eq!(
        tokens,
        vec![open_tag("p", false), Token::CloseTag("p".to_string())]
    );
}

#[test]
fn quoted_value_keeps_whitespace_verbatim() {
    let tokens = tokenize("<a title='two  words'>");
    match &tokens[0] {
        Token::OpenTag { attrs, .. } => {
            assert_eq!(attrs.get("title").unwrap(), "two  words");
        }
        other => panic!("expected an open tag, got {:?}", other),
    }
}
