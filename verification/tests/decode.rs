use oxi_phil::decode::{decode, decode_tokens};
use oxi_phil::error::{DecodeError, Reason};
use oxi_phil::flatten::flatten;
use oxi_phil::thread::Choice;
use oxi_phil::xml::Token;

fn children(tree: Choice) -> Vec<Choice> {
    match tree {
        Choice::Container(c) => c,
        _ => panic!("the tree of a fragment is a block"),
    }
}

fn text_of(node: &Choice) -> &str {
    match node {
        Choice::Text(t) => t,
        _ => panic!("not a text node"),
    }
}

#[test]
fn decode_reads_text_and_line_breaks() {
    let nodes = children(decode("<html>one<br/>two</html>").unwrap());
    assert_eq!(nodes.len(), 3);
    assert_eq!(text_of(&nodes[0]), "one");
    assert!(matches!(nodes[1], Choice::LineBreak));
    assert_eq!(text_of(&nodes[2]), "two");
}

#[test]
fn decode_resolves_references_in_text() {
    let nodes = children(decode("<html>a &amp; b &#33;</html>").unwrap());
    assert_eq!(nodes.len(), 1);
    assert_eq!(text_of(&nodes[0]), "a & b !");
}

#[test]
fn decode_refuses_an_unknown_reference() {
    assert_eq!(
        decode("<html>a &nbsp; b</html>").err(),
        Some(DecodeError::Malformed(Reason::Entity))
    );
}

#[test]
fn decode_knows_the_vocabulary() {
    let nodes = children(
        decode("<html><b>x</b><i>y</i><a href=\"u\">z</a><span>s</span><div>d</div><span/></html>")
            .unwrap(),
    );
    assert_eq!(nodes.len(), 6);
    assert!(matches!(&nodes[0], Choice::Bold(c) if c.len() == 1 && text_of(&c[0]) == "x"));
    assert!(matches!(&nodes[1], Choice::Italic(c) if c.len() == 1 && text_of(&c[0]) == "y"));
    assert!(matches!(&nodes[2], Choice::Link(Some(t)) if t == "z"));
    assert!(matches!(&nodes[3], Choice::Span(Some(c)) if c.len() == 1 && text_of(&c[0]) == "s"));
    assert!(matches!(&nodes[4], Choice::Container(c) if c.len() == 1 && text_of(&c[0]) == "d"));
    assert!(matches!(&nodes[5], Choice::Span(None)));
}

#[test]
fn decode_takes_other_elements_for_decorations_and_drops_what_they_hold() {
    let nodes = children(
        decode("<html><img src=\"i\"/><ul><li>one</li></ul><u>x</u><s>y</s><sup>1</sup><iframe/><table><blockquote/></table></html>")
            .unwrap(),
    );
    assert_eq!(nodes.len(), 7);
    for node in &nodes {
        assert!(matches!(node, Choice::Decoration));
    }
}

#[test]
fn decode_link_without_text_has_none() {
    let nodes = children(decode("<html><a href=\"u\"><img/></a></html>").unwrap());
    assert!(matches!(&nodes[0], Choice::Link(None)));
}

#[test]
fn decode_reads_a_quotation() {
    let tree = decode(
        "<html><blockquote><div><span>q</span><span>said</span><span>by <a href=\"u\">Kant</a></span></div></blockquote></html>",
    )
    .unwrap();
    let nodes = children(tree);
    assert!(matches!(&nodes[0], Choice::Blockquote(c) if c.len() == 1));
}

#[test]
fn decode_refuses_a_quotation_without_its_block() {
    assert_eq!(
        decode("<html><blockquote>just text</blockquote></html>").err(),
        Some(DecodeError::Malformed(Reason::Blockquote))
    );
    assert_eq!(
        decode("<html><blockquote></blockquote></html>").err(),
        Some(DecodeError::Malformed(Reason::Blockquote))
    );
}

#[test]
fn decode_refuses_a_quotation_without_quoted_text() {
    assert_eq!(
        decode("<html><blockquote><div><span>only one</span></div></blockquote></html>").err(),
        Some(DecodeError::Malformed(Reason::Blockquote))
    );
    assert_eq!(
        decode("<html><blockquote><div><span>q</span><b>not a group</b></div></blockquote></html>")
            .err(),
        Some(DecodeError::Malformed(Reason::Blockquote))
    );
    assert_eq!(
        decode("<html><blockquote><div><span>q</span><span/></div></blockquote></html>").err(),
        Some(DecodeError::Malformed(Reason::Blockquote))
    );
}

#[test]
fn decode_refuses_a_quotation_whose_author_is_no_link() {
    assert_eq!(
        decode("<html><blockquote><div><span>q</span><span>said</span><span>by <b>Kant</b></span></div></blockquote></html>")
            .err(),
        Some(DecodeError::Malformed(Reason::Blockquote))
    );
}

#[test]
fn decode_refuses_a_fragment_that_is_not_wrapped() {
    assert_eq!(decode("just text").err(), Some(DecodeError::Malformed(Reason::Root)));
    assert_eq!(decode("<a/><b/>").err(), Some(DecodeError::Malformed(Reason::Root)));
    assert_eq!(decode("").err(), Some(DecodeError::Malformed(Reason::Root)));
}

#[test]
fn decode_refuses_what_the_reader_cannot_read() {
    assert_eq!(decode("<html><b></i></html>").err(), Some(DecodeError::Malformed(Reason::Syntax)));
}

#[test]
fn decode_refuses_an_element_left_open() {
    assert_eq!(decode("<html><b>").err(), Some(DecodeError::Malformed(Reason::Unbalanced)));
}

#[test]
fn decode_refuses_attributes_that_cannot_be_read() {
    assert_eq!(
        decode("<html><a href>x</a></html>").err(),
        Some(DecodeError::Malformed(Reason::Attributes))
    );
}

#[test]
fn decode_tokens_builds_the_tree_from_given_tokens() {
    let tokens = vec![
        Token::Open { name: "html".to_string(), attrs: String::new() },
        Token::Text("x &lt; y".to_string()),
        Token::Skip,
        Token::CData("a & b".to_string()),
        Token::Open { name: "br".to_string(), attrs: String::new() },
        Token::Close,
        Token::Close,
    ];
    let nodes = children(decode_tokens(&tokens).unwrap());
    assert_eq!(nodes.len(), 3);
    assert_eq!(text_of(&nodes[0]), "x < y");
    assert_eq!(text_of(&nodes[1]), "a & b");
    assert!(matches!(nodes[2], Choice::LineBreak));
}

#[test]
fn decode_tokens_refuses_an_end_tag_without_a_start_tag() {
    let tokens = vec![Token::Close];
    assert_eq!(decode_tokens(&tokens).err(), Some(DecodeError::Malformed(Reason::Unbalanced)));
}

#[test]
fn decode_tokens_refuses_an_invalid_token() {
    let tokens = vec![
        Token::Open { name: "html".to_string(), attrs: String::new() },
        Token::Invalid,
        Token::Close,
    ];
    assert_eq!(decode_tokens(&tokens).err(), Some(DecodeError::Malformed(Reason::Syntax)));
}

#[test]
fn decode_then_flatten_is_the_same_on_every_run() {
    let fragment = "<html>one<br/><b>two</b> three<br/><br/><br/>four</html>";
    let first = flatten(&decode(fragment).unwrap());
    let second = flatten(&decode(fragment).unwrap());
    assert_eq!(first, second);
    assert_eq!(first, vec!["one", " twothree", "", "four"]);
}
