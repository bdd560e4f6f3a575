use oxi_phil::error::{DecodeError, Reason};
use oxi_phil::tree::{find_attr, find_named, parse_range, read_own_text, Node};
use oxi_phil::xml::{tokenize, Attr, Token};

fn open(name: &str, attrs: &str) -> Token {
    Token::Open { name: name.to_string(), attrs: attrs.to_string() }
}

fn parse(text: &str) -> Result<Vec<Node>, DecodeError> {
    let tokens = tokenize(text);
    parse_range(&tokens, 0, tokens.len())
}

fn element(node: &Node) -> (&str, &Vec<Attr>, &Vec<Node>) {
    match node {
        Node::Element { name, attrs, children } => (name, attrs, children),
        Node::Text(_) => panic!("not an element"),
    }
}

fn text(node: &Node) -> &str {
    match node {
        Node::Text(t) => t,
        Node::Element { .. } => panic!("not a text"),
    }
}

#[test]
fn parse_range_builds_elements_with_attributes_and_children() {
    let nodes = parse("<a x=\"1\" y='t &amp; u'><b>in</b>after<c/></a>tail").unwrap();
    assert_eq!(nodes.len(), 2);
    let (name, attrs, children) = element(&nodes[0]);
    assert_eq!(name, "a");
    assert_eq!(attrs.len(), 2);
    assert_eq!((attrs[0].key.as_str(), attrs[0].value.as_str()), ("x", "1"));
    assert_eq!((attrs[1].key.as_str(), attrs[1].value.as_str()), ("y", "t & u"));
    assert_eq!(children.len(), 3);
    let (b, _, in_b) = element(&children[0]);
    assert_eq!(b, "b");
    assert_eq!(text(&in_b[0]), "in");
    assert_eq!(text(&children[1]), "after");
    let (c, c_attrs, in_c) = element(&children[2]);
    assert_eq!(c, "c");
    assert!(c_attrs.is_empty());
    assert!(in_c.is_empty());
    assert_eq!(text(&nodes[1]), "tail");
}

#[test]
fn parse_range_reads_the_tokens_of_the_range_only() {
    let tokens = tokenize("<a><b>x</b><c>y</c></a>");
    let nodes = parse_range(&tokens, 1, 4).unwrap();
    assert_eq!(nodes.len(), 1);
    assert_eq!(element(&nodes[0]).0, "b");
    assert_eq!(parse_range(&tokens, 3, 3).unwrap().len(), 0);
    assert_eq!(
        parse_range(&tokens, 0, 4).err(),
        Some(DecodeError::Malformed(Reason::Unbalanced))
    );
    assert_eq!(
        parse_range(&tokens, 3, 5).err(),
        Some(DecodeError::Malformed(Reason::Unbalanced))
    );
}

#[test]
fn parse_range_reports_the_first_token_that_is_refused() {
    let tokens = vec![
        open("a", " broken"),
        Token::Text("&nbsp;".to_string()),
        Token::Invalid,
    ];
    assert_eq!(parse_range(&tokens, 0, 3).err(), Some(DecodeError::Malformed(Reason::Attributes)));
    assert_eq!(parse_range(&tokens, 1, 3).err(), Some(DecodeError::Malformed(Reason::Entity)));
    assert_eq!(parse_range(&tokens, 2, 3).err(), Some(DecodeError::Malformed(Reason::Syntax)));
}

#[test]
fn parse_range_takes_character_data_as_it_is() {
    let tokens = vec![Token::CData("a &amp; <b>".to_string()), Token::Skip];
    let nodes = parse_range(&tokens, 0, 2).unwrap();
    assert_eq!(nodes.len(), 1);
    assert_eq!(text(&nodes[0]), "a &amp; <b>");
}

#[test]
fn parse_range_refuses_a_duplicated_attribute() {
    assert_eq!(
        parse("<a x=\"1\" x=\"2\"/>").err(),
        Some(DecodeError::Malformed(Reason::Attributes))
    );
}

#[test]
fn find_attr_gives_the_first_value_of_the_key() {
    let attrs = vec![
        Attr { key: "a".to_string(), value: "1".to_string() },
        Attr { key: "b".to_string(), value: "2".to_string() },
        Attr { key: "a".to_string(), value: "3".to_string() },
    ];
    assert_eq!(find_attr(&attrs, "a"), Some("1".to_string()));
    assert_eq!(find_attr(&attrs, "b"), Some("2".to_string()));
    assert_eq!(find_attr(&attrs, "c"), None);
    assert_eq!(find_attr(&vec![], "a"), None);
}

#[test]
fn find_named_gives_the_first_element_of_the_name_from_a_place_on() {
    let nodes = parse("<a/>text<b/><a/>").unwrap();
    assert_eq!(find_named(&nodes, "a", 0), 0);
    assert_eq!(find_named(&nodes, "a", 1), 3);
    assert_eq!(find_named(&nodes, "b", 0), 2);
    assert_eq!(find_named(&nodes, "b", 3), 4);
    assert_eq!(find_named(&nodes, "text", 0), 4);
    assert_eq!(find_named(&nodes, "a", 9), 4);
}

#[test]
fn read_own_text_joins_the_text_that_stands_directly_in_the_element() {
    let nodes = parse("one<b>not this</b>two").unwrap();
    assert_eq!(read_own_text(&nodes), Some("onetwo".to_string()));
    let none = parse("<b>not this</b>").unwrap();
    assert_eq!(read_own_text(&none), None);
    assert_eq!(read_own_text(&vec![]), None);
}
