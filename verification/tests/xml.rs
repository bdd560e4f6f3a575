use oxi_phil::xml::{tokenize, Token};

fn open(name: &str, attrs: &str) -> Token {
    Token::Open { name: name.to_string(), attrs: attrs.to_string() }
}

fn same(a: &Token, b: &Token) -> bool {
    match (a, b) {
        (Token::Open { name: n1, attrs: a1 }, Token::Open { name: n2, attrs: a2 }) => {
            n1 == n2 && a1 == a2
        }
        (Token::Close, Token::Close) => true,
        (Token::Text(x), Token::Text(y)) => x == y,
        (Token::CData(x), Token::CData(y)) => x == y,
        (Token::Skip, Token::Skip) => true,
        (Token::Invalid, Token::Invalid) => true,
        _ => false,
    }
}

fn assert_tokens(text: &str, expected: Vec<Token>) {
    let tokens = tokenize(text);
    assert_eq!(tokens.len(), expected.len(), "token count for {}", text);
    for (a, b) in tokens.iter().zip(expected.iter()) {
        assert!(same(a, b), "tokens differ for {}", text);
    }
}

#[test]
fn tokenize_reads_tags_and_text() {
    assert_tokens(
        "<a href=\"x\">hi</a>",
        vec![open("a", " href=\"x\""), Token::Text("hi".to_string()), Token::Close],
    );
}

#[test]
fn tokenize_expands_empty_elements() {
    assert_tokens("<br/>", vec![open("br", ""), Token::Close]);
}

#[test]
fn tokenize_trims_text_and_drops_blank_text() {
    assert_tokens(
        "<p>  one  </p>\n  <p>two</p>",
        vec![
            open("p", ""),
            Token::Text("one".to_string()),
            Token::Close,
            open("p", ""),
            Token::Text("two".to_string()),
            Token::Close,
        ],
    );
}

#[test]
fn tokenize_keeps_escapes_in_text() {
    assert_tokens(
        "<p>a &amp; b</p>",
        vec![open("p", ""), Token::Text("a &amp; b".to_string()), Token::Close],
    );
}

#[test]
fn tokenize_reads_cdata_and_skips_comments() {
    assert_tokens(
        "<p><![CDATA[x < y]]><!-- note --></p>",
        vec![open("p", ""), Token::CData("x < y".to_string()), Token::Skip, Token::Close],
    );
}

#[test]
fn tokenize_marks_a_wrong_end_tag_as_invalid() {
    assert_tokens("<a></b>", vec![open("a", ""), Token::Invalid]);
}

#[test]
fn tokenize_of_nothing_is_empty() {
    assert_tokens("", vec![]);
}
