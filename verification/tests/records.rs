use oxi_phil::error::{DecodeError, Reason};
use oxi_phil::overview::{
    ThreadOverview, XMLAuthor, XMLDiscussion, XMLReplies, XMLTitle, XMLTitleWrapper,
};
use oxi_phil::thread::{
    Choice, ThreadComment, XMLAuthorInner, XMLComment, XMLDate, XMLDateOuter, XMLDateWrapper,
    XMLMessage, XMLMeta,
};
use oxi_phil::tree::{parse_range, Node};
use oxi_phil::xml::{tokenize, Attr};

fn parse(text: &str) -> Vec<Node> {
    let tokens = tokenize(text);
    parse_range(&tokens, 0, tokens.len()).unwrap()
}

fn attr(key: &str, value: &str) -> Attr {
    Attr { key: key.to_string(), value: value.to_string() }
}

fn malformed(reason: Reason) -> Option<DecodeError> {
    Some(DecodeError::Malformed(reason))
}

#[test]
fn the_author_of_a_summary_is_the_title_of_the_link() {
    let a = XMLAuthor::decode(&vec![attr("href", "/p"), attr("title", "Ann")]).unwrap();
    assert_eq!(a.name, "Ann");
    assert_eq!(
        XMLAuthor::decode(&vec![attr("href", "/p")]).err(),
        malformed(Reason::MissingAttribute)
    );
}

#[test]
fn the_replies_are_the_text_of_the_block() {
    assert_eq!(XMLReplies::decode(&parse("12")).unwrap().replies, "12");
    assert_eq!(XMLReplies::decode(&parse("<b>12</b>")).err(), malformed(Reason::MissingText));
    assert_eq!(XMLReplies::decode(&vec![]).err(), malformed(Reason::MissingText));
}

#[test]
fn the_title_needs_its_address_and_its_text() {
    let t = XMLTitle::decode(&vec![attr("href", "d/1")], &parse("Title")).unwrap();
    assert_eq!(t.href, "d/1");
    assert_eq!(t.title, "Title");
    assert_eq!(
        XMLTitle::decode(&vec![], &parse("Title")).err(),
        malformed(Reason::MissingAttribute)
    );
    assert_eq!(
        XMLTitle::decode(&vec![attr("href", "d/1")], &vec![]).err(),
        malformed(Reason::MissingText)
    );
    assert_eq!(XMLTitle::decode(&vec![], &vec![]).err(), malformed(Reason::MissingAttribute));
}

#[test]
fn the_title_is_in_the_first_link_of_its_block() {
    let w = XMLTitleWrapper::decode(&parse("x<a href=\"d/1\">One</a><a href=\"d/2\">Two</a>"))
        .unwrap();
    assert_eq!(w.value.href, "d/1");
    assert_eq!(w.value.title, "One");
    assert_eq!(
        XMLTitleWrapper::decode(&parse("<b>no link</b>")).err(),
        malformed(Reason::MissingElement)
    );
}

#[test]
fn a_summary_is_read_from_the_children_of_its_fragment() {
    let d = XMLDiscussion::decode(&parse(
        "<a title=\"Ann\"/><div>12</div><div><a href=\"d/1\">One</a></div><span>other</span>",
    ))
    .unwrap();
    assert_eq!(d.author.name, "Ann");
    assert_eq!(d.replies.replies, "12");
    assert_eq!(d.title.value.href, "d/1");
    assert_eq!(d.title.value.title, "One");
    let o = ThreadOverview::from_discussion(d);
    assert_eq!(o.title, "One");
    assert_eq!(o.url, "https://thephilosophyforum.com/d/1");
    assert_eq!(o.author, "Ann");
    assert_eq!(o.replies, "12");
}

#[test]
fn a_summary_takes_the_last_author_and_the_last_title_block() {
    let d = XMLDiscussion::decode(&parse(
        "<a title=\"Ann\"/><div>1</div><div><a href=\"d/1\">One</a></div><a title=\"Bob\"/><div><a href=\"d/2\">Two</a></div>",
    ))
    .unwrap();
    assert_eq!(d.author.name, "Bob");
    assert_eq!(d.replies.replies, "1");
    assert_eq!(d.title.value.title, "Two");
}

#[test]
fn a_summary_without_its_parts_is_empty() {
    let d = XMLDiscussion::decode(&vec![]).unwrap();
    assert_eq!(d.author.name, "");
    assert_eq!(d.replies.replies, "");
    assert_eq!(d.title.value.href, "");
    assert_eq!(d.title.value.title, "");
}

#[test]
fn a_summary_reports_the_first_child_that_is_refused() {
    assert_eq!(
        XMLDiscussion::decode(&parse("<div><b/></div><a href=\"x\"/>")).err(),
        malformed(Reason::MissingText)
    );
    assert_eq!(
        XMLDiscussion::decode(&parse("<a href=\"x\"/><div><b/></div>")).err(),
        malformed(Reason::MissingAttribute)
    );
    assert_eq!(
        XMLDiscussion::decode(&parse("<div>1</div><div>no link</div>")).err(),
        malformed(Reason::MissingElement)
    );
}

#[test]
fn the_author_of_a_comment_is_the_title_of_the_first_link_of_the_group() {
    assert_eq!(XMLAuthorInner::decode(&vec![attr("title", "Ann")]).unwrap().value, "Ann");
    assert_eq!(XMLAuthorInner::decode(&vec![]).err(), malformed(Reason::MissingAttribute));
    let a = oxi_phil::thread::XMLAuthor::decode(&parse("x<a title=\"Ann\"/><a title=\"Bob\"/>"))
        .unwrap();
    assert_eq!(a.name.value, "Ann");
    assert_eq!(oxi_phil::thread::XMLAuthor::decode(&parse("no link")).unwrap().name.value, "");
    assert_eq!(
        oxi_phil::thread::XMLAuthor::decode(&parse("<a href=\"x\"/><a title=\"Bob\"/>")).err(),
        malformed(Reason::MissingAttribute)
    );
}

#[test]
fn the_text_of_a_comment_is_what_its_block_holds() {
    let m = XMLMessage::decode(&parse("one<br/><b>two</b>")).unwrap();
    assert_eq!(m.text.len(), 3);
    assert!(matches!(&m.text[0], Choice::Text(t) if t == "one"));
    assert_eq!(
        XMLMessage::decode(&parse("one<blockquote/>")).err(),
        malformed(Reason::Blockquote)
    );
}

#[test]
fn the_time_of_a_comment_is_found_step_by_step() {
    assert_eq!(XMLDate::decode(&vec![attr("datetime", "now")]).unwrap().value, "now");
    assert_eq!(XMLDate::decode(&vec![attr("date", "now")]).err(), malformed(Reason::MissingAttribute));
    assert_eq!(
        XMLDateOuter::decode(&parse("<time datetime=\"now\">x</time>")).unwrap().value.value,
        "now"
    );
    assert_eq!(XMLDateOuter::decode(&parse("x")).err(), malformed(Reason::MissingElement));
    assert_eq!(
        XMLDateOuter::decode(&parse("<time/>")).err(),
        malformed(Reason::MissingAttribute)
    );
    assert_eq!(
        XMLDateWrapper::decode(&parse("<a><time datetime=\"now\"/></a>")).unwrap().value.value.value,
        "now"
    );
    assert_eq!(XMLDateWrapper::decode(&parse("<b/>")).err(), malformed(Reason::MissingElement));
    assert_eq!(XMLDateWrapper::decode(&parse("<a/>")).err(), malformed(Reason::MissingElement));
}

#[test]
fn the_footer_holds_the_time_in_its_second_group() {
    let m = XMLMeta::decode(&parse(
        "<span><a><time datetime=\"first\"/></a></span>x<span><a><time datetime=\"second\"/></a></span><span><a><time datetime=\"third\"/></a></span>",
    ))
    .unwrap();
    assert_eq!(m.value.value.value.value, "second");
    assert_eq!(XMLMeta::decode(&parse("<span>only one</span>")).unwrap().value.value.value.value, "");
    assert_eq!(XMLMeta::decode(&vec![]).unwrap().value.value.value.value, "");
    assert_eq!(XMLMeta::empty().value.value.value.value, "");
    assert_eq!(
        XMLMeta::decode(&parse("<span/><span>no link</span>")).err(),
        malformed(Reason::MissingElement)
    );
}

#[test]
fn a_comment_is_read_from_the_children_of_its_fragment() {
    let c = XMLComment::decode(&parse(
        "<span><a title=\"Ann\"/></span><div>skipped</div><div>the <i>text</i></div><div><span/><span><a><time datetime=\"then\"/></a></span></div>",
    ))
    .unwrap();
    assert_eq!(c.author.name.value, "Ann");
    assert_eq!(c.text.text.len(), 2);
    assert_eq!(c.date.value.value.value.value, "then");
    let t = ThreadComment::from_xml(c);
    assert_eq!(t.author, "Ann");
    assert_eq!(t.date, "then");
    assert_eq!(t.get_lines(), vec!["the text"]);
}

#[test]
fn a_comment_takes_each_block_after_the_second_for_its_footer() {
    let c = XMLComment::decode(&parse(
        "<div>1</div><div>2</div><div><span/><span><a><time datetime=\"a\"/></a></span></div><div>last</div>",
    ))
    .unwrap();
    assert_eq!(c.date.value.value.value.value, "");
    assert_eq!(c.text.text.len(), 1);
}

#[test]
fn a_comment_reports_the_first_child_that_is_refused() {
    assert_eq!(
        XMLComment::decode(&parse("<span><a/></span><div/><div><blockquote/></div>")).err(),
        malformed(Reason::MissingAttribute)
    );
    assert_eq!(
        XMLComment::decode(&parse("<div/><div><blockquote/></div><span><a/></span>")).err(),
        malformed(Reason::Blockquote)
    );
    assert_eq!(
        XMLComment::decode(&parse("<div/><div/><div><span/><span/></div>")).err(),
        malformed(Reason::MissingElement)
    );
}

#[test]
fn pieces_are_what_a_node_gives_before_the_lines_are_made() {
    let node = Choice::Container(vec![
        Choice::Text(" a ".to_string()),
        Choice::LineBreak,
        Choice::Bold(vec![Choice::Text("b".to_string())]),
        Choice::Link(Some("c".to_string())),
        Choice::Link(None),
        Choice::Decoration,
        Choice::Text("  ".to_string()),
    ]);
    assert_eq!(node.pieces(), vec!["a", "\n", " b", "c", ""]);
}
