use oxi_phil::api::{
    comments_in, find_close, find_fragments, get_comments, get_thread, get_threads, has_marker,
    overview_url, thread_url, threads_in,
};
use oxi_phil::error::FetchError;
use oxi_phil::overview::ThreadOverview;
use oxi_phil::thread::Choice;
use oxi_phil::xml::{tokenize, Token};

fn item(author: &str, replies: &str, href: &str, title: &str) -> String {
    format!(
        "<li class=\"Item\"><a title=\"{}\" href=\"/profile\"><img src=\"face\"/></a><div>{}</div><div><a href=\"{}\">{}</a></div></li>",
        author, replies, href, title
    )
}

fn comment(author: &str, body: &str, date: &str) -> String {
    format!(
        "<div class=\"Comment\"><span><a title=\"{}\" href=\"/profile\">{}</a></span><div>head</div><div>{}</div><div><span>posted</span><span><a href=\"#c\"><time datetime=\"{}\">then</time></a></span></div></div>",
        author, author, body, date
    )
}

fn open(name: &str, attrs: &str) -> Token {
    Token::Open { name: name.to_string(), attrs: attrs.to_string() }
}

fn text(t: &str) -> Token {
    Token::Text(t.to_string())
}

#[test]
fn overview_url_is_the_site_the_path_and_the_page() {
    assert_eq!(overview_url(1), "https://thephilosophyforum.com/discussions/p1");
    assert_eq!(overview_url(0), "https://thephilosophyforum.com/discussions/p0");
    assert_eq!(overview_url(10), "https://thephilosophyforum.com/discussions/p10");
    assert_eq!(overview_url(65535), "https://thephilosophyforum.com/discussions/p65535");
}

#[test]
fn thread_url_appends_the_page_to_the_address_of_the_thread() {
    let thread = ThreadOverview {
        title: "T".to_string(),
        url: "https://thephilosophyforum.com/discussion/7/t".to_string(),
        author: "A".to_string(),
        replies: "3".to_string(),
    };
    assert_eq!(thread_url(&thread, 2), "https://thephilosophyforum.com/discussion/7/t/p2");
    assert_eq!(thread_url(&thread, 305), "https://thephilosophyforum.com/discussion/7/t/p305");
}

#[test]
fn has_marker_looks_at_the_values_of_the_attributes() {
    assert!(has_marker(" class=\"Item\"", "Item"));
    assert!(has_marker(" id=\"x\" class='Item'", "Item"));
    assert!(!has_marker(" class=\"Item Alt\"", "Item"));
    assert!(!has_marker(" Item=\"class\"", "Item"));
    assert!(!has_marker("", "Item"));
}

#[test]
fn has_marker_is_false_where_the_attributes_cannot_be_read() {
    assert!(!has_marker(" class=\"Item\" broken", "Item"));
}

#[test]
fn find_close_counts_the_elements_in_between() {
    let tokens = vec![
        open("a", ""),
        open("b", ""),
        text("x"),
        Token::Close,
        Token::Skip,
        Token::Close,
        Token::Close,
    ];
    assert_eq!(find_close(&tokens, 1), Some(5));
    assert_eq!(find_close(&tokens, 2), Some(3));
    assert_eq!(find_close(&tokens, 6), Some(6));
    assert_eq!(find_close(&tokens, 7), None);
}

#[test]
fn find_close_is_none_where_the_tokens_end_first() {
    let tokens = vec![open("a", ""), open("b", ""), Token::Close, text("x")];
    assert_eq!(find_close(&tokens, 1), None);
    assert_eq!(find_close(&tokens, 2), Some(2));
}

#[test]
fn find_close_stops_where_the_reader_gave_up() {
    let tokens = vec![open("a", ""), Token::Invalid, Token::Close];
    assert_eq!(find_close(&tokens, 1), None);
}

#[test]
fn find_fragments_gives_the_range_inside_each_marked_element() {
    let tokens = tokenize("<ul><li class=\"Item\"><b>x</b></li><li>no</li><li class=\"Item\"/></ul>");
    assert_eq!(find_fragments(&tokens, "Item"), Some(vec![(2, 5), (10, 10)]));
}

#[test]
fn find_fragments_keeps_a_marked_element_inside_a_fragment_in_that_fragment() {
    let tokens = tokenize("<p class=\"Item\"><p class=\"Item\">x</p></p>");
    assert_eq!(find_fragments(&tokens, "Item"), Some(vec![(1, 4)]));
}

#[test]
fn find_fragments_refuses_a_page_that_the_reader_gave_up_on() {
    let tokens = tokenize("<ul><li class=\"Item\">x</li></wrong>");
    assert_eq!(find_fragments(&tokens, "Item"), None);
}

#[test]
fn find_fragments_refuses_a_marked_element_that_is_not_closed() {
    let tokens = tokenize("<ul><li class=\"Item\"><b>x</b>");
    assert_eq!(find_fragments(&tokens, "Item"), None);
}

#[test]
fn get_threads_reads_each_summary() {
    let page = format!(
        "<html><body><ul>{}{}</ul></body></html>",
        item("Ann", "12", "discussion/1/first", "First thread"),
        item("Bob", "0", "discussion/2/second", "Second &amp; last")
    );
    let threads = get_threads(&page).unwrap();
    assert_eq!(threads.len(), 2);
    assert_eq!(threads[0].title, "First thread");
    assert_eq!(threads[0].url, "https://thephilosophyforum.com/discussion/1/first");
    assert_eq!(threads[0].author, "Ann");
    assert_eq!(threads[0].replies, "12");
    assert_eq!(threads[1].title, "Second & last");
    assert_eq!(threads[1].url, "https://thephilosophyforum.com/discussion/2/second");
    assert_eq!(threads[1].author, "Bob");
    assert_eq!(threads[1].replies, "0");
}

#[test]
fn get_threads_skips_a_summary_that_does_not_decode() {
    let page = format!(
        "<ul>{}<li class=\"Item\"><a href=\"/profile\"/><div>1</div></li>{}<li class=\"Item\"><div>1</div><div>no link</div></li></ul>",
        item("Ann", "12", "discussion/1/first", "First"),
        item("Bob", "3", "discussion/2/second", "Second")
    );
    let threads = get_threads(&page).unwrap();
    assert_eq!(threads.len(), 2);
    assert_eq!(threads[0].title, "First");
    assert_eq!(threads[1].title, "Second");
}

#[test]
fn get_threads_of_a_page_without_summaries_is_empty() {
    assert_eq!(get_threads("<html><body>nothing</body></html>").unwrap().len(), 0);
    assert_eq!(get_threads("").unwrap().len(), 0);
}

#[test]
fn get_threads_refuses_an_unreadable_page() {
    assert_eq!(get_threads("<html><body></html>").err(), Some(FetchError::Unreadable));
}

#[test]
fn threads_in_reads_summaries_from_given_tokens() {
    let tokens = vec![
        open("li", " class=\"Item\""),
        open("a", " title=\"Ann\""),
        Token::Close,
        open("div", ""),
        text("7"),
        Token::Close,
        open("div", ""),
        open("a", " href=\"discussion/9\""),
        text("Nine"),
        Token::Close,
        Token::Close,
        Token::Close,
    ];
    let threads = threads_in(&tokens).unwrap();
    assert_eq!(threads.len(), 1);
    assert_eq!(threads[0].title, "Nine");
    assert_eq!(threads[0].url, "https://thephilosophyforum.com/discussion/9");
    assert_eq!(threads[0].author, "Ann");
    assert_eq!(threads[0].replies, "7");
}

#[test]
fn threads_in_refuses_tokens_with_an_invalid_token() {
    let tokens = vec![open("li", ""), Token::Invalid];
    assert_eq!(threads_in(&tokens).err(), Some(FetchError::Unreadable));
}

#[test]
fn get_comments_reads_each_comment() {
    let page = format!(
        "<html><body>{}{}</body></html>",
        comment("Ann", "Hello<br/>there", "2024-01-02T03:04:05"),
        comment("Bob", "<b>Yes</b>", "2024-02-03T04:05:06")
    );
    let comments = get_comments(&page).unwrap();
    assert_eq!(comments.len(), 2);
    assert_eq!(comments[0].author, "Ann");
    assert_eq!(comments[0].date, "2024-01-02T03:04:05");
    assert_eq!(comments[0].text.len(), 3);
    assert!(matches!(&comments[0].text[0], Choice::Text(t) if t == "Hello"));
    assert!(matches!(&comments[0].text[1], Choice::LineBreak));
    assert!(matches!(&comments[0].text[2], Choice::Text(t) if t == "there"));
    assert_eq!(comments[1].author, "Bob");
    assert_eq!(comments[1].date, "2024-02-03T04:05:06");
    assert!(matches!(&comments[1].text[0], Choice::Bold(_)));
}

#[test]
fn get_comments_takes_mdash_for_a_dash() {
    let page = comment("Ann", "yes &mdash; no", "d");
    let comments = get_comments(&page).unwrap();
    assert_eq!(comments.len(), 1);
    assert!(matches!(&comments[0].text[0], Choice::Text(t) if t == "yes - no"));
}

#[test]
fn get_comments_skips_a_comment_that_does_not_decode() {
    let page = format!(
        "<body>{}{}{}{}</body>",
        comment("Ann", "one", "d1"),
        comment("Bad", "<blockquote>no shape</blockquote>", "d2"),
        comment("Worse", "a &nbsp; b", "d3"),
        comment("Bob", "two", "d4")
    );
    let comments = get_comments(&page).unwrap();
    assert_eq!(comments.len(), 2);
    assert_eq!(comments[0].author, "Ann");
    assert_eq!(comments[1].author, "Bob");
}

#[test]
fn get_comments_leaves_out_what_the_fragment_does_not_hold() {
    let comments = get_comments("<div class=\"Comment\"><div>head</div><div>text</div></div>").unwrap();
    assert_eq!(comments.len(), 1);
    assert_eq!(comments[0].author, "");
    assert_eq!(comments[0].date, "");
    assert_eq!(comments[0].text.len(), 1);
}

#[test]
fn get_comments_skips_a_comment_whose_author_has_no_title() {
    let page = "<div class=\"Comment\"><span><a href=\"x\">Ann</a></span><div>h</div><div>t</div></div>";
    assert_eq!(get_comments(page).unwrap().len(), 0);
}

#[test]
fn get_comments_skips_a_comment_whose_time_is_missing() {
    let no_time = "<div class=\"Comment\"><div>h</div><div>t</div><div><span>a</span><span><a href=\"x\">then</a></span></div></div>";
    assert_eq!(get_comments(no_time).unwrap().len(), 0);
    let no_link = "<div class=\"Comment\"><div>h</div><div>t</div><div><span>a</span><span>then</span></div></div>";
    assert_eq!(get_comments(no_link).unwrap().len(), 0);
    let no_datetime = "<div class=\"Comment\"><div>h</div><div>t</div><div><span>a</span><span><a><time>then</time></a></span></div></div>";
    assert_eq!(get_comments(no_datetime).unwrap().len(), 0);
}

#[test]
fn get_comments_refuses_an_unreadable_page() {
    assert_eq!(get_comments("<a><b></a>").err(), Some(FetchError::Unreadable));
}

#[test]
fn comments_in_reads_comments_from_given_tokens() {
    let tokens = vec![
        open("div", " class=\"Comment\""),
        open("div", ""),
        Token::Close,
        open("div", ""),
        text("a &mdash; b"),
        Token::Close,
        Token::Close,
    ];
    let comments = comments_in(&tokens).unwrap();
    assert_eq!(comments.len(), 1);
    assert!(matches!(&comments[0].text[0], Choice::Text(t) if t == "a - b"));
}

#[test]
fn get_thread_gives_the_title_and_the_comments_of_the_page() {
    let thread = ThreadOverview {
        title: "T".to_string(),
        url: "u".to_string(),
        author: "A".to_string(),
        replies: "3".to_string(),
    };
    let data = get_thread(&comment("Ann", "one", "d1"), &thread).unwrap();
    assert_eq!(data.title, "T");
    assert_eq!(data.comment_page, 0);
    assert_eq!(data.comments.len(), 1);
    assert_eq!(get_thread("<a></b>", &thread).err(), Some(FetchError::Unreadable));
}
