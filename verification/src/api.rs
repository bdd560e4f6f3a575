//! From the text of a page to the records on it.
//!
//! A page marks each record with an attribute: an element one of whose
//! attributes reads `Item` holds a thread's summary, one that reads
//! `Comment` holds a comment. What stands between such an element's tags is
//! the record's fragment.

use crate::decode::lemma_comment_flattenable;
use crate::error::FetchError;
use crate::overview::{discussion_of, overview_views, DiscussionView, OverviewView,
    ThreadOverview, XMLDiscussion};
use crate::text::{decimal, from_chars, name_is, push_decimal, replace_all, replaced, to_chars};
use crate::thread::{comment_of, comment_views, CommentView, ThreadComment, ThreadData, XMLComment};
use crate::tree::{forest_of, node_views, parse_range};
use crate::xml::{attr_views, read_attributes, token_views, tokenize, xml_attributes, xml_tokens,
    Token, TokenView};
use vstd::prelude::*;

verus! {

/// Whether one of the first `k` attributes has the value `marker`.
pub open spec fn any_value(attrs: Seq<(Seq<char>, Seq<char>)>, marker: Seq<char>, k: nat) -> bool
    decreases k,
{
    k > 0 && k <= attrs.len() && (any_value(attrs, marker, (k - 1) as nat) || attrs[k - 1].1
        == marker)
}

/// Whether a start tag with the raw attribute text `raw` is marked: its
/// attributes can be read, and one of them has the value `marker`.
pub open spec fn is_marked(raw: Seq<char>, marker: Seq<char>) -> bool {
    match xml_attributes(raw) {
        Some(attrs) => any_value(attrs, marker, attrs.len()),
        None => false,
    }
}

/// The place of the end tag that closes the element in which place `i`
/// stands at depth `depth`; `None` where the tokens end, or the reader gave
/// up, before that tag.
pub open spec fn close_from(tokens: Seq<TokenView>, i: nat, depth: nat) -> Option<nat>
    decreases tokens.len() - i,
{
    if i >= tokens.len() {
        None
    } else {
        match tokens[i as int] {
            TokenView::Open { .. } => close_from(tokens, i + 1, depth + 1),
            TokenView::Close => if depth == 0 {
                Some(i)
            } else {
                close_from(tokens, i + 1, (depth - 1) as nat)
            },
            TokenView::Invalid => None,
            _ => close_from(tokens, i + 1, depth),
        }
    }
}

/// A run of ranges in front of what a later scan found.
pub open spec fn prepend(found: Seq<(int, int)>, rest: Option<Seq<(int, int)>>) -> Option<
    Seq<(int, int)>,
> {
    match rest {
        Some(r) => Some(found + r),
        None => None,
    }
}

/// The fragments of the marked elements from place `i` on, each as the
/// range of the tokens between the element's tags, in order. A marked
/// element inside a fragment is part of that fragment. `None` where the page
/// cannot be read: the reader gave up, or a marked element is not closed.
pub open spec fn fragments_from(tokens: Seq<TokenView>, marker: Seq<char>, i: nat) -> Option<
    Seq<(int, int)>,
>
    decreases tokens.len() - i,
{
    if i >= tokens.len() {
        Some(Seq::empty())
    } else {
        match tokens[i as int] {
            TokenView::Invalid => None,
            TokenView::Open { name, attrs } => if is_marked(attrs, marker) {
                match close_from(tokens, i + 1, 0) {
                    Some(j) => if i < j < tokens.len() {
                        prepend(
                            seq![(i as int + 1, j as int)],
                            fragments_from(tokens, marker, j + 1),
                        )
                    } else {
                        None
                    },
                    None => None,
                }
            } else {
                fragments_from(tokens, marker, i + 1)
            },
            _ => fragments_from(tokens, marker, i + 1),
        }
    }
}

/// The fragments of a page.
pub open spec fn fragments(tokens: Seq<TokenView>, marker: Seq<char>) -> Option<Seq<(int, int)>> {
    fragments_from(tokens, marker, 0)
}

/// The values of a run of ranges.
pub open spec fn range_views(ranges: Seq<(usize, usize)>) -> Seq<(int, int)> {
    ranges.map_values(|r: (usize, usize)| (r.0 as int, r.1 as int))
}

/// Whether a start tag with the raw attribute text `raw` is marked.
pub fn has_marker(raw: &str, marker: &str) -> (r: bool)
    ensures
        r == is_marked(raw@, marker@),
{
    match read_attributes(raw) {
        None => false,
        Some(attrs) => {
            let ghost views = attr_views(attrs@);
            let mut i: usize = 0;
            while i < attrs.len()
                invariant
                    i <= attrs.len(),
                    views == attr_views(attrs@),
                    xml_attributes(raw@) == Some(views),
                    !any_value(views, marker@, i as nat),
                decreases attrs.len() - i,
            {
                assert(views[i as int] == attrs@[i as int]@);
                if name_is(&attrs[i].value, marker) {
                    proof {
                        assert(views[i as int].1 == marker@);
                        assert(any_value(views, marker@, (i + 1) as nat));
                        lemma_any_value(views, marker@, (i + 1) as nat, attrs.len() as nat);
                    }
                    return true;
                }
                i += 1;
            }
            false
        },
    }
}

/// A value that was found stays found.
proof fn lemma_any_value(attrs: Seq<(Seq<char>, Seq<char>)>, marker: Seq<char>, k: nat, n: nat)
    requires
        k <= n <= attrs.len(),
        any_value(attrs, marker, k),
    ensures
        any_value(attrs, marker, n),
    decreases n - k,
{
    if k < n {
        lemma_any_value(attrs, marker, k, (n - 1) as nat);
    }
}

/// Finds the end tag that closes the element whose content starts at
/// `from`.
pub fn find_close(tokens: &Vec<Token>, from: usize) -> (r: Option<usize>)
    ensures
        close_from(token_views(tokens@), from as nat, 0) == match r {
            Some(j) => Some(j as nat),
            None => None,
        },
        r matches Some(j) ==> from <= j < tokens.len(),
{
    let ghost views = token_views(tokens@);
    let mut depth: usize = 0;
    let mut i: usize = from;
    while i < tokens.len()
        invariant
            from <= i,
            depth <= i - from,
            views == token_views(tokens@),
            close_from(views, from as nat, 0) == close_from(views, i as nat, depth as nat),
        decreases tokens.len() - i,
    {
        assert(views[i as int] == tokens@[i as int]@);
        match &tokens[i] {
            Token::Open { .. } => {
                depth += 1;
            },
            Token::Close => {
                if depth == 0 {
                    return Some(i);
                }
                depth -= 1;
            },
            Token::Invalid => {
                return None;
            },
            _ => {},
        }
        i += 1;
    }
    None
}

/// Finds the fragments of the marked elements of a page.
pub fn find_fragments(tokens: &Vec<Token>, marker: &str) -> (r: Option<Vec<(usize, usize)>>)
    ensures
        fragments(token_views(tokens@), marker@) == match r {
            Some(v) => Some(range_views(v@)),
            None => None,
        },
        r matches Some(v) ==> forall|k: int|
            0 <= k < v.len() ==> (#[trigger] v[k]).0 <= v[k].1 <= tokens.len(),
{
    let ghost views = token_views(tokens@);
    let mut out: Vec<(usize, usize)> = Vec::new();
    let mut i: usize = 0;
    proof {
        assert(range_views(out@) =~= Seq::<(int, int)>::empty());
        lemma_prepend_nothing(fragments_from(views, marker@, 0));
    }
    while i < tokens.len()
        invariant
            views == token_views(tokens@),
            fragments(views, marker@) == prepend(
                range_views(out@),
                fragments_from(views, marker@, i as nat),
            ),
            forall|k: int| 0 <= k < out.len() ==> (#[trigger] out[k]).0 <= out[k].1 <= tokens.len(),
        decreases tokens.len() - i,
    {
        assert(views[i as int] == tokens@[i as int]@);
        let ghost before = range_views(out@);
        match &tokens[i] {
            Token::Invalid => {
                return None;
            },
            Token::Open { name, attrs } => {
                if has_marker(attrs.as_str(), marker) {
                    match find_close(tokens, i + 1) {
                        None => {
                            return None;
                        },
                        Some(j) => {
                            out.push((i + 1, j));
                            proof {
                                assert(range_views(out@) =~= before.push((i + 1, j as int)));
                                lemma_prepend_one(
                                    before,
                                    (i + 1, j as int),
                                    fragments_from(views, marker@, (j + 1) as nat),
                                );
                            }
                            i = j + 1;
                        },
                    }
                } else {
                    i += 1;
                }
            },
            _ => {
                i += 1;
            },
        }
    }
    proof {
        assert(range_views(out@) + Seq::<(int, int)>::empty() =~= range_views(out@));
    }
    Some(out)
}

/// Nothing in front changes nothing.
proof fn lemma_prepend_nothing(rest: Option<Seq<(int, int)>>)
    ensures
        prepend(Seq::empty(), rest) == rest,
{
    if let Some(r) = rest {
        assert(Seq::<(int, int)>::empty() + r =~= r);
    }
}

/// One more range in front of the rest is one more range found.
proof fn lemma_prepend_one(found: Seq<(int, int)>, range: (int, int), rest: Option<Seq<(int, int)>>)
    ensures
        prepend(found, prepend(seq![range], rest)) == prepend(found.push(range), rest),
{
    if let Some(r) = rest {
        assert(found + (seq![range] + r) =~= found.push(range) + r);
    }
}

/// The address of the forum, with the slash at its end.
pub open spec fn site() -> Seq<char> {
    "https://thephilosophyforum.com/"@
}

/// The address of page `page` of the overview.
pub open spec fn overview_address(page: nat) -> Seq<char> {
    site() + "discussions/p"@ + decimal(page)
}

/// The address of page `page` of the thread at `url`.
pub open spec fn thread_address(url: Seq<char>, page: nat) -> Seq<char> {
    url + "/p"@ + decimal(page)
}

/// The address of page `page` of the overview.
pub fn overview_url(page: u16) -> (url: String)
    ensures
        url@ == overview_address(page as nat),
{
    let mut chars = to_chars("https://thephilosophyforum.com/");
    let mut path = to_chars("discussions/p");
    chars.append(&mut path);
    push_decimal(&mut chars, page);
    from_chars(&chars)
}

/// The address of page `page` of a thread.
pub fn thread_url(thread: &ThreadOverview, page: u16) -> (url: String)
    ensures
        url@ == thread_address(thread.url@, page as nat),
{
    let mut chars = to_chars(thread.url.as_str());
    let mut path = to_chars("/p");
    chars.append(&mut path);
    push_decimal(&mut chars, page);
    from_chars(&chars)
}

/// The summary that a decoded fragment gives: the thread's address is the
/// forum's address followed by where the link leads.
pub open spec fn overview_from(d: DiscussionView) -> OverviewView {
    OverviewView {
        title: d.title.title,
        url: site() + d.title.href,
        author: d.author,
        replies: d.replies,
    }
}

impl ThreadOverview {
    /// The summary that a decoded fragment gives.
    pub fn from_discussion(d: XMLDiscussion) -> (r: ThreadOverview)
        ensures
            r@ == overview_from(d@),
    {
        let mut url = String::from_str("https://thephilosophyforum.com/");
        url.append(d.title.value.href.as_str());
        ThreadOverview {
            title: d.title.value.title,
            url,
            author: d.author.name,
            replies: d.replies.replies,
        }
    }
}

impl ThreadComment {
    /// The comment that a decoded fragment gives.
    pub fn from_xml(c: XMLComment) -> (r: ThreadComment)
        ensures
            r@ == c@,
    {
        ThreadComment {
            author: c.author.name.value,
            text: c.text.text,
            date: c.date.value.value.value.value,
        }
    }
}

/// The summary in the fragment at `range`; `None` where the fragment does
/// not decode.
pub open spec fn overview_at(tokens: Seq<TokenView>, range: (int, int)) -> Option<OverviewView> {
    match forest_of(tokens.subrange(range.0, range.1)) {
        Ok(nodes) => match discussion_of(nodes) {
            Ok(d) => Some(overview_from(d)),
            Err(_) => None,
        },
        Err(_) => None,
    }
}

/// The summaries in the first `k` fragments, in order; a fragment that does
/// not decode gives none.
pub open spec fn overviews_at(tokens: Seq<TokenView>, ranges: Seq<(int, int)>, k: nat) -> Seq<
    OverviewView,
>
    decreases k,
{
    if k == 0 || k > ranges.len() {
        Seq::empty()
    } else {
        match overview_at(tokens, ranges[k - 1]) {
            Some(o) => overviews_at(tokens, ranges, (k - 1) as nat).push(o),
            None => overviews_at(tokens, ranges, (k - 1) as nat),
        }
    }
}

/// The summaries on a page with the given tokens; `None` where the page
/// cannot be read.
pub open spec fn page_overviews(tokens: Seq<TokenView>) -> Option<Seq<OverviewView>> {
    match fragments(tokens, "Item"@) {
        Some(ranges) => Some(overviews_at(tokens, ranges, ranges.len())),
        None => None,
    }
}

/// Reads the summaries from the tokens of an overview page.
pub fn threads_in(tokens: &Vec<Token>) -> (r: Result<Vec<ThreadOverview>, FetchError>)
    ensures
        match r {
            Ok(v) => page_overviews(token_views(tokens@)) == Some(overview_views(v@)),
            Err(e) => e == FetchError::Unreadable && page_overviews(token_views(tokens@)) is None,
        },
{
    let ghost views = token_views(tokens@);
    match find_fragments(tokens, "Item") {
        None => Err(FetchError::Unreadable),
        Some(ranges) => {
            let ghost spans = range_views(ranges@);
            let mut out: Vec<ThreadOverview> = Vec::new();
            let mut i: usize = 0;
            proof {
                assert(overview_views(out@) =~= Seq::<OverviewView>::empty());
            }
            while i < ranges.len()
                invariant
                    i <= ranges.len(),
                    views == token_views(tokens@),
                    spans == range_views(ranges@),
                    forall|k: int|
                        0 <= k < ranges.len() ==> (#[trigger] ranges[k]).0 <= ranges[k].1
                            <= tokens.len(),
                    overview_views(out@) == overviews_at(views, spans, i as nat),
                decreases ranges.len() - i,
            {
                let ghost before = overview_views(out@);
                let (from, to) = ranges[i];
                assert(spans[i as int] == (from as int, to as int));
                if let Ok(nodes) = parse_range(tokens, from, to) {
                    if let Ok(d) = XMLDiscussion::decode(&nodes) {
                        let o = ThreadOverview::from_discussion(d);
                        out.push(o);
                        proof {
                            assert(overview_views(out@) =~= before.push(o@));
                        }
                    }
                }
                i += 1;
            }
            Ok(out)
        },
    }
}

/// The text of a comment's fragment as it is read: each `&mdash;` is taken
/// for a dash.
pub open spec fn dashed(raw: Seq<char>) -> Seq<char> {
    replaced(raw, "&mdash;"@, "-"@)
}

/// A token of a comment's fragment as it is read.
pub open spec fn dashed_token(token: TokenView) -> TokenView {
    match token {
        TokenView::Open { name, attrs } => TokenView::Open { name, attrs: dashed(attrs) },
        TokenView::Text(raw) => TokenView::Text(dashed(raw)),
        TokenView::CData(raw) => TokenView::CData(dashed(raw)),
        other => other,
    }
}

/// The tokens of a comment's fragment as they are read.
pub open spec fn dashed_tokens(tokens: Seq<TokenView>) -> Seq<TokenView> {
    tokens.map_values(|t: TokenView| dashed_token(t))
}

/// `text` with each `&mdash;` taken for a dash.
fn dash(text: &String) -> (out: String)
    ensures
        out@ == dashed(text@),
{
    let chars = to_chars(text.as_str());
    let pat = to_chars("&mdash;");
    let with = to_chars("-");
    let out = replace_all(&chars, &pat, &with);
    from_chars(&out)
}

/// The tokens `from..to` with each `&mdash;` taken for a dash.
fn dash_range(tokens: &Vec<Token>, from: usize, to: usize) -> (out: Vec<Token>)
    requires
        from <= to <= tokens.len(),
    ensures
        token_views(out@) == dashed_tokens(token_views(tokens@).subrange(from as int, to as int)),
{
    let ghost views = token_views(tokens@).subrange(from as int, to as int);
    let mut out: Vec<Token> = Vec::new();
    let mut i: usize = from;
    proof {
        assert(token_views(out@) =~= dashed_tokens(views.take(0)));
    }
    while i < to
        invariant
            from <= i <= to <= tokens.len(),
            views == token_views(tokens@).subrange(from as int, to as int),
            token_views(out@) == dashed_tokens(views.take(i - from)),
        decreases to - i,
    {
        let ghost before = token_views(out@);
        let token = match &tokens[i] {
            Token::Open { name, attrs } => Token::Open { name: name.clone(), attrs: dash(attrs) },
            Token::Close => Token::Close,
            Token::Text(raw) => Token::Text(dash(raw)),
            Token::CData(raw) => Token::CData(dash(raw)),
            Token::Skip => Token::Skip,
            Token::Invalid => Token::Invalid,
        };
        out.push(token);
        proof {
            assert(views[i - from] == tokens@[i as int]@);
            assert(token_views(out@) =~= before.push(dashed_token(views[i - from])));
            assert(dashed_tokens(views.take(i - from + 1)) =~= dashed_tokens(
                views.take(i - from),
            ).push(dashed_token(views[i - from])));
        }
        i += 1;
    }
    proof {
        assert(views.take(to - from) =~= views);
    }
    out
}

/// The comment in the fragment at `range`; `None` where the fragment does
/// not decode.
pub open spec fn comment_at(tokens: Seq<TokenView>, range: (int, int)) -> Option<CommentView> {
    match forest_of(dashed_tokens(tokens.subrange(range.0, range.1))) {
        Ok(nodes) => match comment_of(nodes) {
            Ok(c) => Some(c),
            Err(_) => None,
        },
        Err(_) => None,
    }
}

/// The comments in the first `k` fragments, in order; a fragment that does
/// not decode gives none.
pub open spec fn comments_at(tokens: Seq<TokenView>, ranges: Seq<(int, int)>, k: nat) -> Seq<
    CommentView,
>
    decreases k,
{
    if k == 0 || k > ranges.len() {
        Seq::empty()
    } else {
        match comment_at(tokens, ranges[k - 1]) {
            Some(c) => comments_at(tokens, ranges, (k - 1) as nat).push(c),
            None => comments_at(tokens, ranges, (k - 1) as nat),
        }
    }
}

/// The comments on a page with the given tokens; `None` where the page
/// cannot be read.
pub open spec fn page_comments(tokens: Seq<TokenView>) -> Option<Seq<CommentView>> {
    match fragments(tokens, "Comment"@) {
        Some(ranges) => Some(comments_at(tokens, ranges, ranges.len())),
        None => None,
    }
}

/// Reads the comments from the tokens of a thread's page. The text of each
/// comment can be flattened.
pub fn comments_in(tokens: &Vec<Token>) -> (r: Result<Vec<ThreadComment>, FetchError>)
    ensures
        match r {
            Ok(v) => page_comments(token_views(tokens@)) == Some(comment_views(v@)),
            Err(e) => e == FetchError::Unreadable && page_comments(token_views(tokens@)) is None,
        },
        r matches Ok(v) ==> forall|k: int| 0 <= k < v.len() ==> (#[trigger] v[k]).showable(),
{
    let ghost views = token_views(tokens@);
    match find_fragments(tokens, "Comment") {
        None => Err(FetchError::Unreadable),
        Some(ranges) => {
            let ghost spans = range_views(ranges@);
            let mut out: Vec<ThreadComment> = Vec::new();
            let mut i: usize = 0;
            proof {
                assert(comment_views(out@) =~= Seq::<CommentView>::empty());
            }
            while i < ranges.len()
                invariant
                    i <= ranges.len(),
                    views == token_views(tokens@),
                    spans == range_views(ranges@),
                    forall|k: int|
                        0 <= k < ranges.len() ==> (#[trigger] ranges[k]).0 <= ranges[k].1
                            <= tokens.len(),
                    comment_views(out@) == comments_at(views, spans, i as nat),
                    forall|k: int| 0 <= k < out.len() ==> (#[trigger] out[k]).showable(),
                decreases ranges.len() - i,
            {
                let ghost before = comment_views(out@);
                let (from, to) = ranges[i];
                assert(spans[i as int] == (from as int, to as int));
                let fragment = dash_range(tokens, from, to);
                proof {
                    assert(token_views(fragment@).subrange(0, fragment.len() as int)
                        =~= token_views(fragment@));
                }
                if let Ok(nodes) = parse_range(&fragment, 0, fragment.len()) {
                    if let Ok(x) = XMLComment::decode(&nodes) {
                        proof {
                            lemma_comment_flattenable(node_views(nodes@));
                        }
                        let c = ThreadComment::from_xml(x);
                        out.push(c);
                        proof {
                            assert(comment_views(out@) =~= before.push(c@));
                        }
                    }
                }
                i += 1;
            }
            Ok(out)
        },
    }
}

/// Reads the summaries from the text of an overview page.
pub fn get_threads(body: &str) -> (r: Result<Vec<ThreadOverview>, FetchError>)
    ensures
        match r {
            Ok(v) => page_overviews(xml_tokens(body@)) == Some(overview_views(v@)),
            Err(e) => e == FetchError::Unreadable && page_overviews(xml_tokens(body@)) is None,
        },
{
    let tokens = tokenize(body);
    threads_in(&tokens)
}

/// Reads the comments from the text of a thread's page. The text of each
/// comment can be flattened.
pub fn get_comments(body: &str) -> (r: Result<Vec<ThreadComment>, FetchError>)
    ensures
        match r {
            Ok(v) => page_comments(xml_tokens(body@)) == Some(comment_views(v@)),
            Err(e) => e == FetchError::Unreadable && page_comments(xml_tokens(body@)) is None,
        },
        r matches Ok(v) ==> forall|k: int| 0 <= k < v.len() ==> (#[trigger] v[k]).showable(),
{
    let tokens = tokenize(body);
    comments_in(&tokens)
}

/// Reads one page of a thread from its text: the thread's title, and the
/// comments on the page.
pub fn get_thread(body: &str, thread: &ThreadOverview) -> (r: Result<ThreadData, FetchError>)
    ensures
        match r {
            Ok(data) => page_comments(xml_tokens(body@)) == Some(data@.comments) && data.title@
                == thread.title@ && data.comment_page == 0,
            Err(e) => e == FetchError::Unreadable && page_comments(xml_tokens(body@)) is None,
        },
        r matches Ok(data) ==> forall|k: int|
            0 <= k < data.comments.len() ==> (#[trigger] data.comments[k]).showable(),
{
    match get_comments(body) {
        Ok(comments) => Ok(ThreadData { title: thread.title.clone(), comments, comment_page: 0 }),
        Err(e) => Err(e),
    }
}

} // verus!
