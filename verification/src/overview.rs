//! The overview: one summary for each thread of the forum.

use crate::error::{DecodeError, Reason};
use crate::text::name_is;
use crate::thread::{need_attr, needed_attr};
use crate::tree::{find_named, is_named, lemma_element_view, named_from, node_views, own_text,
    read_own_text, Node, NodeView};
use crate::xml::{attr_views, Attr};
use vstd::prelude::*;
use vstd::std_specs::cmp::PartialEqSpecImpl;

verus! {

/// The summary of one thread.
#[derive(Debug)]
pub struct ThreadOverview {
    pub title: String,
    pub url: String,
    pub author: String,
    pub replies: String,
}

/// The mathematical value of a [`ThreadOverview`].
pub struct OverviewView {
    pub title: Seq<char>,
    pub url: Seq<char>,
    pub author: Seq<char>,
    pub replies: Seq<char>,
}

impl View for ThreadOverview {
    type V = OverviewView;

    open spec fn view(&self) -> OverviewView {
        OverviewView {
            title: self.title@,
            url: self.url@,
            author: self.author@,
            replies: self.replies@,
        }
    }
}

/// The values of a run of summaries.
pub open spec fn overview_views(overviews: Seq<ThreadOverview>) -> Seq<OverviewView> {
    overviews.map_values(|o: ThreadOverview| o@)
}

impl Clone for ThreadOverview {
    fn clone(&self) -> (r: Self)
        ensures
            r@ == self@,
    {
        ThreadOverview {
            title: self.title.clone(),
            url: self.url.clone(),
            author: self.author.clone(),
            replies: self.replies.clone(),
        }
    }
}

/// Two summaries are the same thread where their titles are the same.
impl PartialEq for ThreadOverview {
    fn eq(&self, other: &Self) -> (r: bool) {
        self.title == other.title
    }
}

impl PartialEqSpecImpl for ThreadOverview {
    open spec fn obeys_eq_spec() -> bool {
        true
    }

    open spec fn eq_spec(&self, other: &Self) -> bool {
        self.title@ == other.title@
    }
}

/// The author of a thread: the `title` of a link.
pub struct XMLAuthor {
    pub name: String,
}

/// The number of replies: the text of a block.
pub struct XMLReplies {
    pub replies: String,
}

/// The link to a thread: where it leads, and the title that it shows.
pub struct XMLTitle {
    pub href: String,
    pub title: String,
}

/// The block that holds the link to a thread.
pub struct XMLTitleWrapper {
    pub value: XMLTitle,
}

/// A thread's summary as its fragment spells it.
pub struct XMLDiscussion {
    pub author: XMLAuthor,
    pub replies: XMLReplies,
    pub title: XMLTitleWrapper,
}

/// The mathematical value of an [`XMLTitle`].
pub struct TitleView {
    pub href: Seq<char>,
    pub title: Seq<char>,
}

/// The mathematical value of an [`XMLDiscussion`].
pub struct DiscussionView {
    pub author: Seq<char>,
    pub replies: Seq<char>,
    pub title: TitleView,
}

impl View for XMLAuthor {
    type V = Seq<char>;

    open spec fn view(&self) -> Seq<char> {
        self.name@
    }
}

impl View for XMLReplies {
    type V = Seq<char>;

    open spec fn view(&self) -> Seq<char> {
        self.replies@
    }
}

impl View for XMLTitle {
    type V = TitleView;

    open spec fn view(&self) -> TitleView {
        TitleView { href: self.href@, title: self.title@ }
    }
}

impl View for XMLTitleWrapper {
    type V = TitleView;

    open spec fn view(&self) -> TitleView {
        self.value@
    }
}

impl View for XMLDiscussion {
    type V = DiscussionView;

    open spec fn view(&self) -> DiscussionView {
        DiscussionView { author: self.author@, replies: self.replies@, title: self.title@ }
    }
}

/// The text of an element as a record needs it: the text that stands
/// directly in it, or [`Reason::MissingText`].
pub open spec fn needed_text(children: Seq<NodeView>) -> Result<Seq<char>, Reason> {
    match own_text(children) {
        Some(t) => Ok(t),
        None => Err(Reason::MissingText),
    }
}

/// The link that an element with the given attributes and children spells:
/// its `href` and its text. Both must be there; a missing `href` is
/// reported first.
pub open spec fn title_of(attrs: Seq<(Seq<char>, Seq<char>)>, children: Seq<NodeView>) -> Result<
    TitleView,
    Reason,
> {
    match needed_attr(attrs, "href"@) {
        Err(e) => Err(e),
        Ok(href) => match needed_text(children) {
            Err(e) => Err(e),
            Ok(title) => Ok(TitleView { href, title }),
        },
    }
}

/// The link that a block holds: its first link, which must be there.
pub open spec fn title_wrapper_of(children: Seq<NodeView>) -> Result<TitleView, Reason> {
    let at = named_from(children, "a"@, 0);
    if at < children.len() {
        title_of(children[at as int]->attrs, children[at as int]->children)
    } else {
        Err(Reason::MissingElement)
    }
}

/// A summary in the making: what has been read of it, and whether a block
/// has been seen.
pub struct DiscussionScan {
    pub record: DiscussionView,
    pub seen_block: bool,
}

/// What one more child of the fragment's root does to the summary. A link
/// names the author. The first block holds the number of replies, each
/// block after it the link to the thread.
pub open spec fn discussion_step(scan: DiscussionScan, child: NodeView) -> Result<
    DiscussionScan,
    Reason,
> {
    let record = scan.record;
    if is_named(child, "a"@) {
        match needed_attr(child->attrs, "title"@) {
            Ok(author) => Ok(
                DiscussionScan {
                    record: DiscussionView { author, replies: record.replies, title: record.title },
                    seen_block: scan.seen_block,
                },
            ),
            Err(e) => Err(e),
        }
    } else if is_named(child, "div"@) {
        if !scan.seen_block {
            match needed_text(child->children) {
                Ok(replies) => Ok(
                    DiscussionScan {
                        record: DiscussionView { author: record.author, replies, title: record.title },
                        seen_block: true,
                    },
                ),
                Err(e) => Err(e),
            }
        } else {
            match title_wrapper_of(child->children) {
                Ok(title) => Ok(
                    DiscussionScan {
                        record: DiscussionView {
                            author: record.author,
                            replies: record.replies,
                            title,
                        },
                        seen_block: true,
                    },
                ),
                Err(e) => Err(e),
            }
        }
    } else {
        Ok(scan)
    }
}

/// The summary after the first `k` children of the fragment's root. The
/// first child that is refused decides.
pub open spec fn discussion_scan(children: Seq<NodeView>, k: nat) -> Result<DiscussionScan, Reason>
    decreases k,
{
    if k == 0 || k > children.len() {
        Ok(
            DiscussionScan {
                record: DiscussionView {
                    author: Seq::empty(),
                    replies: Seq::empty(),
                    title: TitleView { href: Seq::empty(), title: Seq::empty() },
                },
                seen_block: false,
            },
        )
    } else {
        match discussion_scan(children, (k - 1) as nat) {
            Err(e) => Err(e),
            Ok(scan) => discussion_step(scan, children[k - 1]),
        }
    }
}

/// The summary that the children of a fragment's root spell.
pub open spec fn discussion_of(children: Seq<NodeView>) -> Result<DiscussionView, Reason> {
    match discussion_scan(children, children.len()) {
        Ok(scan) => Ok(scan.record),
        Err(e) => Err(e),
    }
}

/// Once a child has been refused, the children after it change nothing.
pub proof fn lemma_discussion_failed(children: Seq<NodeView>, k: nat, n: nat)
    requires
        k <= n <= children.len(),
        discussion_scan(children, k) is Err,
    ensures
        discussion_scan(children, n) == discussion_scan(children, k),
    decreases n - k,
{
    if k < n {
        lemma_discussion_failed(children, k, (n - 1) as nat);
    }
}

/// Reads the text of an element that a record needs.
pub fn need_text(children: &Vec<Node>) -> (r: Result<String, DecodeError>)
    ensures
        needed_text(node_views(children@)) == match r {
            Ok(s) => Ok(s@),
            Err(e) => Err(e.reason()),
        },
{
    match read_own_text(children) {
        Some(t) => Ok(t),
        None => Err(DecodeError::Malformed(Reason::MissingText)),
    }
}

impl XMLAuthor {
    /// Reads the author from the attributes of a link.
    pub fn decode(attrs: &Vec<Attr>) -> (r: Result<XMLAuthor, DecodeError>)
        ensures
            needed_attr(attr_views(attrs@), "title"@) == match r {
                Ok(v) => Ok(v@),
                Err(e) => Err(e.reason()),
            },
    {
        match need_attr(attrs, "title") {
            Ok(name) => Ok(XMLAuthor { name }),
            Err(e) => Err(e),
        }
    }
}

impl XMLReplies {
    /// Reads the number of replies from the children of a block.
    pub fn decode(children: &Vec<Node>) -> (r: Result<XMLReplies, DecodeError>)
        ensures
            needed_text(node_views(children@)) == match r {
                Ok(v) => Ok(v@),
                Err(e) => Err(e.reason()),
            },
    {
        match need_text(children) {
            Ok(replies) => Ok(XMLReplies { replies }),
            Err(e) => Err(e),
        }
    }
}

impl XMLTitle {
    /// Reads the link to a thread from the attributes and children of a
    /// link.
    pub fn decode(attrs: &Vec<Attr>, children: &Vec<Node>) -> (r: Result<XMLTitle, DecodeError>)
        ensures
            title_of(attr_views(attrs@), node_views(children@)) == match r {
                Ok(v) => Ok(v@),
                Err(e) => Err(e.reason()),
            },
    {
        match need_attr(attrs, "href") {
            Err(e) => Err(e),
            Ok(href) => match need_text(children) {
                Err(e) => Err(e),
                Ok(title) => Ok(XMLTitle { href, title }),
            },
        }
    }
}

impl XMLTitleWrapper {
    /// Reads the link to a thread from the children of a block.
    pub fn decode(children: &Vec<Node>) -> (r: Result<XMLTitleWrapper, DecodeError>)
        ensures
            title_wrapper_of(node_views(children@)) == match r {
                Ok(v) => Ok(v@),
                Err(e) => Err(e.reason()),
            },
    {
        let at = find_named(children, "a", 0);
        if at < children.len() {
            assert(node_views(children@)[at as int] == children@[at as int]@);
            match &children[at] {
                Node::Element { name, attrs, children: inner } => {
                    proof {
                        lemma_element_view(*name, *attrs, *inner);
                    }
                    match XMLTitle::decode(attrs, inner) {
                        Ok(value) => Ok(XMLTitleWrapper { value }),
                        Err(e) => Err(e),
                    }
                },
                Node::Text(_) => Err(DecodeError::Malformed(Reason::MissingElement)),
            }
        } else {
            Err(DecodeError::Malformed(Reason::MissingElement))
        }
    }
}

impl XMLDiscussion {
    /// Reads a summary from the children of its fragment's root.
    pub fn decode(children: &Vec<Node>) -> (r: Result<XMLDiscussion, DecodeError>)
        ensures
            discussion_of(node_views(children@)) == match r {
                Ok(v) => Ok(v@),
                Err(e) => Err(e.reason()),
            },
    {
        let ghost views = node_views(children@);
        let mut author = XMLAuthor { name: String::new() };
        let mut replies = XMLReplies { replies: String::new() };
        let mut title = XMLTitleWrapper {
            value: XMLTitle { href: String::new(), title: String::new() },
        };
        let mut seen_block = false;
        let mut i: usize = 0;
        while i < children.len()
            invariant
                i <= children.len(),
                views == node_views(children@),
                discussion_scan(views, i as nat) == Ok::<DiscussionScan, Reason>(
                    DiscussionScan {
                        record: DiscussionView { author: author@, replies: replies@, title: title@ },
                        seen_block,
                    },
                ),
            decreases children.len() - i,
        {
            assert(views[i as int] == children@[i as int]@);
            let mut failure: Option<DecodeError> = None;
            match &children[i] {
                Node::Element { name, attrs, children: inner } => {
                    proof {
                        lemma_element_view(*name, *attrs, *inner);
                    }
                    if name_is(name, "a") {
                        match XMLAuthor::decode(attrs) {
                            Ok(a) => {
                                author = a;
                            },
                            Err(e) => {
                                failure = Some(e);
                            },
                        }
                    } else if name_is(name, "div") {
                        proof {
                            reveal_strlit("a");
                            reveal_strlit("div");
                            assert("a"@ != "div"@) by {
                                assert("a"@.len() != "div"@.len());
                            }
                        }
                        if !seen_block {
                            match XMLReplies::decode(inner) {
                                Ok(r) => {
                                    replies = r;
                                    seen_block = true;
                                },
                                Err(e) => {
                                    failure = Some(e);
                                },
                            }
                        } else {
                            match XMLTitleWrapper::decode(inner) {
                                Ok(t) => {
                                    title = t;
                                },
                                Err(e) => {
                                    failure = Some(e);
                                },
                            }
                        }
                    }
                },
                Node::Text(_) => {},
            }
            if let Some(e) = failure {
                proof {
                    lemma_discussion_failed(views, i as nat + 1, children.len() as nat);
                }
                return Err(e);
            }
            i += 1;
        }
        Ok(XMLDiscussion { author, replies, title })
    }
}

} // verus!
