//! A thread: its comments, and the markup that a comment's text is made of.

use crate::error::{DecodeError, Reason};
use crate::text::name_is;
use crate::flatten::{all_flattenable, flat_all, flatten_all};
use crate::lines::no_blank_run;
use crate::text::string_views;
use crate::tree::{attr_value, find_attr, find_named, lemma_element_view, named_from, node_views,
    own_text, read_own_text, Node, NodeView};
use crate::xml::{attr_views, Attr};
use vstd::prelude::*;

verus! {

broadcast use {
    vstd::seq::axiom_seq_index_decreases,
    vstd::std_specs::vec::axiom_vec_decreases_to_view,
    vstd::std_specs::vec::axiom_vec_index_decreases,
};

/// One node of a comment's text.
#[derive(Debug)]
pub enum Choice {
    /// A run of characters.
    Text(String),
    /// A line break.
    LineBreak,
    /// Bold text.
    Bold(Vec<Choice>),
    /// Italic text.
    Italic(Vec<Choice>),
    /// A link, with its text where it has one.
    Link(Option<String>),
    /// A quotation. Its first child holds the quoted text and, where it is
    /// given, the quoted author.
    Blockquote(Vec<Choice>),
    /// An inline group, with its children where it has any.
    Span(Option<Vec<Choice>>),
    /// A block.
    Container(Vec<Choice>),
    /// Anything that carries no text: an image, a list, an inline frame,
    /// underlined, struck or raised text, and every element that is none of
    /// the above.
    Decoration,
}

/// The mathematical value of a [`Choice`].
pub enum Markup {
    Text(Seq<char>),
    LineBreak,
    Bold(Seq<Markup>),
    Italic(Seq<Markup>),
    Link(Option<Seq<char>>),
    Blockquote(Seq<Markup>),
    Span(Option<Seq<Markup>>),
    Container(Seq<Markup>),
    Decoration,
}

/// The values of the nodes in `nodes`.
pub open spec fn markup_of(nodes: Seq<Choice>) -> Seq<Markup>
    decreases nodes,
{
    Seq::new(
        nodes.len(),
        |i: int|
            if 0 <= i < nodes.len() {
                nodes[i].view()
            } else {
                Markup::Decoration
            },
    )
}

impl View for Choice {
    type V = Markup;

    open spec fn view(&self) -> Markup
        decreases self,
    {
        match self {
            Choice::Text(s) => Markup::Text(s@),
            Choice::LineBreak => Markup::LineBreak,
            Choice::Bold(c) => Markup::Bold(markup_of(c@)),
            Choice::Italic(c) => Markup::Italic(markup_of(c@)),
            Choice::Link(t) => Markup::Link(
                match t {
                    Some(s) => Some(s@),
                    None => None,
                },
            ),
            Choice::Blockquote(c) => Markup::Blockquote(markup_of(c@)),
            Choice::Span(c) => Markup::Span(
                match c {
                    Some(v) => Some(markup_of(v@)),
                    None => None,
                },
            ),
            Choice::Container(c) => Markup::Container(markup_of(c@)),
            Choice::Decoration => Markup::Decoration,
        }
    }
}

/// A copy of each node of `nodes`.
pub fn clone_all(nodes: &Vec<Choice>) -> (r: Vec<Choice>)
    ensures
        markup_of(r@) == markup_of(nodes@),
    decreases nodes,
{
    let mut out: Vec<Choice> = Vec::new();
    let mut i: usize = 0;
    while i < nodes.len()
        invariant
            i <= nodes.len(),
            out.len() == i,
            forall|k: int| 0 <= k < i ==> out@[k]@ == nodes@[k]@,
        decreases nodes.len() - i,
    {
        out.push(nodes[i].clone());
        i += 1;
    }
    assert(markup_of(out@) =~= markup_of(nodes@));
    out
}

impl Clone for Choice {
    fn clone(&self) -> (r: Self)
        ensures
            r@ == self@,
        decreases self,
    {
        match self {
            Choice::Text(s) => Choice::Text(s.clone()),
            Choice::LineBreak => Choice::LineBreak,
            Choice::Bold(c) => Choice::Bold(clone_all(c)),
            Choice::Italic(c) => Choice::Italic(clone_all(c)),
            Choice::Link(Some(s)) => Choice::Link(Some(s.clone())),
            Choice::Link(None) => Choice::Link(None),
            Choice::Blockquote(c) => Choice::Blockquote(clone_all(c)),
            Choice::Span(Some(c)) => Choice::Span(Some(clone_all(c))),
            Choice::Span(None) => Choice::Span(None),
            Choice::Container(c) => Choice::Container(clone_all(c)),
            Choice::Decoration => Choice::Decoration,
        }
    }
}

/// Appending a node appends its value.
pub proof fn lemma_markup_push(nodes: Seq<Choice>, node: Choice)
    ensures
        markup_of(nodes.push(node)) == markup_of(nodes).push(node@),
{
    assert(markup_of(nodes.push(node)) =~= markup_of(nodes).push(node@));
}

/// Whether the children of a quotation have the shape of one: the first
/// child is a block; the block's second child is a group with children, the
/// quoted text; and where the block has a third child, that is a group with
/// children whose second child, if there is one, is a link with a text: the
/// quoted author.
pub open spec fn quote_shape(children: Seq<Markup>) -> bool {
    &&& children.len() >= 1
    &&& children[0] matches Markup::Container(parts)
    &&& parts.len() >= 2
    &&& parts[1] matches Markup::Span(Some(_))
    &&& parts.len() >= 3 ==> {
        &&& parts[2] matches Markup::Span(Some(credit))
        &&& credit.len() >= 2 ==> credit[1] matches Markup::Link(Some(_))
    }
}

/// What an element of the given name and children decodes to.
pub open spec fn element_choice(name: Seq<char>, children: Seq<NodeView>) -> Result<Markup, Reason>
    decreases children, 1nat,
{
    if name == "br"@ {
        Ok(Markup::LineBreak)
    } else if name == "a"@ {
        Ok(Markup::Link(own_text(children)))
    } else if name == "b"@ {
        match choices_of(children, children.len()) {
            Ok(c) => Ok(Markup::Bold(c)),
            Err(e) => Err(e),
        }
    } else if name == "i"@ {
        match choices_of(children, children.len()) {
            Ok(c) => Ok(Markup::Italic(c)),
            Err(e) => Err(e),
        }
    } else if name == "div"@ {
        match choices_of(children, children.len()) {
            Ok(c) => Ok(Markup::Container(c)),
            Err(e) => Err(e),
        }
    } else if name == "span"@ {
        if children.len() == 0 {
            Ok(Markup::Span(None))
        } else {
            match choices_of(children, children.len()) {
                Ok(c) => Ok(Markup::Span(Some(c))),
                Err(e) => Err(e),
            }
        }
    } else if name == "blockquote"@ {
        match choices_of(children, children.len()) {
            Ok(c) => if quote_shape(c) {
                Ok(Markup::Blockquote(c))
            } else {
                Err(Reason::Blockquote)
            },
            Err(e) => Err(e),
        }
    } else {
        Ok(Markup::Decoration)
    }
}

/// What a node decodes to. Text stays text. An element is known by its
/// name: `br`, `a`, `b`, `i`, `div`, `span` and `blockquote` are the
/// vocabulary; an element of any other name is a decoration, and what it
/// holds is dropped. A quotation without the shape of one is refused.
pub open spec fn choice_of(node: NodeView) -> Result<Markup, Reason>
    decreases node,
{
    match node {
        NodeView::Text(t) => Ok(Markup::Text(t)),
        NodeView::Element { name, attrs, children } => element_choice(name, children),
    }
}

/// What the first `k` nodes decode to, in order. The first node that is
/// refused decides.
pub open spec fn choices_of(nodes: Seq<NodeView>, k: nat) -> Result<Seq<Markup>, Reason>
    decreases nodes, 0nat, k,
{
    if k == 0 || k > nodes.len() {
        Ok(Seq::empty())
    } else {
        match choices_of(nodes, (k - 1) as nat) {
            Err(e) => Err(e),
            Ok(done) => match choice_of(nodes[k - 1]) {
                Err(e) => Err(e),
                Ok(c) => Ok(done.push(c)),
            },
        }
    }
}

/// The value of what a decoding returned.
pub open spec fn choice_result(r: Result<Choice, DecodeError>) -> Result<Markup, Reason> {
    match r {
        Ok(c) => Ok(c@),
        Err(e) => Err(e.reason()),
    }
}

/// The value of what the decoding of a run of nodes returned.
pub open spec fn choices_result(r: Result<Vec<Choice>, DecodeError>) -> Result<Seq<Markup>, Reason> {
    match r {
        Ok(c) => Ok(markup_of(c@)),
        Err(e) => Err(e.reason()),
    }
}

/// Whether `children` have the shape of a quotation's children.
pub fn has_quote_shape(children: &Vec<Choice>) -> (r: bool)
    ensures
        r == quote_shape(markup_of(children@)),
{
    if children.len() < 1 {
        return false;
    }
    assert(markup_of(children@)[0] == children@[0]@);
    match &children[0] {
        Choice::Container(parts) => {
            assert(children@[0]@ == Markup::Container(markup_of(parts@)));
            if parts.len() < 2 {
                return false;
            }
            assert(markup_of(parts@)[1] == parts@[1]@);
            let body_ok = match &parts[1] {
                Choice::Span(Some(_)) => true,
                _ => false,
            };
            if !body_ok {
                return false;
            }
            if parts.len() < 3 {
                return true;
            }
            assert(markup_of(parts@)[2] == parts@[2]@);
            match &parts[2] {
                Choice::Span(Some(credit)) => {
                    assert(parts@[2]@ == Markup::Span(Some(markup_of(credit@))));
                    if credit.len() < 2 {
                        true
                    } else {
                        assert(markup_of(credit@)[1] == credit@[1]@);
                        match &credit[1] {
                            Choice::Link(Some(_)) => true,
                            _ => false,
                        }
                    }
                },
                _ => false,
            }
        },
        _ => false,
    }
}

impl Choice {
    /// Decodes one node of markup.
    pub fn decode(node: &Node) -> (r: Result<Choice, DecodeError>)
        ensures
            choice_result(r) == choice_of(node@),
        decreases node,
    {
        match node {
            Node::Text(t) => Ok(Choice::Text(t.clone())),
            Node::Element { name, attrs, children } => {
                proof {
                    lemma_element_view(*name, *attrs, *children);
                }
                if name_is(name, "br") {
                    Ok(Choice::LineBreak)
                } else if name_is(name, "a") {
                    Ok(Choice::Link(read_own_text(children)))
                } else if name_is(name, "b") {
                    match Choice::decode_all(children) {
                        Ok(c) => Ok(Choice::Bold(c)),
                        Err(e) => Err(e),
                    }
                } else if name_is(name, "i") {
                    match Choice::decode_all(children) {
                        Ok(c) => Ok(Choice::Italic(c)),
                        Err(e) => Err(e),
                    }
                } else if name_is(name, "div") {
                    match Choice::decode_all(children) {
                        Ok(c) => Ok(Choice::Container(c)),
                        Err(e) => Err(e),
                    }
                } else if name_is(name, "span") {
                    if children.len() == 0 {
                        Ok(Choice::Span(None))
                    } else {
                        match Choice::decode_all(children) {
                            Ok(c) => Ok(Choice::Span(Some(c))),
                            Err(e) => Err(e),
                        }
                    }
                } else if name_is(name, "blockquote") {
                    match Choice::decode_all(children) {
                        Ok(c) => Choice::blockquote(c),
                        Err(e) => Err(e),
                    }
                } else {
                    Ok(Choice::Decoration)
                }
            },
        }
    }

    /// Decodes a run of nodes, in order.
    pub fn decode_all(nodes: &Vec<Node>) -> (r: Result<Vec<Choice>, DecodeError>)
        ensures
            choices_result(r) == choices_of(node_views(nodes@), nodes.len() as nat),
        decreases nodes,
    {
        let ghost views = node_views(nodes@);
        let mut out: Vec<Choice> = Vec::new();
        let mut i: usize = 0;
        proof {
            assert(markup_of(out@) =~= Seq::<Markup>::empty());
        }
        while i < nodes.len()
            invariant
                i <= nodes.len(),
                views == node_views(nodes@),
                choices_of(views, i as nat) == Ok::<Seq<Markup>, Reason>(markup_of(out@)),
            decreases nodes.len() - i,
        {
            assert(views[i as int] == nodes@[i as int]@);
            match Choice::decode(&nodes[i]) {
                Ok(c) => {
                    proof {
                        lemma_markup_push(out@, c);
                    }
                    out.push(c);
                },
                Err(e) => {
                    proof {
                        lemma_choices_failed(views, i as nat + 1, nodes.len() as nat);
                    }
                    return Err(e);
                },
            }
            i += 1;
        }
        Ok(out)
    }

    /// A quotation with the given children, where they have the shape of a
    /// quotation's children.
    pub fn blockquote(children: Vec<Choice>) -> (r: Result<Choice, DecodeError>)
        ensures
            quote_shape(markup_of(children@)) ==> r is Ok && r->Ok_0@ == Markup::Blockquote(
                markup_of(children@),
            ),
            !quote_shape(markup_of(children@)) ==> r == Err::<Choice, DecodeError>(
                DecodeError::Malformed(Reason::Blockquote),
            ),
    {
        if has_quote_shape(&children) {
            Ok(Choice::Blockquote(children))
        } else {
            Err(DecodeError::Malformed(Reason::Blockquote))
        }
    }
}

/// Once a node has been refused, the nodes after it change nothing.
pub proof fn lemma_choices_failed(nodes: Seq<NodeView>, k: nat, n: nat)
    requires
        k <= n <= nodes.len(),
        choices_of(nodes, k) is Err,
    ensures
        choices_of(nodes, n) == choices_of(nodes, k),
    decreases n - k,
{
    if k < n {
        lemma_choices_failed(nodes, k, (n - 1) as nat);
    }
}

/// One comment of a thread.
#[derive(Debug)]
pub struct ThreadComment {
    pub author: String,
    pub text: Vec<Choice>,
    pub date: String,
}

/// The mathematical value of a [`ThreadComment`].
pub struct CommentView {
    pub author: Seq<char>,
    pub text: Seq<Markup>,
    pub date: Seq<char>,
}

impl View for ThreadComment {
    type V = CommentView;

    open spec fn view(&self) -> CommentView {
        CommentView { author: self.author@, text: markup_of(self.text@), date: self.date@ }
    }
}

impl Clone for ThreadComment {
    fn clone(&self) -> (r: Self)
        ensures
            r@ == self@,
    {
        ThreadComment {
            author: self.author.clone(),
            text: clone_all(&self.text),
            date: self.date.clone(),
        }
    }
}

/// The values of a run of comments.
pub open spec fn comment_views(comments: Seq<ThreadComment>) -> Seq<CommentView> {
    comments.map_values(|c: ThreadComment| c@)
}

impl ThreadComment {
    /// Whether the comment's text can be flattened.
    pub open spec fn showable(&self) -> bool {
        all_flattenable(markup_of(self.text@), self.text@.len())
    }

    /// The lines that show the comment's text. No two blank lines follow
    /// each other.
    pub fn get_lines(&self) -> (lines: Vec<String>)
        requires
            self.showable(),
        ensures
            string_views(lines@) == flat_all(self@.text),
            no_blank_run(string_views(lines@)),
    {
        flatten_all(&self.text)
    }
}

/// The comments of one thread that have been fetched so far.
#[derive(Debug)]
pub struct ThreadData {
    pub title: String,
    pub comments: Vec<ThreadComment>,
    /// The number of the last page of comments that was fetched; 0 before
    /// the first.
    pub comment_page: u16,
}

/// The mathematical value of a [`ThreadData`].
pub struct ThreadView {
    pub title: Seq<char>,
    pub comments: Seq<CommentView>,
    pub comment_page: nat,
}

impl View for ThreadData {
    type V = ThreadView;

    open spec fn view(&self) -> ThreadView {
        ThreadView {
            title: self.title@,
            comments: comment_views(self.comments@),
            comment_page: self.comment_page as nat,
        }
    }
}

impl Clone for ThreadData {
    fn clone(&self) -> (r: Self)
        ensures
            r@ == self@,
    {
        let mut comments: Vec<ThreadComment> = Vec::new();
        let mut i: usize = 0;
        while i < self.comments.len()
            invariant
                i <= self.comments.len(),
                comments.len() == i,
                forall|k: int| 0 <= k < i ==> comments@[k]@ == self.comments@[k]@,
            decreases self.comments.len() - i,
        {
            comments.push(self.comments[i].clone());
            i += 1;
        }
        assert(comment_views(comments@) =~= comment_views(self.comments@));
        ThreadData { title: self.title.clone(), comments, comment_page: self.comment_page }
    }
}

/// The name of a comment's author: the `title` of a link.
pub struct XMLAuthorInner {
    pub value: String,
}

/// The author of a comment: the first link of a group.
pub struct XMLAuthor {
    pub name: XMLAuthorInner,
}

/// The text of a comment: what a block holds.
pub struct XMLMessage {
    pub text: Vec<Choice>,
}

/// The time of a comment: the `datetime` of a time element.
pub struct XMLDate {
    pub value: String,
}

/// The link's time element.
pub struct XMLDateOuter {
    pub value: XMLDate,
}

/// The group's link to the comment, which holds the time.
pub struct XMLDateWrapper {
    pub value: XMLDateOuter,
}

/// The footer of a comment: its second group holds the time.
pub struct XMLMeta {
    pub value: XMLDateWrapper,
}

/// A comment as its fragment spells it.
pub struct XMLComment {
    pub author: XMLAuthor,
    pub text: XMLMessage,
    pub date: XMLMeta,
}

impl View for XMLAuthorInner {
    type V = Seq<char>;

    open spec fn view(&self) -> Seq<char> {
        self.value@
    }
}

impl View for XMLAuthor {
    type V = Seq<char>;

    open spec fn view(&self) -> Seq<char> {
        self.name@
    }
}

impl View for XMLMessage {
    type V = Seq<Markup>;

    open spec fn view(&self) -> Seq<Markup> {
        markup_of(self.text@)
    }
}

impl View for XMLDate {
    type V = Seq<char>;

    open spec fn view(&self) -> Seq<char> {
        self.value@
    }
}

impl View for XMLDateOuter {
    type V = Seq<char>;

    open spec fn view(&self) -> Seq<char> {
        self.value@
    }
}

impl View for XMLDateWrapper {
    type V = Seq<char>;

    open spec fn view(&self) -> Seq<char> {
        self.value@
    }
}

impl View for XMLMeta {
    type V = Seq<char>;

    open spec fn view(&self) -> Seq<char> {
        self.value@
    }
}

impl View for XMLComment {
    type V = CommentView;

    open spec fn view(&self) -> CommentView {
        CommentView { author: self.author@, text: self.text@, date: self.date@ }
    }
}

/// The attribute `key` as a record needs it: its value, or
/// [`Reason::MissingAttribute`].
pub open spec fn needed_attr(attrs: Seq<(Seq<char>, Seq<char>)>, key: Seq<char>) -> Result<
    Seq<char>,
    Reason,
> {
    match attr_value(attrs, key) {
        Some(v) => Ok(v),
        None => Err(Reason::MissingAttribute),
    }
}

/// The author that a group names: the `title` of its first link, which that
/// link must have; no name where the group holds no link.
pub open spec fn author_of(children: Seq<NodeView>) -> Result<Seq<char>, Reason> {
    let at = named_from(children, "a"@, 0);
    if at < children.len() {
        needed_attr(children[at as int]->attrs, "title"@)
    } else {
        Ok(Seq::empty())
    }
}

/// The time that a link holds: the `datetime` of its first time element.
/// Both must be there.
pub open spec fn date_outer_of(children: Seq<NodeView>) -> Result<Seq<char>, Reason> {
    let at = named_from(children, "time"@, 0);
    if at < children.len() {
        needed_attr(children[at as int]->attrs, "datetime"@)
    } else {
        Err(Reason::MissingElement)
    }
}

/// The time that a group holds: that of its first link, which must be
/// there.
pub open spec fn date_wrapper_of(children: Seq<NodeView>) -> Result<Seq<char>, Reason> {
    let at = named_from(children, "a"@, 0);
    if at < children.len() {
        date_outer_of(children[at as int]->children)
    } else {
        Err(Reason::MissingElement)
    }
}

/// The time in a comment's footer: that of the footer's second group; no
/// time where the footer has fewer than two groups.
pub open spec fn meta_of(children: Seq<NodeView>) -> Result<Seq<char>, Reason> {
    let first = named_from(children, "span"@, 0);
    let second = named_from(children, "span"@, first + 1);
    if second < children.len() {
        date_wrapper_of(children[second as int]->children)
    } else {
        Ok(Seq::empty())
    }
}

/// A comment in the making: what has been read of it, and how many blocks
/// have been seen.
pub struct CommentScan {
    pub record: CommentView,
    pub blocks: nat,
}

/// What one more child of the fragment's root does to the comment. A group
/// names the author. The first block is passed over, the second holds the
/// text, and each block after it is taken for the footer.
pub open spec fn comment_step(scan: CommentScan, child: NodeView) -> Result<CommentScan, Reason> {
    let record = scan.record;
    if is_span(child) {
        match author_of(child->children) {
            Ok(author) => Ok(
                CommentScan {
                    record: CommentView { author, text: record.text, date: record.date },
                    blocks: scan.blocks,
                },
            ),
            Err(e) => Err(e),
        }
    } else if is_div(child) {
        if scan.blocks == 0 {
            Ok(CommentScan { record, blocks: 1 })
        } else if scan.blocks == 1 {
            match choices_of(child->children, child->children.len()) {
                Ok(text) => Ok(
                    CommentScan {
                        record: CommentView { author: record.author, text, date: record.date },
                        blocks: 2,
                    },
                ),
                Err(e) => Err(e),
            }
        } else {
            match meta_of(child->children) {
                Ok(date) => Ok(
                    CommentScan {
                        record: CommentView { author: record.author, text: record.text, date },
                        blocks: scan.blocks,
                    },
                ),
                Err(e) => Err(e),
            }
        }
    } else {
        Ok(scan)
    }
}

/// Whether `node` is a group.
pub open spec fn is_span(node: NodeView) -> bool {
    crate::tree::is_named(node, "span"@)
}

/// Whether `node` is a block.
pub open spec fn is_div(node: NodeView) -> bool {
    crate::tree::is_named(node, "div"@)
}

/// The comment after the first `k` children of the fragment's root. The
/// first child that is refused decides.
pub open spec fn comment_scan(children: Seq<NodeView>, k: nat) -> Result<CommentScan, Reason>
    decreases k,
{
    if k == 0 || k > children.len() {
        Ok(
            CommentScan {
                record: CommentView {
                    author: Seq::empty(),
                    text: Seq::empty(),
                    date: Seq::empty(),
                },
                blocks: 0,
            },
        )
    } else {
        match comment_scan(children, (k - 1) as nat) {
            Err(e) => Err(e),
            Ok(scan) => comment_step(scan, children[k - 1]),
        }
    }
}

/// The comment that the children of a fragment's root spell.
pub open spec fn comment_of(children: Seq<NodeView>) -> Result<CommentView, Reason> {
    match comment_scan(children, children.len()) {
        Ok(scan) => Ok(scan.record),
        Err(e) => Err(e),
    }
}

/// Once a child has been refused, the children after it change nothing.
pub proof fn lemma_comment_failed(children: Seq<NodeView>, k: nat, n: nat)
    requires
        k <= n <= children.len(),
        comment_scan(children, k) is Err,
    ensures
        comment_scan(children, n) == comment_scan(children, k),
    decreases n - k,
{
    if k < n {
        lemma_comment_failed(children, k, (n - 1) as nat);
    }
}

/// Looks up an attribute that a record needs.
pub fn need_attr(attrs: &Vec<Attr>, key: &str) -> (r: Result<String, DecodeError>)
    ensures
        needed_attr(attr_views(attrs@), key@) == match r {
            Ok(s) => Ok(s@),
            Err(e) => Err(e.reason()),
        },
{
    match find_attr(attrs, key) {
        Some(v) => Ok(v),
        None => Err(DecodeError::Malformed(Reason::MissingAttribute)),
    }
}

impl XMLAuthorInner {
    /// Reads the name from the attributes of a link.
    pub fn decode(attrs: &Vec<Attr>) -> (r: Result<XMLAuthorInner, DecodeError>)
        ensures
            needed_attr(attr_views(attrs@), "title"@) == match r {
                Ok(v) => Ok(v@),
                Err(e) => Err(e.reason()),
            },
    {
        match need_attr(attrs, "title") {
            Ok(value) => Ok(XMLAuthorInner { value }),
            Err(e) => Err(e),
        }
    }
}

impl XMLAuthor {
    /// Reads the author from the children of a group.
    pub fn decode(children: &Vec<Node>) -> (r: Result<XMLAuthor, DecodeError>)
        ensures
            author_of(node_views(children@)) == match r {
                Ok(v) => Ok(v@),
                Err(e) => Err(e.reason()),
            },
    {
        let at = find_named(children, "a", 0);
        if at < children.len() {
            assert(node_views(children@)[at as int] == children@[at as int]@);
            match &children[at] {
                Node::Element { name, attrs, children: inner } => {
                    proof {
                        lemma_element_view(*name, *attrs, *inner);
                    }
                    match XMLAuthorInner::decode(attrs) {
                        Ok(name) => Ok(XMLAuthor { name }),
                        Err(e) => Err(e),
                    }
                },
                Node::Text(_) => Ok(XMLAuthor { name: XMLAuthorInner { value: String::new() } }),
            }
        } else {
            Ok(XMLAuthor { name: XMLAuthorInner { value: String::new() } })
        }
    }
}

impl XMLMessage {
    /// Reads the text from the children of a block.
    pub fn decode(children: &Vec<Node>) -> (r: Result<XMLMessage, DecodeError>)
        ensures
            choices_of(node_views(children@), children.len() as nat) == match r {
                Ok(v) => Ok(v@),
                Err(e) => Err(e.reason()),
            },
    {
        match Choice::decode_all(children) {
            Ok(text) => Ok(XMLMessage { text }),
            Err(e) => Err(e),
        }
    }
}

impl XMLDate {
    /// Reads the time from the attributes of a time element.
    pub fn decode(attrs: &Vec<Attr>) -> (r: Result<XMLDate, DecodeError>)
        ensures
            needed_attr(attr_views(attrs@), "datetime"@) == match r {
                Ok(v) => Ok(v@),
                Err(e) => Err(e.reason()),
            },
    {
        match need_attr(attrs, "datetime") {
            Ok(value) => Ok(XMLDate { value }),
            Err(e) => Err(e),
        }
    }
}

impl XMLDateOuter {
    /// Reads the time from the children of a link.
    pub fn decode(children: &Vec<Node>) -> (r: Result<XMLDateOuter, DecodeError>)
        ensures
            date_outer_of(node_views(children@)) == match r {
                Ok(v) => Ok(v@),
                Err(e) => Err(e.reason()),
            },
    {
        let at = find_named(children, "time", 0);
        if at < children.len() {
            assert(node_views(children@)[at as int] == children@[at as int]@);
            match &children[at] {
                Node::Element { name, attrs, children: inner } => {
                    proof {
                        lemma_element_view(*name, *attrs, *inner);
                    }
                    match XMLDate::decode(attrs) {
                        Ok(value) => Ok(XMLDateOuter { value }),
                        Err(e) => Err(e),
                    }
                },
                Node::Text(_) => Err(DecodeError::Malformed(Reason::MissingElement)),
            }
        } else {
            Err(DecodeError::Malformed(Reason::MissingElement))
        }
    }
}

impl XMLDateWrapper {
    /// Reads the time from the children of a group.
    pub fn decode(children: &Vec<Node>) -> (r: Result<XMLDateWrapper, DecodeError>)
        ensures
            date_wrapper_of(node_views(children@)) == match r {
                Ok(v) => Ok(v@),
                Err(e) => Err(e.reason()),
            },
    {
        let at = find_named(children, "a", 0);
        if at < children.len() {
            assert(node_views(children@)[at as int] == children@[at as int]@);
            match &children[at] {
                Node::Element { name, attrs, children: inner } => {
                    proof {
                        lemma_element_view(*name, *attrs, *inner);
                    }
                    match XMLDateOuter::decode(inner) {
                        Ok(value) => Ok(XMLDateWrapper { value }),
                        Err(e) => Err(e),
                    }
                },
                Node::Text(_) => Err(DecodeError::Malformed(Reason::MissingElement)),
            }
        } else {
            Err(DecodeError::Malformed(Reason::MissingElement))
        }
    }
}

impl XMLMeta {
    /// A footer without a time.
    pub fn empty() -> (r: XMLMeta)
        ensures
            r@ == Seq::<char>::empty(),
    {
        XMLMeta {
            value: XMLDateWrapper { value: XMLDateOuter { value: XMLDate { value: String::new() } } },
        }
    }

    /// Reads the time from the children of a comment's footer.
    pub fn decode(children: &Vec<Node>) -> (r: Result<XMLMeta, DecodeError>)
        ensures
            meta_of(node_views(children@)) == match r {
                Ok(v) => Ok(v@),
                Err(e) => Err(e.reason()),
            },
    {
        let first = find_named(children, "span", 0);
        if first >= children.len() {
            return Ok(XMLMeta::empty());
        }
        let second = find_named(children, "span", first + 1);
        if second < children.len() {
            assert(node_views(children@)[second as int] == children@[second as int]@);
            match &children[second] {
                Node::Element { name, attrs, children: inner } => {
                    proof {
                        lemma_element_view(*name, *attrs, *inner);
                    }
                    match XMLDateWrapper::decode(inner) {
                        Ok(value) => Ok(XMLMeta { value }),
                        Err(e) => Err(e),
                    }
                },
                Node::Text(_) => Ok(XMLMeta::empty()),
            }
        } else {
            Ok(XMLMeta::empty())
        }
    }
}

impl XMLComment {
    /// Reads a comment from the children of its fragment's root.
    pub fn decode(children: &Vec<Node>) -> (r: Result<XMLComment, DecodeError>)
        ensures
            comment_of(node_views(children@)) == match r {
                Ok(v) => Ok(v@),
                Err(e) => Err(e.reason()),
            },
    {
        let ghost views = node_views(children@);
        let mut author = XMLAuthor { name: XMLAuthorInner { value: String::new() } };
        let mut text = XMLMessage { text: Vec::new() };
        let mut date = XMLMeta::empty();
        let mut blocks: u8 = 0;
        let mut i: usize = 0;
        proof {
            assert(markup_of(text.text@) =~= Seq::<Markup>::empty());
        }
        while i < children.len()
            invariant
                i <= children.len(),
                views == node_views(children@),
                blocks <= 2,
                comment_scan(views, i as nat) == Ok::<CommentScan, Reason>(
                    CommentScan {
                        record: CommentView { author: author@, text: text@, date: date@ },
                        blocks: blocks as nat,
                    },
                ),
            decreases children.len() - i,
        {
            assert(views[i as int] == children@[i as int]@);
            let mut failure: Option<DecodeError> = None;
            match &children[i] {
                Node::Element { name, attrs, children: inner } => {
                    proof {
                        lemma_element_view(*name, *attrs, *inner);
                    }
                    if name_is(name, "span") {
                        match XMLAuthor::decode(inner) {
                            Ok(a) => {
                                author = a;
                            },
                            Err(e) => {
                                failure = Some(e);
                            },
                        }
                    } else if name_is(name, "div") {
                        proof {
                            reveal_strlit("span");
                            reveal_strlit("div");
                            assert("span"@ != "div"@) by {
                                assert("span"@.len() != "div"@.len());
                            }
                        }
                        if blocks == 0 {
                            blocks = 1;
                        } else if blocks == 1 {
                            match XMLMessage::decode(inner) {
                                Ok(t) => {
                                    text = t;
                                    blocks = 2;
                                },
                                Err(e) => {
                                    failure = Some(e);
                                },
                            }
                        } else {
                            match XMLMeta::decode(inner) {
                                Ok(d) => {
                                    date = d;
                                },
                                Err(e) => {
                                    failure = Some(e);
                                },
                            }
                        }
                    }
                },
                Node::Text(_) => {},
            }
            if let Some(e) = failure {
                proof {
                    lemma_comment_failed(views, i as nat + 1, children.len() as nat);
                }
                return Err(e);
            }
            i += 1;
        }
        Ok(XMLComment { author, text, date })
    }
}

} // verus!
