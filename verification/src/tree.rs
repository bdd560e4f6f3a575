//! Markup as a tree of elements and text.

use crate::error::{DecodeError, Reason};
use crate::xml::{attr_views, read_attributes, token_views, unescape, xml_attributes,
    xml_unescaped, Attr, Token, TokenView};
use crate::text::name_is;
use vstd::prelude::*;

verus! {

broadcast use {
    vstd::seq::axiom_seq_index_decreases,
    vstd::std_specs::vec::axiom_vec_decreases_to_view,
};

/// A piece of markup: an element with what it holds, or a run of text.
#[derive(Debug)]
pub enum Node {
    Element { name: String, attrs: Vec<Attr>, children: Vec<Node> },
    /// Character data with its references resolved.
    Text(String),
}

/// The mathematical value of a [`Node`].
pub enum NodeView {
    Element { name: Seq<char>, attrs: Seq<(Seq<char>, Seq<char>)>, children: Seq<NodeView> },
    Text(Seq<char>),
}

impl View for Node {
    type V = NodeView;

    open spec fn view(&self) -> NodeView
        decreases self,
    {
        match self {
            Node::Element { name, attrs, children } => NodeView::Element {
                name: name@,
                attrs: attr_views(attrs@),
                children: Seq::new(
                    children@.len(),
                    |i: int|
                        if 0 <= i < children@.len() {
                            children@[i].view()
                        } else {
                            NodeView::Text(Seq::empty())
                        },
                ),
            },
            Node::Text(s) => NodeView::Text(s@),
        }
    }
}

/// The values of a run of nodes.
pub open spec fn node_views(nodes: Seq<Node>) -> Seq<NodeView> {
    nodes.map_values(|n: Node| n@)
}

/// The children of an element are the values of its child nodes.
pub proof fn lemma_element_view(name: String, attrs: Vec<Attr>, children: Vec<Node>)
    ensures
        (Node::Element { name, attrs, children })@ == (NodeView::Element {
            name: name@,
            attrs: attr_views(attrs@),
            children: node_views(children@),
        }),
{
    let n = Node::Element { name, attrs, children };
    assert(n@->children =~= node_views(children@));
}

/// An element that has been opened and not yet closed.
pub struct Frame {
    pub name: String,
    pub attrs: Vec<Attr>,
    pub children: Vec<Node>,
}

/// The mathematical value of a [`Frame`].
pub struct FrameView {
    pub name: Seq<char>,
    pub attrs: Seq<(Seq<char>, Seq<char>)>,
    pub children: Seq<NodeView>,
}

impl View for Frame {
    type V = FrameView;

    open spec fn view(&self) -> FrameView {
        FrameView { name: self.name@, attrs: attr_views(self.attrs@), children: node_views(self.children@) }
    }
}

/// The values of a stack of frames.
pub open spec fn frame_views(frames: Seq<Frame>) -> Seq<FrameView> {
    frames.map_values(|f: Frame| f@)
}

/// How far the reading of a run of tokens has come.
pub enum Build {
    /// A token was refused; the rest is not looked at.
    Failed(Reason),
    /// The elements still open, innermost last, and the finished nodes
    /// outside all of them.
    Going { open: Seq<FrameView>, done: Seq<NodeView> },
}

/// Puts a finished node where it belongs: into the innermost open element,
/// or, where none is open, among the finished nodes.
pub open spec fn attach(open: Seq<FrameView>, done: Seq<NodeView>, node: NodeView) -> Build {
    if open.len() == 0 {
        Build::Going { open, done: done.push(node) }
    } else {
        let top = open.last();
        Build::Going {
            open: open.drop_last().push(
                FrameView { name: top.name, attrs: top.attrs, children: top.children.push(node) },
            ),
            done,
        }
    }
}

/// What one more token does to the reading.
pub open spec fn build_step(build: Build, token: TokenView) -> Build {
    match build {
        Build::Failed(r) => Build::Failed(r),
        Build::Going { open, done } => match token {
            TokenView::Open { name, attrs } => match xml_attributes(attrs) {
                None => Build::Failed(Reason::Attributes),
                Some(a) => Build::Going {
                    open: open.push(FrameView { name, attrs: a, children: Seq::empty() }),
                    done,
                },
            },
            TokenView::Close => if open.len() == 0 {
                Build::Failed(Reason::Unbalanced)
            } else {
                let top = open.last();
                attach(
                    open.drop_last(),
                    done,
                    NodeView::Element { name: top.name, attrs: top.attrs, children: top.children },
                )
            },
            TokenView::Text(raw) => match xml_unescaped(raw) {
                None => Build::Failed(Reason::Entity),
                Some(text) => attach(open, done, NodeView::Text(text)),
            },
            TokenView::CData(text) => attach(open, done, NodeView::Text(text)),
            TokenView::Skip => build,
            TokenView::Invalid => Build::Failed(Reason::Syntax),
        },
    }
}

/// The reading of a whole run of tokens, from the first to the last.
pub open spec fn build_all(tokens: Seq<TokenView>) -> Build
    decreases tokens.len(),
{
    if tokens.len() == 0 {
        Build::Going { open: Seq::empty(), done: Seq::empty() }
    } else {
        build_step(build_all(tokens.drop_last()), tokens.last())
    }
}

/// The nodes that a run of tokens spells, or why it spells none: the first
/// token that is refused decides, and an element left open at the end is
/// [`Reason::Unbalanced`].
pub open spec fn forest_of(tokens: Seq<TokenView>) -> Result<Seq<NodeView>, Reason> {
    match build_all(tokens) {
        Build::Failed(r) => Err(r),
        Build::Going { open, done } => if open.len() == 0 {
            Ok(done)
        } else {
            Err(Reason::Unbalanced)
        },
    }
}

/// Once a token has been refused, the tokens after it change nothing.
pub proof fn lemma_build_failed(tokens: Seq<TokenView>, k: int)
    requires
        0 <= k <= tokens.len(),
        build_all(tokens.take(k)) is Failed,
    ensures
        build_all(tokens) == build_all(tokens.take(k)),
    decreases tokens.len() - k,
{
    if k < tokens.len() {
        assert(tokens.take(k + 1).drop_last() =~= tokens.take(k));
        lemma_build_failed(tokens, k + 1);
    } else {
        assert(tokens.take(k) =~= tokens);
    }
}

/// Reads the tokens `from..to` into the nodes that they spell.
pub fn parse_range(tokens: &Vec<Token>, from: usize, to: usize) -> (r: Result<
    Vec<Node>,
    DecodeError,
>)
    requires
        from <= to <= tokens.len(),
    ensures
        match r {
            Ok(nodes) => forest_of(token_views(tokens@).subrange(from as int, to as int)) == Ok::<
                Seq<NodeView>,
                Reason,
            >(node_views(nodes@)),
            Err(e) => forest_of(token_views(tokens@).subrange(from as int, to as int)) == Err::<
                Seq<NodeView>,
                Reason,
            >(e.reason()),
        },
{
    let ghost all = token_views(tokens@).subrange(from as int, to as int);
    let mut open: Vec<Frame> = Vec::new();
    let mut done: Vec<Node> = Vec::new();
    let mut i: usize = from;
    proof {
        assert(all.take(0) =~= Seq::<TokenView>::empty());
        assert(frame_views(open@) =~= Seq::<FrameView>::empty());
        assert(node_views(done@) =~= Seq::<NodeView>::empty());
    }
    while i < to
        invariant
            from <= i <= to <= tokens.len(),
            all == token_views(tokens@).subrange(from as int, to as int),
            build_all(all.take(i - from)) == (Build::Going {
                open: frame_views(open@),
                done: node_views(done@),
            }),
        decreases to - i,
    {
        let ghost k = i - from;
        let ghost before = build_all(all.take(k));
        proof {
            assert(all.take(k + 1).drop_last() =~= all.take(k));
            assert(all.take(k + 1).last() == tokens@[i as int]@);
        }
        let failure: Option<Reason> = match &tokens[i] {
            Token::Open { name, attrs } => match read_attributes(attrs.as_str()) {
                None => Some(Reason::Attributes),
                Some(a) => {
                    let frame = Frame { name: name.clone(), attrs: a, children: Vec::new() };
                    proof {
                        assert(node_views(frame.children@) =~= Seq::<NodeView>::empty());
                    }
                    let ghost old_open = open@;
                    open.push(frame);
                    proof {
                        assert(frame_views(open@) =~= frame_views(old_open).push(frame@));
                    }
                    None
                },
            },
            Token::Close => match open.pop() {
                None => Some(Reason::Unbalanced),
                Some(frame) => {
                    proof {
                        assert(frame_views(open@) =~= before->open.drop_last());
                        lemma_element_view(frame.name, frame.attrs, frame.children);
                    }
                    let node = Node::Element {
                        name: frame.name,
                        attrs: frame.attrs,
                        children: frame.children,
                    };
                    attach_node(&mut open, &mut done, node);
                    None
                },
            },
            Token::Text(raw) => match unescape(raw.as_str()) {
                None => Some(Reason::Entity),
                Some(text) => {
                    attach_node(&mut open, &mut done, Node::Text(text));
                    None
                },
            },
            Token::CData(text) => {
                attach_node(&mut open, &mut done, Node::Text(text.clone()));
                None
            },
            Token::Skip => None,
            Token::Invalid => Some(Reason::Syntax),
        };
        if let Some(reason) = failure {
            proof {
                lemma_build_failed(all, k + 1);
            }
            return Err(DecodeError::Malformed(reason));
        }
        i += 1;
    }
    proof {
        assert(all.take(to - from) =~= all);
    }
    if open.len() == 0 {
        Ok(done)
    } else {
        Err(DecodeError::Malformed(Reason::Unbalanced))
    }
}

/// Puts a finished node into the innermost open element, or among the
/// finished nodes where no element is open.
fn attach_node(open: &mut Vec<Frame>, done: &mut Vec<Node>, node: Node)
    ensures
        attach(frame_views(old(open)@), node_views(old(done)@), node@) == (Build::Going {
            open: frame_views(final(open)@),
            done: node_views(final(done)@),
        }),
{
    let ghost open0 = open@;
    let ghost done0 = done@;
    match open.pop() {
        None => {
            done.push(node);
            proof {
                assert(node_views(done@) =~= node_views(done0).push(node@));
                assert(frame_views(open@) =~= frame_views(open0));
            }
        },
        Some(frame) => {
            let ghost rest = open@;
            let mut children = frame.children;
            let ghost kids = children@;
            children.push(node);
            let grown = Frame { name: frame.name, attrs: frame.attrs, children };
            open.push(grown);
            proof {
                assert(node_views(children@) =~= node_views(kids).push(node@));
                assert(frame_views(rest) =~= frame_views(open0).drop_last());
                assert(frame_views(open@) =~= frame_views(rest).push(grown@));
                assert(node_views(done@) =~= node_views(done0));
            }
        },
    }
}

/// The value of the first attribute at or after `from` whose key is `key`.
pub open spec fn attr_from(attrs: Seq<(Seq<char>, Seq<char>)>, key: Seq<char>, from: nat) -> Option<
    Seq<char>,
>
    decreases attrs.len() - from,
{
    if from >= attrs.len() {
        None
    } else if attrs[from as int].0 == key {
        Some(attrs[from as int].1)
    } else {
        attr_from(attrs, key, from + 1)
    }
}

/// The value of the first attribute whose key is `key`.
pub open spec fn attr_value(attrs: Seq<(Seq<char>, Seq<char>)>, key: Seq<char>) -> Option<
    Seq<char>,
> {
    attr_from(attrs, key, 0)
}

/// Whether `node` is an element of the given name.
pub open spec fn is_named(node: NodeView, name: Seq<char>) -> bool {
    node matches NodeView::Element { name: n, .. } && n == name
}

/// The place of the first element of the given name at or after `from`;
/// the number of nodes where there is none.
pub open spec fn named_from(nodes: Seq<NodeView>, name: Seq<char>, from: nat) -> nat
    decreases nodes.len() - from,
{
    if from >= nodes.len() {
        nodes.len()
    } else if is_named(nodes[from as int], name) {
        from
    } else {
        named_from(nodes, name, from + 1)
    }
}

/// Looks up the value of the first attribute whose key is `key`.
pub fn find_attr(attrs: &Vec<Attr>, key: &str) -> (r: Option<String>)
    ensures
        attr_value(attr_views(attrs@), key@) == match r {
            Some(s) => Some(s@),
            None => None,
        },
{
    let ghost views = attr_views(attrs@);
    let mut i: usize = 0;
    while i < attrs.len()
        invariant
            i <= attrs.len(),
            views == attr_views(attrs@),
            attr_value(views, key@) == attr_from(views, key@, i as nat),
        decreases attrs.len() - i,
    {
        assert(views[i as int] == attrs@[i as int]@);
        if name_is(&attrs[i].key, key) {
            return Some(attrs[i].value.clone());
        }
        i += 1;
    }
    None
}

/// Finds the first element of the given name at or after `from`.
pub fn find_named(nodes: &Vec<Node>, name: &str, from: usize) -> (at: usize)
    ensures
        at == named_from(node_views(nodes@), name@, from as nat),
        at < nodes.len() ==> from <= at && nodes@[at as int] is Element,
        at >= nodes.len() ==> at == nodes.len(),
{
    let ghost views = node_views(nodes@);
    let mut i: usize = from;
    while i < nodes.len()
        invariant
            from <= i,
            views == node_views(nodes@),
            named_from(views, name@, from as nat) == named_from(views, name@, i as nat),
        decreases nodes.len() - i,
    {
        assert(views[i as int] == nodes@[i as int]@);
        match &nodes[i] {
            Node::Element { name: n, attrs, children } => {
                proof {
                    lemma_element_view(*n, *attrs, *children);
                }
                if name_is(n, name) {
                    return i;
                }
            },
            Node::Text(_) => {},
        }
        i += 1;
    }
    nodes.len()
}

/// Whether one of the first `k` nodes is text.
pub open spec fn any_text(nodes: Seq<NodeView>, k: nat) -> bool
    decreases k,
{
    k > 0 && (any_text(nodes, (k - 1) as nat) || nodes[k - 1] is Text)
}

/// The text nodes among the first `k` nodes, joined in order.
pub open spec fn joined_text(nodes: Seq<NodeView>, k: nat) -> Seq<char>
    decreases k,
{
    if k == 0 {
        Seq::empty()
    } else {
        match nodes[k - 1] {
            NodeView::Text(t) => joined_text(nodes, (k - 1) as nat) + t,
            _ => joined_text(nodes, (k - 1) as nat),
        }
    }
}

/// The text that stands directly in an element with the given children:
/// what its text children read, joined; `None` where it has no text child.
pub open spec fn own_text(children: Seq<NodeView>) -> Option<Seq<char>> {
    if any_text(children, children.len()) {
        Some(joined_text(children, children.len()))
    } else {
        None
    }
}

/// Reads the text that stands directly in an element with the given
/// children.
pub fn read_own_text(children: &Vec<Node>) -> (r: Option<String>)
    ensures
        own_text(node_views(children@)) == match r {
            Some(s) => Some(s@),
            None => None,
        },
{
    let ghost views = node_views(children@);
    let mut found = false;
    let mut out = String::new();
    let mut i: usize = 0;
    while i < children.len()
        invariant
            i <= children.len(),
            views == node_views(children@),
            found == any_text(views, i as nat),
            out@ == joined_text(views, i as nat),
        decreases children.len() - i,
    {
        assert(views[i as int] == children@[i as int]@);
        match &children[i] {
            Node::Text(t) => {
                found = true;
                out.append(t.as_str());
            },
            _ => {},
        }
        i += 1;
    }
    if found {
        Some(out)
    } else {
        None
    }
}

} // verus!
