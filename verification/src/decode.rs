//! Decoding a fragment of markup into a tree.
//!
//! A fragment arrives wrapped in one element, so that it reads as one unit.
//! What that element holds becomes the children of a block, the tree of the
//! fragment.

use crate::error::{DecodeError, Reason};
use crate::flatten::{all_flattenable, flat, flattenable};
use crate::thread::{choice_of, choice_result, choices_of, comment_of, comment_scan, Choice,
    Markup};
use crate::tree::{forest_of, lemma_element_view, node_views, parse_range, Node, NodeView};
use crate::xml::{token_views, tokenize, xml_tokens, Token, TokenView};
use vstd::prelude::*;

verus! {

/// What the element that wraps a fragment holds; [`Reason::Root`] where the
/// nodes are not one element.
pub open spec fn wrapped(nodes: Seq<NodeView>) -> Result<Seq<NodeView>, Reason> {
    if nodes.len() == 1 && nodes[0] is Element {
        Ok(nodes[0]->children)
    } else {
        Err(Reason::Root)
    }
}

/// The tree of the fragment with the given tokens, or why there is none:
/// the tokens must spell nodes, the nodes must be one element, and what
/// that element holds must decode.
pub open spec fn decoded(tokens: Seq<TokenView>) -> Result<Markup, Reason> {
    match forest_of(tokens) {
        Err(e) => Err(e),
        Ok(nodes) => match wrapped(nodes) {
            Err(e) => Err(e),
            Ok(children) => match choices_of(children, children.len()) {
                Err(e) => Err(e),
                Ok(c) => Ok(Markup::Container(c)),
            },
        },
    }
}

/// The first `k` nodes decode to `k` nodes, each of which can be flattened.
pub proof fn lemma_choices_flattenable(nodes: Seq<NodeView>, k: nat)
    requires
        k <= nodes.len(),
    ensures
        choices_of(nodes, k) matches Ok(c) ==> c.len() == k && all_flattenable(c, k),
    decreases nodes, 0nat, k,
{
    if k > 0 {
        lemma_choices_flattenable(nodes, (k - 1) as nat);
        if let Ok(done) = choices_of(nodes, (k - 1) as nat) {
            lemma_choice_flattenable(nodes[k - 1]);
            if let Ok(c) = choice_of(nodes[k - 1]) {
                lemma_flattenable_prefix(done, done.push(c), (k - 1) as nat);
            }
        }
    }
}

/// Whether the first `k` nodes can be flattened depends on those nodes
/// alone.
pub proof fn lemma_flattenable_prefix(a: Seq<Markup>, b: Seq<Markup>, k: nat)
    requires
        k <= a.len(),
        k <= b.len(),
        forall|i: int| 0 <= i < k ==> a[i] == b[i],
    ensures
        all_flattenable(a, k) == all_flattenable(b, k),
    decreases k,
{
    if k > 0 {
        lemma_flattenable_prefix(a, b, (k - 1) as nat);
    }
}

/// What a node decodes to can be flattened.
pub proof fn lemma_choice_flattenable(node: NodeView)
    ensures
        choice_of(node) matches Ok(c) ==> flattenable(c),
    decreases node,
{
    if let NodeView::Element { name, attrs, children } = node {
        lemma_choices_flattenable(children, children.len());
    }
}

/// The text of a comment, as far as it has been read, can be flattened.
pub proof fn lemma_scan_flattenable(children: Seq<NodeView>, k: nat)
    requires
        k <= children.len(),
    ensures
        comment_scan(children, k) matches Ok(scan) ==> all_flattenable(
            scan.record.text,
            scan.record.text.len(),
        ),
    decreases k,
{
    if k > 0 {
        lemma_scan_flattenable(children, (k - 1) as nat);
        if let NodeView::Element { name, attrs, children: inner } = children[k - 1] {
            lemma_choices_flattenable(inner, inner.len());
        }
    }
}

/// The text of a comment that a fragment spells can be flattened.
pub proof fn lemma_comment_flattenable(children: Seq<NodeView>)
    ensures
        comment_of(children) matches Ok(c) ==> all_flattenable(c.text, c.text.len()),
{
    lemma_scan_flattenable(children, children.len());
}

/// Decodes the fragment with the given tokens.
pub fn decode_tokens(tokens: &Vec<Token>) -> (r: Result<Choice, DecodeError>)
    ensures
        choice_result(r) == decoded(token_views(tokens@)),
        r matches Ok(tree) ==> flattenable(tree@),
{
    proof {
        assert(token_views(tokens@).subrange(0, tokens.len() as int) =~= token_views(tokens@));
    }
    match parse_range(tokens, 0, tokens.len()) {
        Err(e) => Err(e),
        Ok(nodes) => {
            if nodes.len() != 1 {
                return Err(DecodeError::Malformed(Reason::Root));
            }
            assert(node_views(nodes@)[0] == nodes@[0]@);
            match &nodes[0] {
                Node::Text(_) => Err(DecodeError::Malformed(Reason::Root)),
                Node::Element { name, attrs, children } => {
                    proof {
                        lemma_element_view(*name, *attrs, *children);
                        lemma_choices_flattenable(node_views(children@), children.len() as nat);
                    }
                    match Choice::decode_all(children) {
                        Err(e) => Err(e),
                        Ok(c) => Ok(Choice::Container(c)),
                    }
                },
            }
        },
    }
}

/// Decodes a fragment of markup.
pub fn decode(fragment: &str) -> (r: Result<Choice, DecodeError>)
    ensures
        choice_result(r) == decoded(xml_tokens(fragment@)),
        r matches Ok(tree) ==> flattenable(tree@),
{
    let tokens = tokenize(fragment);
    decode_tokens(&tokens)
}

/// Decoding a fragment and flattening the tree gives the same lines
/// whenever it is done on the same fragment: the lines depend on the
/// fragment's tokens alone.
pub proof fn lemma_same_fragment_same_lines(
    tokens: Seq<TokenView>,
    first: Result<Choice, DecodeError>,
    second: Result<Choice, DecodeError>,
)
    requires
        choice_result(first) == decoded(tokens),
        choice_result(second) == decoded(tokens),
    ensures
        first is Ok == second is Ok,
        first matches Ok(a) ==> second matches Ok(b) ==> flat(a@) == flat(b@),
        first matches Err(a) ==> second matches Err(b) ==> a == b,
{
}

} // verus!
