//! From a comment's markup to the lines that are shown.
//!
//! A tree is walked depth first and gives a run of pieces of text, which
//! the line buffer of [`crate::lines`] turns into display lines.

use crate::lines::{assembled, collapse, display_lines, feed, lemma_collapsed_no_blank_run,
    no_blank_run};
use crate::text::{from_chars, line_views, string_views, to_chars, trim_chars, trimmed};
use crate::thread::{markup_of, quote_shape, Choice, Markup};
use vstd::prelude::*;

verus! {

broadcast use {
    vstd::seq::axiom_seq_index_decreases,
    vstd::std_specs::vec::axiom_vec_decreases_to_view,
    vstd::std_specs::vec::axiom_vec_index_decreases,
};

/// The text of `node` as emphasised text shows it: each text node below it,
/// in order, with one space in front.
pub open spec fn emphasised(node: Markup) -> Seq<char>
    decreases node,
{
    match node {
        Markup::Text(t) => seq![' '] + t,
        Markup::Bold(c) => emphasised_all(c, c.len()),
        Markup::Italic(c) => emphasised_all(c, c.len()),
        Markup::Blockquote(c) => emphasised_all(c, c.len()),
        Markup::Container(c) => emphasised_all(c, c.len()),
        Markup::Span(Some(c)) => emphasised_all(c, c.len()),
        _ => Seq::empty(),
    }
}

/// The emphasised text of the first `k` nodes, joined in order.
pub open spec fn emphasised_all(nodes: Seq<Markup>, k: nat) -> Seq<char>
    decreases nodes, k,
{
    if k == 0 || k > nodes.len() {
        Seq::empty()
    } else {
        emphasised_all(nodes, (k - 1) as nat) + emphasised(nodes[k - 1])
    }
}

/// The quoted text in the first `k` nodes of a quotation's body: its text
/// nodes as they are, its bold and italic nodes as emphasised text, and
/// nothing else.
pub open spec fn quoted_body(nodes: Seq<Markup>, k: nat) -> Seq<char>
    decreases k,
{
    if k == 0 || k > nodes.len() {
        Seq::empty()
    } else {
        quoted_body(nodes, (k - 1) as nat) + match nodes[k - 1] {
            Markup::Text(t) => t,
            Markup::Bold(c) => emphasised_all(c, c.len()),
            Markup::Italic(c) => emphasised_all(c, c.len()),
            _ => Seq::empty(),
        }
    }
}

/// The mark that stands between a quotation and its author.
pub open spec fn credit_mark() -> Seq<char> {
    seq!['\n', '-']
}

/// The text of a quotation whose children have the shape of one: the quoted
/// text, and where an author is given, a line break, a dash and the author.
pub open spec fn quote_text(children: Seq<Markup>) -> Seq<char> {
    let parts = children[0]->Container_0;
    let body = parts[1]->Span_0->Some_0;
    let quoted = quoted_body(body, body.len());
    if parts.len() >= 3 && parts[2]->Span_0->Some_0.len() >= 2 {
        quoted + credit_mark() + parts[2]->Span_0->Some_0[1]->Link_0->Some_0
    } else {
        quoted
    }
}

/// The piece that a text node gives: a lone line break as it is, any other
/// text without the white space at its ends.
pub open spec fn text_piece(t: Seq<char>) -> Seq<char> {
    if t == seq!['\n'] {
        t
    } else {
        trimmed(t)
    }
}

/// The pieces of text that `node` gives, in the order of a walk depth
/// first. Groups and blocks give the pieces of their children and add
/// nothing; a decoration gives none.
pub open spec fn pieces(node: Markup) -> Seq<Seq<char>>
    decreases node,
{
    match node {
        Markup::Text(t) => seq![text_piece(t)],
        Markup::LineBreak => seq![seq!['\n']],
        Markup::Bold(c) => seq![emphasised_all(c, c.len())],
        Markup::Italic(c) => seq![emphasised_all(c, c.len())],
        Markup::Link(Some(t)) => seq![t],
        Markup::Link(None) => Seq::empty(),
        Markup::Blockquote(c) => seq![quote_text(c)],
        Markup::Span(Some(c)) => pieces_all(c, c.len()),
        Markup::Span(None) => Seq::empty(),
        Markup::Container(c) => pieces_all(c, c.len()),
        Markup::Decoration => Seq::empty(),
    }
}

/// The pieces of the first `k` nodes, in order.
pub open spec fn pieces_all(nodes: Seq<Markup>, k: nat) -> Seq<Seq<char>>
    decreases nodes, k,
{
    if k == 0 || k > nodes.len() {
        Seq::empty()
    } else {
        pieces_all(nodes, (k - 1) as nat) + pieces(nodes[k - 1])
    }
}

/// Whether `node` can be flattened: every quotation that the walk reaches
/// has the shape of one.
pub open spec fn flattenable(node: Markup) -> bool
    decreases node,
{
    match node {
        Markup::Blockquote(c) => quote_shape(c),
        Markup::Span(Some(c)) => all_flattenable(c, c.len()),
        Markup::Container(c) => all_flattenable(c, c.len()),
        _ => true,
    }
}

/// Whether the first `k` nodes can be flattened.
pub open spec fn all_flattenable(nodes: Seq<Markup>, k: nat) -> bool
    decreases nodes, k,
{
    k == 0 || k > nodes.len() || (all_flattenable(nodes, (k - 1) as nat) && flattenable(
        nodes[k - 1],
    ))
}

/// The display lines of one tree.
pub open spec fn flat(tree: Markup) -> Seq<Seq<char>> {
    display_lines(pieces(tree))
}

/// The display lines of a run of nodes.
pub open spec fn flat_all(nodes: Seq<Markup>) -> Seq<Seq<char>> {
    display_lines(pieces_all(nodes, nodes.len()))
}

/// No two blank lines follow each other in the display lines of a tree or
/// of a run of nodes, whatever they hold.
pub proof fn lemma_flat_no_blank_run(tree: Markup, nodes: Seq<Markup>)
    ensures
        no_blank_run(flat(tree)),
        no_blank_run(flat_all(nodes)),
{
    lemma_collapsed_no_blank_run(assembled(pieces(tree)));
    lemma_collapsed_no_blank_run(assembled(pieces_all(nodes, nodes.len())));
}

/// Appends the emphasised text of `node` to `out`.
fn push_emphasised(node: &Choice, out: &mut Vec<char>)
    ensures
        final(out)@ == old(out)@ + emphasised(node@),
    decreases node,
{
    let ghost start = out@;
    match node {
        Choice::Text(t) => {
            out.push(' ');
            let mut chars = to_chars(t.as_str());
            out.append(&mut chars);
            assert(out@ =~= start + (seq![' '] + t@));
        },
        Choice::Bold(c) => push_emphasised_all(c, out),
        Choice::Italic(c) => push_emphasised_all(c, out),
        Choice::Blockquote(c) => push_emphasised_all(c, out),
        Choice::Container(c) => push_emphasised_all(c, out),
        Choice::Span(Some(c)) => push_emphasised_all(c, out),
        _ => {
            assert(out@ =~= start + Seq::<char>::empty());
        },
    }
}

/// Appends the emphasised text of `nodes` to `out`.
fn push_emphasised_all(nodes: &Vec<Choice>, out: &mut Vec<char>)
    ensures
        final(out)@ == old(out)@ + emphasised_all(markup_of(nodes@), nodes.len() as nat),
    decreases nodes,
{
    let ghost start = out@;
    let ghost views = markup_of(nodes@);
    let mut i: usize = 0;
    assert(out@ =~= start + Seq::<char>::empty());
    while i < nodes.len()
        invariant
            i <= nodes.len(),
            views == markup_of(nodes@),
            out@ == start + emphasised_all(views, i as nat),
        decreases nodes.len() - i,
    {
        let ghost before = out@;
        assert(views[i as int] == nodes@[i as int]@);
        push_emphasised(&nodes[i], out);
        assert(out@ =~= start + (emphasised_all(views, i as nat) + emphasised(views[i as int])));
        i += 1;
    }
}

/// The text of a quotation with the given children.
fn quote_chars(children: &Vec<Choice>) -> (out: Vec<char>)
    requires
        quote_shape(markup_of(children@)),
    ensures
        out@ == quote_text(markup_of(children@)),
{
    let mut out: Vec<char> = Vec::new();
    assert(markup_of(children@)[0] == children@[0]@);
    if let Choice::Container(parts) = &children[0] {
        assert(children@[0]@ == Markup::Container(markup_of(parts@)));
        assert(markup_of(parts@)[1] == parts@[1]@);
        if let Choice::Span(Some(body)) = &parts[1] {
            assert(parts@[1]@ == Markup::Span(Some(markup_of(body@))));
            let ghost views = markup_of(body@);
            let mut i: usize = 0;
            while i < body.len()
                invariant
                    i <= body.len(),
                    views == markup_of(body@),
                    out@ == quoted_body(views, i as nat),
                decreases body.len() - i,
            {
                let ghost before = out@;
                assert(views[i as int] == body@[i as int]@);
                match &body[i] {
                    Choice::Text(t) => {
                        let mut chars = to_chars(t.as_str());
                        out.append(&mut chars);
                    },
                    Choice::Bold(c) => push_emphasised_all(c, &mut out),
                    Choice::Italic(c) => push_emphasised_all(c, &mut out),
                    _ => {
                        assert(out@ =~= before + Seq::<char>::empty());
                    },
                }
                i += 1;
            }
            if parts.len() >= 3 {
                assert(markup_of(parts@)[2] == parts@[2]@);
                if let Choice::Span(Some(credit)) = &parts[2] {
                    assert(parts@[2]@ == Markup::Span(Some(markup_of(credit@))));
                    if credit.len() >= 2 {
                        assert(markup_of(credit@)[1] == credit@[1]@);
                        if let Choice::Link(Some(author)) = &credit[1] {
                            let ghost quoted = out@;
                            out.push('\n');
                            out.push('-');
                            let mut chars = to_chars(author.as_str());
                            out.append(&mut chars);
                            assert(out@ =~= quoted + credit_mark() + author@);
                        }
                    }
                }
            }
        }
    }
    out
}

/// Appends the pieces of `node` to `out`.
fn push_pieces(node: &Choice, out: &mut Vec<Vec<char>>)
    requires
        flattenable(node@),
    ensures
        line_views(final(out)@) == line_views(old(out)@) + pieces(node@),
    decreases node,
{
    let ghost start = line_views(out@);
    match node {
        Choice::Text(t) => {
            let chars = to_chars(t.as_str());
            let piece = if chars.len() == 1 && chars[0] == '\n' {
                assert(chars@ =~= seq!['\n']);
                chars
            } else {
                assert(chars@ != seq!['\n']) by {
                    if chars@ == seq!['\n'] {
                        assert(chars@.len() == 1 && chars@[0] == '\n');
                    }
                }
                trim_chars(&chars)
            };
            out.push(piece);
            assert(line_views(out@) =~= start + seq![text_piece(t@)]);
        },
        Choice::LineBreak => {
            let mut piece: Vec<char> = Vec::new();
            piece.push('\n');
            assert(piece@ =~= seq!['\n']);
            out.push(piece);
            assert(line_views(out@) =~= start + seq![seq!['\n']]);
        },
        Choice::Bold(c) => {
            let mut piece: Vec<char> = Vec::new();
            push_emphasised_all(c, &mut piece);
            assert(piece@ =~= emphasised_all(markup_of(c@), c.len() as nat));
            out.push(piece);
            assert(line_views(out@) =~= start + seq![piece@]);
        },
        Choice::Italic(c) => {
            let mut piece: Vec<char> = Vec::new();
            push_emphasised_all(c, &mut piece);
            assert(piece@ =~= emphasised_all(markup_of(c@), c.len() as nat));
            out.push(piece);
            assert(line_views(out@) =~= start + seq![piece@]);
        },
        Choice::Link(Some(t)) => {
            let piece = to_chars(t.as_str());
            out.push(piece);
            assert(line_views(out@) =~= start + seq![t@]);
        },
        Choice::Link(None) => {
            assert(line_views(out@) =~= start + Seq::<Seq<char>>::empty());
        },
        Choice::Blockquote(c) => {
            let piece = quote_chars(c);
            out.push(piece);
            assert(line_views(out@) =~= start + seq![piece@]);
        },
        Choice::Span(Some(c)) => push_pieces_all(c, out),
        Choice::Span(None) => {
            assert(line_views(out@) =~= start + Seq::<Seq<char>>::empty());
        },
        Choice::Container(c) => push_pieces_all(c, out),
        Choice::Decoration => {
            assert(line_views(out@) =~= start + Seq::<Seq<char>>::empty());
        },
    }
}

/// Unfolds what it means that the first `n` nodes can be flattened.
pub proof fn lemma_all_flattenable(nodes: Seq<Markup>, n: nat, i: int)
    requires
        all_flattenable(nodes, n),
        0 <= i < n <= nodes.len(),
    ensures
        flattenable(nodes[i]),
    decreases n,
{
    if i < n - 1 {
        lemma_all_flattenable(nodes, (n - 1) as nat, i);
    }
}

/// Appends the pieces of `nodes` to `out`.
fn push_pieces_all(nodes: &Vec<Choice>, out: &mut Vec<Vec<char>>)
    requires
        all_flattenable(markup_of(nodes@), nodes.len() as nat),
    ensures
        line_views(final(out)@) == line_views(old(out)@) + pieces_all(
            markup_of(nodes@),
            nodes.len() as nat,
        ),
    decreases nodes,
{
    let ghost start = line_views(out@);
    let ghost views = markup_of(nodes@);
    let mut i: usize = 0;
    assert(line_views(out@) =~= start + Seq::<Seq<char>>::empty());
    while i < nodes.len()
        invariant
            i <= nodes.len(),
            views == markup_of(nodes@),
            all_flattenable(views, nodes.len() as nat),
            line_views(out@) == start + pieces_all(views, i as nat),
        decreases nodes.len() - i,
    {
        assert(views[i as int] == nodes@[i as int]@);
        proof {
            lemma_all_flattenable(views, nodes.len() as nat, i as int);
        }
        push_pieces(&nodes[i], out);
        assert(line_views(out@) =~= start + (pieces_all(views, i as nat) + pieces(views[i as int])));
        i += 1;
    }
}

/// Whether `node` can be flattened.
pub fn can_flatten(node: &Choice) -> (r: bool)
    ensures
        r == flattenable(node@),
    decreases node,
{
    match node {
        Choice::Blockquote(c) => crate::thread::has_quote_shape(c),
        Choice::Span(Some(c)) => can_flatten_all(c),
        Choice::Container(c) => can_flatten_all(c),
        _ => true,
    }
}

/// Whether every node of `nodes` can be flattened.
pub fn can_flatten_all(nodes: &Vec<Choice>) -> (r: bool)
    ensures
        r == all_flattenable(markup_of(nodes@), nodes.len() as nat),
    decreases nodes,
{
    let ghost views = markup_of(nodes@);
    let mut i: usize = 0;
    while i < nodes.len()
        invariant
            i <= nodes.len(),
            views == markup_of(nodes@),
            all_flattenable(views, i as nat),
        decreases nodes.len() - i,
    {
        assert(views[i as int] == nodes@[i as int]@);
        if !can_flatten(&nodes[i]) {
            proof {
                if all_flattenable(views, nodes.len() as nat) {
                    lemma_all_flattenable(views, nodes.len() as nat, i as int);
                }
            }
            return false;
        }
        i += 1;
    }
    true
}

/// Turns character buffers into strings.
fn to_strings(lines: &Vec<Vec<char>>) -> (out: Vec<String>)
    ensures
        string_views(out@) == line_views(lines@),
{
    let mut out: Vec<String> = Vec::new();
    let mut j: usize = 0;
    assert(line_views(lines@).take(0) =~= string_views(out@));
    while j < lines.len()
        invariant
            j <= lines.len(),
            string_views(out@) == line_views(lines@).take(j as int),
        decreases lines.len() - j,
    {
        let ghost before = string_views(out@);
        let line = from_chars(&lines[j]);
        out.push(line);
        assert(string_views(out@) =~= before.push(lines@[j as int]@));
        assert(line_views(lines@).take(j + 1) =~= line_views(lines@).take(j as int).push(
            lines@[j as int]@,
        ));
        j += 1;
    }
    assert(line_views(lines@).take(lines.len() as int) =~= line_views(lines@));
    out
}

impl Choice {
    /// The pieces of text that the node gives, in the order of a walk depth
    /// first.
    pub fn pieces(&self) -> (out: Vec<String>)
        requires
            flattenable(self@),
        ensures
            string_views(out@) == pieces(self@),
    {
        let mut found: Vec<Vec<char>> = Vec::new();
        push_pieces(self, &mut found);
        assert(line_views(found@) =~= pieces(self@));
        to_strings(&found)
    }
}

/// Turns a run of pieces into display lines.
fn lines_from(pieces: &Vec<Vec<char>>) -> (out: Vec<String>)
    ensures
        string_views(out@) == display_lines(line_views(pieces@)),
{
    let ghost all = line_views(pieces@);
    let mut lines: Vec<Vec<char>> = Vec::new();
    lines.push(Vec::new());
    let mut i: usize = 0;
    proof {
        assert(all.take(0) =~= Seq::<Seq<char>>::empty());
        assert(line_views(lines@) =~= seq![Seq::<char>::empty()]);
    }
    while i < pieces.len()
        invariant
            i <= pieces.len(),
            all == line_views(pieces@),
            lines.len() > 0,
            line_views(lines@) == assembled(all.take(i as int)),
        decreases pieces.len() - i,
    {
        proof {
            assert(all.take(i + 1).drop_last() =~= all.take(i as int));
            assert(all.take(i + 1).last() == pieces@[i as int]@);
        }
        feed(&mut lines, &pieces[i]);
        i += 1;
    }
    proof {
        assert(all.take(pieces.len() as int) =~= all);
    }
    let shown = collapse(lines);
    to_strings(&shown)
}

/// Flattens a tree into its display lines.
pub fn flatten(tree: &Choice) -> (out: Vec<String>)
    requires
        flattenable(tree@),
    ensures
        string_views(out@) == flat(tree@),
        no_blank_run(string_views(out@)),
{
    proof {
        lemma_collapsed_no_blank_run(assembled(pieces(tree@)));
    }
    let mut found: Vec<Vec<char>> = Vec::new();
    push_pieces(tree, &mut found);
    assert(line_views(found@) =~= pieces(tree@));
    lines_from(&found)
}

/// Flattens a run of nodes into its display lines.
pub fn flatten_all(nodes: &Vec<Choice>) -> (out: Vec<String>)
    requires
        all_flattenable(markup_of(nodes@), nodes.len() as nat),
    ensures
        string_views(out@) == flat_all(markup_of(nodes@)),
        no_blank_run(string_views(out@)),
{
    proof {
        lemma_collapsed_no_blank_run(assembled(pieces_all(markup_of(nodes@), nodes.len() as nat)));
    }
    let mut found: Vec<Vec<char>> = Vec::new();
    push_pieces_all(nodes, &mut found);
    assert(line_views(found@) =~= pieces_all(markup_of(nodes@), nodes.len() as nat));
    lines_from(&found)
}

} // verus!
