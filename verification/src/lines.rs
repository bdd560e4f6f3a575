//! From pieces of text to display lines.
//!
//! A display line is a run of characters without a line break. The lines of
//! a text grow in a buffer that starts as one empty line; the last line of
//! the buffer is the current one.

use crate::text::{has_newline, line_views, split_lines, split_on_newlines};
use vstd::prelude::*;

verus! {

/// The text that stands for a line break.
pub open spec fn line_break() -> Seq<char> {
    seq!['\n']
}

/// Segments as lines of their own, with one blank line between neighbours.
pub open spec fn spread(segments: Seq<Seq<char>>) -> Seq<Seq<char>>
    decreases segments.len(),
{
    if segments.len() == 0 {
        Seq::empty()
    } else if segments.len() == 1 {
        segments
    } else {
        spread(segments.drop_last()).push(Seq::empty()).push(segments.last())
    }
}

/// The buffer after one more piece of text.
///
/// An empty piece changes nothing. A lone line break starts a new line. A
/// piece with line breaks inside is split at them, and its segments follow
/// the buffer as lines of their own, a blank line between each two. Any
/// other piece is appended to the current line.
pub open spec fn fed(lines: Seq<Seq<char>>, piece: Seq<char>) -> Seq<Seq<char>> {
    if piece.len() == 0 {
        lines
    } else if piece == line_break() {
        lines.push(Seq::empty())
    } else if piece.contains('\n') {
        lines + spread(split_lines(piece))
    } else {
        lines.drop_last().push(lines.last() + piece)
    }
}

/// The buffer after all `pieces`, fed in order into one empty line.
pub open spec fn assembled(pieces: Seq<Seq<char>>) -> Seq<Seq<char>>
    decreases pieces.len(),
{
    if pieces.len() == 0 {
        seq![Seq::empty()]
    } else {
        fed(assembled(pieces.drop_last()), pieces.last())
    }
}

/// `lines` with every run of blank lines cut down to its first line.
pub open spec fn collapsed(lines: Seq<Seq<char>>) -> Seq<Seq<char>>
    decreases lines.len(),
{
    if lines.len() == 0 {
        Seq::empty()
    } else {
        let init = collapsed(lines.drop_last());
        if lines.last().len() == 0 && init.len() > 0 && init.last().len() == 0 {
            init
        } else {
            init.push(lines.last())
        }
    }
}

/// The display lines of a run of pieces.
pub open spec fn display_lines(pieces: Seq<Seq<char>>) -> Seq<Seq<char>> {
    collapsed(assembled(pieces))
}

/// Whether no two neighbours in `lines` are both blank.
pub open spec fn no_blank_run(lines: Seq<Seq<char>>) -> bool {
    forall|i: int| 0 <= i && i + 1 < lines.len() ==> !(#[trigger] lines[i].len() == 0 && lines[i + 1].len() == 0)
}

/// Collapsing leaves no two blank lines next to each other, whatever the
/// lines were.
pub proof fn lemma_collapsed_no_blank_run(lines: Seq<Seq<char>>)
    ensures
        no_blank_run(collapsed(lines)),
        lines.len() > 0 ==> collapsed(lines).len() > 0 && collapsed(lines).last() == lines.last(),
    decreases lines.len(),
{
    if lines.len() > 0 {
        lemma_collapsed_no_blank_run(lines.drop_last());
    }
}

/// Appends the segments to the buffer, a blank line between each two.
fn push_spread(lines: &mut Vec<Vec<char>>, segments: Vec<Vec<char>>)
    ensures
        line_views(final(lines)@) == line_views(old(lines)@) + spread(line_views(segments@)),
{
    let ghost start = line_views(lines@);
    let ghost segs = line_views(segments@);
    let mut i: usize = 0;
    proof {
        assert(segs.take(0) =~= Seq::<Seq<char>>::empty());
        assert(start + spread(segs.take(0)) =~= start);
    }
    while i < segments.len()
        invariant
            i <= segments.len(),
            segs == line_views(segments@),
            line_views(lines@) == start + spread(segs.take(i as int)),
        decreases segments.len() - i,
    {
        let ghost before = line_views(lines@);
        proof {
            assert(segs.take(i + 1).drop_last() =~= segs.take(i as int));
            assert(segs.take(i + 1).last() == segments@[i as int]@);
        }
        if i > 0 {
            lines.push(Vec::new());
        }
        lines.push(segments[i].clone());
        proof {
            let blank = Seq::<char>::empty();
            let seg = segments@[i as int]@;
            if i > 0 {
                assert(line_views(lines@) =~= before.push(blank).push(seg));
                assert(start + spread(segs.take(i as int)).push(blank).push(seg) =~= before.push(
                    blank,
                ).push(seg));
            } else {
                assert(line_views(lines@) =~= before.push(seg));
                assert(segs.take(1) =~= seq![seg]);
                assert(start + seq![seg] =~= before.push(seg));
            }
        }
        i += 1;
    }
    proof {
        assert(segs.take(segments.len() as int) =~= segs);
    }
}

/// Feeds one more piece of text into the buffer.
pub fn feed(lines: &mut Vec<Vec<char>>, piece: &Vec<char>)
    requires
        old(lines).len() > 0,
    ensures
        line_views(final(lines)@) == fed(line_views(old(lines)@), piece@),
        final(lines).len() > 0,
{
    let ghost start = line_views(lines@);
    if piece.len() == 0 {
    } else if piece.len() == 1 && piece[0] == '\n' {
        proof {
            assert(piece@ =~= line_break());
        }
        lines.push(Vec::new());
        proof {
            assert(line_views(lines@) =~= start.push(Seq::empty()));
        }
    } else if has_newline(piece) {
        proof {
            assert(piece@ != line_break()) by {
                if piece@ == line_break() {
                    assert(piece@.len() == 1);
                    assert(piece@[0] == line_break()[0]);
                }
            }
        }
        let segments = split_on_newlines(piece);
        push_spread(lines, segments);
    } else {
        proof {
            assert(piece@ != line_break()) by {
                if piece@ == line_break() {
                    assert(piece@[0] == '\n');
                }
            }
        }
        let mut current = lines.pop().unwrap();
        let ghost rest = line_views(lines@);
        let ghost line = current@;
        let mut i: usize = 0;
        while i < piece.len()
            invariant
                i <= piece.len(),
                current@ == line + piece@.take(i as int),
            decreases piece.len() - i,
        {
            current.push(piece[i]);
            proof {
                assert(line + piece@.take(i + 1) =~= (line + piece@.take(i as int)).push(
                    piece@[i as int],
                ));
            }
            i += 1;
        }
        lines.push(current);
        proof {
            assert(piece@.take(piece.len() as int) =~= piece@);
            assert(rest =~= start.drop_last());
            assert(line_views(lines@) =~= rest.push(line + piece@));
        }
    }
}

/// Cuts every run of blank lines down to one line.
pub fn collapse(lines: Vec<Vec<char>>) -> (out: Vec<Vec<char>>)
    ensures
        line_views(out@) == collapsed(line_views(lines@)),
{
    let ghost all = line_views(lines@);
    let mut out: Vec<Vec<char>> = Vec::new();
    let mut i: usize = 0;
    proof {
        assert(all.take(0) =~= Seq::<Seq<char>>::empty());
        assert(line_views(out@) =~= Seq::<Seq<char>>::empty());
    }
    while i < lines.len()
        invariant
            i <= lines.len(),
            all == line_views(lines@),
            line_views(out@) == collapsed(all.take(i as int)),
        decreases lines.len() - i,
    {
        let ghost before = line_views(out@);
        proof {
            assert(all.take(i + 1).drop_last() =~= all.take(i as int));
            assert(all.take(i + 1).last() == lines@[i as int]@);
        }
        let blank = lines[i].len() == 0;
        let after_blank = out.len() > 0 && out[out.len() - 1].len() == 0;
        proof {
            if out.len() > 0 {
                assert(before.last() == out@[out.len() - 1]@);
            }
        }
        if !(blank && after_blank) {
            out.push(lines[i].clone());
            proof {
                assert(line_views(out@) =~= before.push(lines@[i as int]@));
            }
        }
        i += 1;
    }
    proof {
        assert(all.take(lines.len() as int) =~= all);
    }
    out
}

} // verus!
