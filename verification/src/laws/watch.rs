//! What holds of what the watcher shows, and of its keys.

use crate::render::{
    blocks_shown, flushed, fold_of, header_parts, is_collapsed, node_shown, plain, repeated,
    rich_lines, segs_shown, span, with_piece, with_pieces, Fold, Look, SpanV, Style,
};
use crate::state::{DiagV, SegV, TraceV};
use crate::text::{join, split, split_then_join};
use crate::watch::{diags_shown, focus_moved, focused_fold, fold_pos, lemma_around, toggled, AppV};
use vstd::prelude::*;

verus! {

/// Whether no two of the trace nodes have the same id.
pub open spec fn ids_differ(folds: Seq<Fold>) -> bool {
    forall|i: int, k: int|
        0 <= i < k < folds.len() ==> (#[trigger] folds[i]).id != (#[trigger] folds[k]).id
}

pub proof fn lemma_fold_pos(folds: Seq<Fold>, id: u32)
    ensures
        fold_pos(folds, id) <= folds.len(),
        fold_pos(folds, id) < folds.len() ==> folds[fold_pos(folds, id) as int].id == id,
        forall|k: int| 0 <= k < fold_pos(folds, id) ==> (#[trigger] folds[k]).id != id,
    decreases folds.len(),
{
    if folds.len() > 0 && folds[0].id != id {
        let rest = folds.drop_first();
        lemma_fold_pos(rest, id);
        assert forall|k: int| 0 <= k < fold_pos(folds, id) implies (#[trigger] folds[k]).id != id by {
            if k > 0 {
                assert(folds[k] == rest[k - 1]);
            }
        }
    }
}

proof fn lemma_fold_at(folds: Seq<Fold>, i: int)
    requires
        ids_differ(folds),
        0 <= i < folds.len(),
    ensures
        fold_pos(folds, folds[i].id) == i,
{
    lemma_fold_pos(folds, folds[i].id);
    let k = fold_pos(folds, folds[i].id) as int;
    if k < i {
        assert(folds[k].id != folds[i].id);
    }
}

/// Shift-Tab takes back what Tab did, and the other way round, where a trace
/// node that is shown has the focus and no other has its id.
pub proof fn tab_and_shift_tab_undo_each_other(folds: Seq<Fold>, focus: u32, forward: bool)
    requires
        ids_differ(folds),
        fold_pos(folds, focus) < folds.len(),
    ensures
        focus_moved(folds, focus_moved(folds, Some(focus), forward), !forward) == Some(focus),
{
    let n = folds.len() as int;
    let i = fold_pos(folds, focus) as int;
    lemma_fold_pos(folds, focus);
    lemma_around(i, n);
    let next = if forward {
        (i + 1) % n
    } else {
        (i + n - 1) % n
    };
    lemma_fold_at(folds, next);
    lemma_around(next, n);
}

/// Tab goes to the first trace node that is shown, and from each of them to the
/// next.
pub proof fn tab_goes_from_node_to_node(folds: Seq<Fold>, i: int)
    requires
        ids_differ(folds),
        0 <= i < folds.len() - 1,
    ensures
        focus_moved(folds, None, true) == Some(folds[0].id),
        focus_moved(folds, Some(folds[i].id), true) == Some(folds[i + 1].id),
{
    lemma_fold_at(folds, i);
    lemma_around(i, folds.len() as int);
}

/// Whether the folds are as the user chose.
pub open spec fn folds_obey(folds: Seq<Fold>, look: Look) -> bool {
    forall|i: int|
        0 <= i < folds.len() ==> (look.overrides.contains_key((#[trigger] folds[i]).id)
            ==> folds[i].collapsed == look.overrides[folds[i].id])
}

proof fn lemma_segs_obey(segs: Seq<SegV>, indent: usize, look: Look)
    ensures
        folds_obey(segs_shown(segs, indent, look).folds, look),
    decreases segs, 1nat,
{
    if segs.len() > 0 {
        let n = segs.len() - 1;
        assert(decreases_to!(segs => segs.drop_last()));
        assert(decreases_to!(segs => segs[n]));
        lemma_segs_obey(segs.drop_last(), indent, look);
        let before = flushed(segs_shown(segs.drop_last(), indent, look), indent);
        if let SegV::Trace(node) = segs[n] {
            lemma_node_obeys(node, indent, look);
            assert(segs_shown(segs, indent, look).folds == before.folds + node_shown(
                node,
                indent,
                look,
            ).folds);
        } else {
            assert(segs_shown(segs, indent, look).folds == before.folds);
        }
    }
}

proof fn lemma_node_obeys(node: TraceV, indent: usize, look: Look)
    ensures
        folds_obey(node_shown(node, indent, look).folds, look),
    decreases node, 1nat,
{
    assert(decreases_to!(node => node.children));
    lemma_blocks_obey(node.children, indent.wrapping_add(2), look);
}

proof fn lemma_blocks_obey(blocks: Seq<Seq<SegV>>, indent: usize, look: Look)
    ensures
        folds_obey(blocks_shown(blocks, indent, look).folds, look),
    decreases blocks, 1nat,
{
    if blocks.len() > 0 {
        let n = blocks.len() - 1;
        assert(decreases_to!(blocks => blocks.drop_last()));
        assert(decreases_to!(blocks => blocks[n]));
        lemma_blocks_obey(blocks.drop_last(), indent, look);
        lemma_segs_obey(blocks[n], indent, look);
        assert(blocks_shown(blocks, indent, look).folds == blocks_shown(
            blocks.drop_last(),
            indent,
            look,
        ).folds + segs_shown(blocks[n], indent, look).folds);
    }
}

/// Every trace node is shown folded or unfolded as the user chose.
pub proof fn choices_are_shown(diags: Seq<DiagV>, look: Look)
    ensures
        folds_obey(diags_shown(diags, look).folds, look),
    decreases diags.len(),
{
    if diags.len() > 0 {
        choices_are_shown(diags.drop_last(), look);
        lemma_segs_obey(diags.last().message, 2, look);
        assert(diags_shown(diags, look).folds == diags_shown(diags.drop_last(), look).folds
            + segs_shown(diags.last().message, 2, look).folds);
    }
}

/// Of a trace node that is folded, only its header is shown, and none of the
/// trace nodes in it can be reached.
pub proof fn folded_nodes_hide_their_children(node: TraceV, indent: usize, look: Look)
    requires
        is_collapsed(node, look),
    ensures
        node_shown(node, indent, look).lines == rich_lines(indent, header_parts(node, look)),
        node_shown(node, indent, look).folds == seq![fold_of(node, look)],
{
}

/// Enter folds the focused trace node where it is unfolded and unfolds it where
/// it is folded, and leaves all others as they are.
pub proof fn toggling_flips_the_focused_node(a: AppV, node: TraceV)
    requires
        focused_fold(a) is Some,
    ensures
        node.id == a.look.focus->0 ==> is_collapsed(node, toggled(a).look) == !focused_fold(
            a,
        )->0.collapsed,
        node.id != a.look.focus->0 ==> is_collapsed(node, toggled(a).look) == is_collapsed(
            node,
            a.look,
        ),
{
}

/// Enter once more, after the infoview was drawn again, takes back what Enter
/// did.
pub proof fn toggling_twice_restores_the_node(a: AppV, b: AppV, node: TraceV)
    requires
        focused_fold(a) is Some,
        b.look == toggled(a).look,
        b.folds == diags_shown(b.state.diagnostics, b.look).folds,
        focused_fold(b) is Some,
        node.id == a.look.focus->0,
    ensures
        is_collapsed(node, toggled(b).look) == focused_fold(a)->0.collapsed,
{
    let id = a.look.focus->0;
    choices_are_shown(b.state.diagnostics, b.look);
    lemma_fold_pos(b.folds, id);
    assert(b.look.overrides.contains_key(id));
}

/// The text of the spans, one after the other.
pub open spec fn line_text(spans: Seq<SpanV>) -> Seq<char>
    decreases spans.len(),
{
    if spans.len() == 0 {
        Seq::empty()
    } else {
        line_text(spans.drop_last()) + spans.last().text
    }
}

/// The texts of the lines without what stands before each of them.
pub open spec fn inner_texts(lines: Seq<Seq<SpanV>>) -> Seq<Seq<char>> {
    lines.map_values(|l: Seq<SpanV>| line_text(l.drop_first()))
}

pub open spec fn all_padded(lines: Seq<Seq<SpanV>>, pad: SpanV) -> bool {
    forall|i: int| 0 <= i < lines.len() ==> (#[trigger] lines[i]).len() > 0 && lines[i][0] == pad
}

proof fn lemma_with_piece(line: Seq<SpanV>, piece: Seq<char>, style: Style)
    requires
        line.len() > 0,
    ensures
        with_piece(line, piece, style).len() > 0,
        with_piece(line, piece, style)[0] == line[0],
        line_text(with_piece(line, piece, style).drop_first()) == line_text(line.drop_first())
            + piece,
{
    let after = with_piece(line, piece, style);
    if piece.len() == 0 {
        assert(line_text(line.drop_first()) + piece =~= line_text(line.drop_first()));
    } else {
        assert(after.drop_first().drop_last() =~= line.drop_first());
        assert(after.drop_first().last() == span(piece, style));
    }
}

proof fn lemma_join_push(pieces: Seq<Seq<char>>, x: Seq<char>, sep: Seq<char>)
    requires
        pieces.len() > 0,
    ensures
        join(pieces.push(x), sep) == join(pieces, sep) + sep + x,
{
    assert(pieces.push(x).drop_last() =~= pieces);
}

proof fn lemma_join_last(pieces: Seq<Seq<char>>, x: Seq<char>, sep: Seq<char>)
    requires
        pieces.len() > 0,
    ensures
        join(pieces.drop_last().push(pieces.last() + x), sep) == join(pieces, sep) + x,
{
    let after = pieces.drop_last().push(pieces.last() + x);
    assert(after.drop_last() =~= pieces.drop_last());
    if pieces.len() > 1 {
        assert(join(after, sep) =~= join(pieces, sep) + x);
    }
}

proof fn lemma_with_pieces(
    lines: Seq<Seq<SpanV>>,
    pad: SpanV,
    pieces: Seq<Seq<char>>,
    style: Style,
)
    requires
        lines.len() > 0,
        all_padded(lines, pad),
        pieces.len() > 0,
    ensures
        ({
            let after = with_pieces(lines, pad, pieces, style);
            &&& after.len() == lines.len() + pieces.len() - 1
            &&& all_padded(after, pad)
            &&& join(inner_texts(after), seq!['\n']) == join(inner_texts(lines), seq!['\n']) + join(
                pieces,
                seq!['\n'],
            )
        }),
    decreases pieces.len(),
{
    let nl = seq!['\n'];
    let after = with_pieces(lines, pad, pieces, style);
    if pieces.len() == 1 {
        lemma_with_piece(lines.last(), pieces[0], style);
        assert(lines[lines.len() - 1][0] == pad);
        assert(inner_texts(after) =~= inner_texts(lines).drop_last().push(
            inner_texts(lines).last() + pieces[0],
        ));
        lemma_join_last(inner_texts(lines), pieces[0], nl);
    } else {
        let before = with_pieces(lines, pad, pieces.drop_last(), style);
        let line = with_piece(seq![pad], pieces.last(), style);
        lemma_with_pieces(lines, pad, pieces.drop_last(), style);
        lemma_with_piece(seq![pad], pieces.last(), style);
        assert(seq![pad].drop_first() =~= Seq::empty());
        assert(line_text(line.drop_first()) =~= pieces.last());
        assert(inner_texts(after) =~= inner_texts(before).push(pieces.last()));
        lemma_join_push(inner_texts(before), pieces.last(), nl);
        assert(join(pieces, nl) == join(pieces.drop_last(), nl) + nl + pieces.last());
        assert(join(inner_texts(after), nl) =~= join(inner_texts(lines), nl) + join(pieces, nl));
    }
}

/// A rich text is shown in full: every line begins with the indent, and the
/// lines put together again are the texts of the parts, one after the other.
pub proof fn rich_text_is_shown_in_full(indent: usize, parts: Seq<SpanV>)
    ensures
        rich_lines(indent, parts).len() > 0,
        all_padded(rich_lines(indent, parts), span(repeated(' ', indent as nat), plain())),
        join(inner_texts(rich_lines(indent, parts)), seq!['\n']) == line_text(parts),
    decreases parts.len(),
{
    let pad = span(repeated(' ', indent as nat), plain());
    let lines = rich_lines(indent, parts);
    if parts.len() == 0 {
        assert(seq![pad].drop_first() =~= Seq::empty());
        assert(inner_texts(lines)[0] =~= Seq::<char>::empty());
        assert(join(inner_texts(lines), seq!['\n']) =~= Seq::<char>::empty());
    } else {
        let text = parts.last().text;
        rich_text_is_shown_in_full(indent, parts.drop_last());
        split_then_join(text, '\n');
        lemma_with_pieces(
            rich_lines(indent, parts.drop_last()),
            pad,
            split(text, '\n'),
            parts.last().style,
        );
    }
}

} // verus!
