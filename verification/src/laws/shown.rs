//! What is shown of messages, goals and trace nodes.

use crate::laws::text::{each_separator_begins_a_piece, one_piece_without_separator};
use crate::laws::watch::rich_text_is_shown_in_full;
use crate::render::{
    blocks_shown, changed_style, colored, counted, diag_header, diff_styled, flushed, fold_of,
    goal_lines, header_parts, hyp_parts, hyp_style, hyps_lines, is_collapsed, node_shown, plain,
    repeated, rich_lines, rich_parts_of, segs_shown, severity_label, span, with_piece, with_pieces,
    Color, Fold, Look, Shown, SpanV, Style,
};
use crate::state::{DiagV, GoalV, HypV, SegV, TextSpanV, TraceV};
use crate::text::{decimal, join, split, split_then_join};
use vstd::prelude::*;

verus! {

/// All that is shown of a message on its own.
pub open spec fn message_shown(segs: Seq<SegV>, indent: usize, look: Look) -> Shown {
    flushed(segs_shown(segs, indent, look), indent)
}

/// The lines of a message on its own.
pub open spec fn lines_of(segs: Seq<SegV>, indent: usize, look: Look) -> Seq<Seq<SpanV>> {
    message_shown(segs, indent, look).lines
}

/// The trace nodes in a message that can be focused.
pub open spec fn folds_of(segs: Seq<SegV>, indent: usize, look: Look) -> Seq<Fold> {
    message_shown(segs, indent, look).folds
}

/// Of messages below each other, the lines and the trace nodes of each stand one
/// after the other.
pub proof fn messages_stand_below_each_other(blocks: Seq<Seq<SegV>>, indent: usize, look: Look)
    ensures
        blocks_shown(blocks, indent, look).lines == blocks.map_values(
            |b: Seq<SegV>| lines_of(b, indent, look),
        ).flatten(),
        blocks_shown(blocks, indent, look).folds == blocks.map_values(
            |b: Seq<SegV>| folds_of(b, indent, look),
        ).flatten(),
    decreases blocks.len(),
{
    let f = |b: Seq<SegV>| lines_of(b, indent, look);
    let g = |b: Seq<SegV>| folds_of(b, indent, look);
    if blocks.len() > 0 {
        let rest = blocks.drop_last();
        let last = blocks.last();
        messages_stand_below_each_other(rest, indent, look);
        assert(blocks.map_values(f) =~= rest.map_values(f).push(lines_of(last, indent, look)));
        assert(blocks.map_values(g) =~= rest.map_values(g).push(folds_of(last, indent, look)));
        rest.map_values(f).lemma_flatten_push(lines_of(last, indent, look));
        rest.map_values(g).lemma_flatten_push(folds_of(last, indent, look));
    } else {
        assert(blocks.map_values(f) =~= Seq::empty());
        assert(blocks.map_values(g) =~= Seq::empty());
    }
}

/// What is said below a trace node whose children are not there yet.
pub open spec fn loading_lines(node: TraceV, indent: usize) -> Seq<Seq<SpanV>> {
    if node.truncated {
        rich_lines(indent, seq![span("… (loading)"@, colored(Color::DarkGray))])
    } else {
        Seq::empty()
    }
}

/// Of a trace node that is not folded, its header is shown, then each of its
/// children in order, as on its own but two columns further in, then that there
/// is more to load where that is so. The nodes that can be focused are the node
/// itself and then those of each child in order.
pub proof fn unfolded_nodes_show_all_children(node: TraceV, indent: usize, look: Look)
    requires
        !is_collapsed(node, look),
        indent + 2 <= usize::MAX,
    ensures
        ({
            let inner = (indent + 2) as usize;
            let shown = node_shown(node, indent, look);
            &&& shown.lines == rich_lines(indent, header_parts(node, look))
                + node.children.map_values(|c: Seq<SegV>| lines_of(c, inner, look)).flatten()
                + loading_lines(node, inner)
            &&& shown.folds == seq![fold_of(node, look)] + node.children.map_values(
                |c: Seq<SegV>| folds_of(c, inner, look),
            ).flatten()
        }),
{
    messages_stand_below_each_other(node.children, (indent + 2) as usize, look);
}

/// The numbers put together.
pub open spec fn total(counts: Seq<nat>) -> nat {
    counts.fold_left(0nat, |a: nat, n: nat| a + n)
}

proof fn lemma_flatten_len<A>(lists: Seq<Seq<A>>)
    ensures
        lists.flatten().len() == total(lists.map_values(|l: Seq<A>| l.len())),
    decreases lists.len(),
{
    let f = |l: Seq<A>| l.len();
    let counts = lists.map_values(f);
    if lists.len() > 0 {
        let rest = lists.drop_last();
        lemma_flatten_len(rest);
        rest.lemma_flatten_push(lists.last());
        assert(rest.push(lists.last()) =~= lists);
        assert(counts.drop_last() =~= rest.map_values(f));
        assert(counts.last() == lists.last().len());
    }
}

proof fn lemma_flatten_holds<A>(lists: Seq<Seq<A>>, i: int, k: int)
    requires
        0 <= i < lists.len(),
        0 <= k < lists[i].len(),
    ensures
        lists.flatten().contains(lists[i][k]),
    decreases lists.len(),
{
    let x = lists[i][k];
    let rest = lists.drop_first();
    let all = lists.flatten();
    assert(all == lists[0] + rest.flatten());
    if i == 0 {
        assert(all[k] == x);
    } else {
        lemma_flatten_holds(rest, i - 1, k);
        let j = rest.flatten().index_of(x);
        assert(all[lists[0].len() + j] == x);
    }
}

/// A trace node that is not folded takes as many lines as its header and all its
/// children together, and one more block where there is more to load. Every line
/// of every child is among them, and every node of a child can be focused.
pub proof fn no_child_is_left_out(node: TraceV, indent: usize, look: Look, i: int, k: int)
    requires
        !is_collapsed(node, look),
        indent + 2 <= usize::MAX,
    ensures
        ({
            let inner = (indent + 2) as usize;
            let shown = node_shown(node, indent, look);
            &&& shown.lines.len() == rich_lines(indent, header_parts(node, look)).len() + total(
                node.children.map_values(|c: Seq<SegV>| lines_of(c, inner, look).len()),
            ) + loading_lines(node, inner).len()
            &&& shown.folds.len() == 1 + total(
                node.children.map_values(|c: Seq<SegV>| folds_of(c, inner, look).len()),
            )
            &&& 0 <= i < node.children.len() && 0 <= k < lines_of(
                node.children[i],
                inner,
                look,
            ).len() ==> shown.lines.contains(lines_of(node.children[i], inner, look)[k])
            &&& 0 <= i < node.children.len() && 0 <= k < folds_of(
                node.children[i],
                inner,
                look,
            ).len() ==> shown.folds.contains(folds_of(node.children[i], inner, look)[k])
        }),
{
    let inner = (indent + 2) as usize;
    let shown = node_shown(node, indent, look);
    let header = rich_lines(indent, header_parts(node, look));
    let lines = node.children.map_values(|c: Seq<SegV>| lines_of(c, inner, look));
    let folds = node.children.map_values(|c: Seq<SegV>| folds_of(c, inner, look));
    unfolded_nodes_show_all_children(node, indent, look);
    lemma_flatten_len(lines);
    lemma_flatten_len(folds);
    assert(lines.map_values(|l: Seq<Seq<SpanV>>| l.len()) =~= node.children.map_values(
        |c: Seq<SegV>| lines_of(c, inner, look).len(),
    ));
    assert(folds.map_values(|l: Seq<Fold>| l.len()) =~= node.children.map_values(
        |c: Seq<SegV>| folds_of(c, inner, look).len(),
    ));
    if 0 <= i < node.children.len() && 0 <= k < lines[i].len() {
        lemma_flatten_holds(lines, i, k);
        let j = lines.flatten().index_of(lines[i][k]);
        assert(shown.lines[header.len() + j] == lines[i][k]);
    }
    if 0 <= i < node.children.len() && 0 <= k < folds[i].len() {
        lemma_flatten_holds(folds, i, k);
        let j = folds.flatten().index_of(folds[i][k]);
        assert(shown.folds[1 + j] == folds[i][k]);
    }
}

/// A trace node is folded as the user chose, and where they chose nothing as the
/// server suggests; that, its id and whether its children have to be fetched is
/// what is remembered of it.
pub proof fn folding_follows_the_user(node: TraceV, look: Look, folded: bool)
    ensures
        look.overrides.contains_key(node.id) && look.overrides[node.id] == folded ==> is_collapsed(
            node,
            look,
        ) == folded,
        !look.overrides.contains_key(node.id) ==> is_collapsed(node, look) == node.collapsed,
        fold_of(node, look).id == node.id,
        fold_of(node, look).collapsed == is_collapsed(node, look),
        fold_of(node, look).needs_fetch == node.truncated,
{
}

/// The header of a trace node: a marker that says whether it is folded, its class
/// in brackets, and the texts of its message in order, with a dot leader for what
/// is no text. Where it has the focus, marker and class stand out.
pub proof fn headers_say_what_the_node_is(node: TraceV, look: Look, i: int)
    ensures
        ({
            let parts = header_parts(node, look);
            let focused = look.focus == Some(node.id);
            &&& parts.len() == 2 + node.header.len()
            &&& is_collapsed(node, look) ==> parts[0].text == "▶"@ + " "@
            &&& !is_collapsed(node, look) ==> parts[0].text == "▼"@ + " "@
            &&& parts[1].text == "["@ + node.cls + "] "@
            &&& parts[0].style == (Style { reversed: focused, ..colored(Color::Cyan) })
            &&& focused ==> parts[1].style == (Style { reversed: true, ..colored(Color::Cyan) })
            &&& !focused ==> parts[1].style == colored(Color::DarkGray)
            &&& 0 <= i < node.header.len() ==> {
                &&& node.header[i] matches SegV::Text(s) ==> parts[2 + i].text == s.text && parts[2
                    + i].style == diff_styled(s.diff, plain())
                &&& node.header[i] !is Text ==> parts[2 + i].text == "…"@ && parts[2 + i].style
                    == plain()
            }
        }),
{
}

/// What an item that is no text shows on its own.
pub open spec fn item_shown(seg: SegV, indent: usize, look: Look) -> Shown {
    match seg {
        SegV::Trace(node) => node_shown(node, indent, look),
        SegV::Goal(goal) => Shown {
            lines: goal_lines(indent, goal),
            folds: Seq::empty(),
            parts: Seq::empty(),
        },
        SegV::Text(_) => Shown { lines: Seq::empty(), folds: Seq::empty(), parts: Seq::empty() },
    }
}

proof fn lemma_after_item(a: Seq<SegV>, seg: SegV, b: Seq<SegV>, indent: usize, look: Look)
    requires
        seg !is Text,
    ensures
        ({
            let all = segs_shown(a + seq![seg] + b, indent, look);
            let after = segs_shown(b, indent, look);
            let item = item_shown(seg, indent, look);
            &&& all.lines == lines_of(a, indent, look) + item.lines + after.lines
            &&& all.folds == folds_of(a, indent, look) + item.folds + after.folds
            &&& all.parts == after.parts
        }),
    decreases b.len(),
{
    let whole = a + seq![seg] + b;
    let first = a + seq![seg];
    if b.len() == 0 {
        assert(whole =~= first);
        assert(first.drop_last() =~= a);
        assert(first.last() == seg);
        assert(segs_shown(first, indent, look).folds =~= folds_of(a, indent, look) + item_shown(
            seg,
            indent,
            look,
        ).folds);
        assert(segs_shown(b, indent, look).lines =~= Seq::empty());
    } else {
        assert(whole.drop_last() =~= first + b.drop_last());
        assert(whole.last() == b.last());
        lemma_after_item(a, seg, b.drop_last(), indent, look);
        let item = item_shown(seg, indent, look);
        let before = segs_shown(b.drop_last(), indent, look);
        assert(segs_shown(whole, indent, look).lines =~= lines_of(a, indent, look) + item.lines
            + segs_shown(b, indent, look).lines);
        assert(segs_shown(whole, indent, look).folds =~= folds_of(a, indent, look) + item.folds
            + segs_shown(b, indent, look).folds);
    }
}

/// A goal or a trace node in a message stands between what comes before it and
/// what comes after it, each of them as on its own.
pub proof fn goals_and_traces_stand_on_their_own(
    a: Seq<SegV>,
    seg: SegV,
    b: Seq<SegV>,
    indent: usize,
    look: Look,
)
    requires
        seg !is Text,
    ensures
        ({
            let all = a + seq![seg] + b;
            &&& seg matches SegV::Goal(goal) ==> lines_of(all, indent, look) == lines_of(
                a,
                indent,
                look,
            ) + goal_lines(indent, goal) + lines_of(b, indent, look)
            &&& seg matches SegV::Goal(goal) ==> folds_of(all, indent, look) == folds_of(
                a,
                indent,
                look,
            ) + folds_of(b, indent, look)
            &&& seg matches SegV::Trace(node) ==> lines_of(all, indent, look) == lines_of(
                a,
                indent,
                look,
            ) + node_shown(node, indent, look).lines + lines_of(b, indent, look)
            &&& seg matches SegV::Trace(node) ==> folds_of(all, indent, look) == folds_of(
                a,
                indent,
                look,
            ) + node_shown(node, indent, look).folds + folds_of(b, indent, look)
        }),
{
    lemma_after_item(a, seg, b, indent, look);
    let all = a + seq![seg] + b;
    let item = item_shown(seg, indent, look);
    assert(lines_of(all, indent, look) =~= lines_of(a, indent, look) + item.lines + lines_of(
        b,
        indent,
        look,
    ));
    assert(folds_of(all, indent, look) =~= folds_of(a, indent, look) + item.folds + folds_of(
        b,
        indent,
        look,
    ));
    assert(folds_of(a, indent, look) + Seq::<Fold>::empty() =~= folds_of(a, indent, look));
}

/// Texts that follow each other are shown as one, each with the look of its diff
/// tag; a message without anything shows nothing.
pub proof fn texts_are_shown_as_one(texts: Seq<TextSpanV>, indent: usize, look: Look)
    ensures
        ({
            let segs = texts.map_values(|t: TextSpanV| SegV::Text(t));
            &&& texts.len() == 0 ==> lines_of(segs, indent, look).len() == 0
            &&& texts.len() > 0 ==> lines_of(segs, indent, look) == rich_lines(
                indent,
                texts.map_values(
                    |t: TextSpanV| (SpanV { text: t.text, style: diff_styled(t.diff, plain()) }),
                ),
            )
            &&& folds_of(segs, indent, look).len() == 0
        }),
{
    lemma_texts_wait(texts, indent, look);
}

proof fn lemma_texts_wait(texts: Seq<TextSpanV>, indent: usize, look: Look)
    ensures
        ({
            let s = segs_shown(texts.map_values(|t: TextSpanV| SegV::Text(t)), indent, look);
            &&& s.lines.len() == 0
            &&& s.folds.len() == 0
            &&& s.parts == texts.map_values(
                |t: TextSpanV| (SpanV { text: t.text, style: diff_styled(t.diff, plain()) }),
            )
        }),
    decreases texts.len(),
{
    let f = |t: TextSpanV| SegV::Text(t);
    let g = |t: TextSpanV| (SpanV { text: t.text, style: diff_styled(t.diff, plain()) });
    if texts.len() > 0 {
        let rest = texts.drop_last();
        lemma_texts_wait(rest, indent, look);
        assert(texts.map_values(f).drop_last() =~= rest.map_values(f));
        assert(texts.map_values(f).last() == SegV::Text(texts.last()));
        assert(texts.map_values(g) =~= rest.map_values(g).push(g(texts.last())));
    } else {
        assert(texts.map_values(g) =~= Seq::empty());
    }
}

/// A span holds its text in its style; a repeated character is that character so
/// many times.
pub proof fn spans_hold_text_and_style(text: Seq<char>, style: Style, c: char, n: nat, i: int)
    ensures
        span(text, style).text == text,
        span(text, style).style == style,
        repeated(c, n).len() == n,
        0 <= i < n ==> repeated(c, n)[i] == c,
{
}

/// The span of spaces that begins a line.
pub open spec fn is_pad(s: SpanV, indent: usize) -> bool {
    &&& s.style == plain()
    &&& s.text.len() == indent
    &&& forall|i: int| 0 <= i < s.text.len() ==> #[trigger] s.text[i] == ' '
}

/// A rich text without parts is one line with the indent alone.
pub proof fn no_parts_are_one_line(indent: usize)
    ensures
        rich_lines(indent, Seq::empty()).len() == 1,
        rich_lines(indent, Seq::empty())[0].len() == 1,
        is_pad(rich_lines(indent, Seq::empty())[0][0], indent),
{
}

/// A further part without a newline goes on the last line, in its own style; one
/// without any text changes nothing.
pub proof fn parts_go_on_the_last_line(
    indent: usize,
    parts: Seq<SpanV>,
    text: Seq<char>,
    style: Style,
)
    requires
        !text.contains('\n'),
    ensures
        ({
            let before = rich_lines(indent, parts);
            let after = rich_lines(indent, parts.push(SpanV { text, style }));
            &&& text.len() == 0 ==> after == before
            &&& text.len() > 0 ==> after == before.drop_last().push(
                before.last().push(SpanV { text, style }),
            )
        }),
{
    one_piece_without_separator(text, '\n');
    let part = SpanV { text, style };
    assert(parts.push(part).drop_last() =~= parts);
    rich_text_is_shown_in_full(indent, parts);
    let before = rich_lines(indent, parts);
    assert(before.drop_last().push(before.last()) =~= before);
}

/// What follows a newline in a part begins a line of its own, after the indent
/// and in the style of the part.
pub proof fn newlines_begin_a_line(
    indent: usize,
    parts: Seq<SpanV>,
    a: Seq<char>,
    b: Seq<char>,
    style: Style,
)
    requires
        !b.contains('\n'),
    ensures
        ({
            let before = rich_lines(indent, parts.push(SpanV { text: a, style }));
            let after = rich_lines(indent, parts.push(SpanV { text: a + seq!['\n'] + b, style }));
            &&& after.len() == before.len() + 1
            &&& after.drop_last() == before
            &&& after.last().len() == (if b.len() == 0 {
                1nat
            } else {
                2nat
            })
            &&& is_pad(after.last()[0], indent)
            &&& b.len() > 0 ==> after.last()[1] == (SpanV { text: b, style })
        }),
{
    let nl = seq!['\n'];
    let pad = span(repeated(' ', indent as nat), plain());
    let one = SpanV { text: a, style };
    let two = SpanV { text: a + nl + b, style };
    assert(parts.push(one).drop_last() =~= parts);
    assert(parts.push(two).drop_last() =~= parts);
    split_then_join(a, '\n');
    each_separator_begins_a_piece(a, b, '\n');
    let x = split(a, '\n');
    assert(x.push(b).drop_last() =~= x);
    let lines = rich_lines(indent, parts);
    let before = with_pieces(lines, pad, x, style);
    assert(rich_lines(indent, parts.push(one)) == before);
    assert(rich_lines(indent, parts.push(two)) == with_pieces(lines, pad, x.push(b), style));
    assert(with_pieces(lines, pad, x.push(b), style) == before.push(
        with_piece(seq![pad], b, style),
    ));
    assert(before.push(with_piece(seq![pad], b, style)).drop_last() =~= before);
}

/// The colours of diff tags: what changes is yellow, what is inserted green, what
/// is deleted red and struck through. Any other tag, and none, leaves the look as
/// it is; nothing else about the look changes.
pub proof fn diff_tags_have_their_colours(tag: Seq<char>, base: Style)
    ensures
        tag == "wasChanged"@ || tag == "willChange"@ ==> diff_styled(Some(tag), base) == (Style {
            fg: Some(Color::Yellow),
            ..base
        }),
        tag == "wasInserted"@ || tag == "willInsert"@ || tag == "willInserted"@ ==> diff_styled(
            Some(tag),
            base,
        ) == (Style { fg: Some(Color::Green), ..base }),
        tag == "wasDeleted"@ || tag == "willDelete"@ || tag == "willDeleted"@ ==> diff_styled(
            Some(tag),
            base,
        ) == (Style { fg: Some(Color::Red), crossed_out: true, ..base }),
        tag != "wasChanged"@ && tag != "willChange"@ && tag != "wasInserted"@ && tag
            != "willInsert"@ && tag != "willInserted"@ && tag != "wasDeleted"@ && tag
            != "willDelete"@ && tag != "willDeleted"@ ==> diff_styled(Some(tag), base) == base,
        diff_styled(None, base) == base,
{
    lemma_tags();
}

proof fn lemma_tags()
    ensures
        "wasChanged"@.len() == 10,
        "willChange"@.len() == 10,
        "wasInserted"@.len() == 11,
        "willInsert"@.len() == 10,
        "willInserted"@.len() == 12,
        "wasDeleted"@.len() == 10,
        "willDelete"@.len() == 10,
        "willDeleted"@.len() == 11,
        "wasChanged"@[3] == 'C',
        "willChange"@[4] == 'C',
        "willInsert"@[4] == 'I',
        "wasInserted"@[3] == 'I',
        "wasDeleted"@[3] == 'D',
        "willDelete"@[4] == 'D',
        "willDeleted"@[3] == 'l',
        "wasDeleted"@[4] == 'e',
        "willChange"@[3] == 'l',
        "willInsert"@[3] == 'l',
        "willDelete"@[3] == 'l',
{
    reveal_strlit("wasChanged");
    reveal_strlit("willChange");
    reveal_strlit("wasInserted");
    reveal_strlit("willInsert");
    reveal_strlit("willInserted");
    reveal_strlit("wasDeleted");
    reveal_strlit("willDelete");
    reveal_strlit("willDeleted");
}

/// Code is shown span by span, each in the look of its diff tag.
pub proof fn code_is_shown_span_by_span(spans: Seq<TextSpanV>, base: Style, i: int)
    ensures
        rich_parts_of(spans, base).len() == spans.len(),
        0 <= i < spans.len() ==> rich_parts_of(spans, base)[i].text == spans[i].text
            && rich_parts_of(spans, base)[i].style == diff_styled(spans[i].diff, base),
{
}

/// What was removed is red and struck through, what was inserted green; what was
/// neither looks as otherwise. Instances are dim besides.
pub proof fn changes_have_their_colours(h: HypV, base: Style)
    ensures
        h.is_removed ==> changed_style(true, h.is_inserted, base) == (Style {
            fg: Some(Color::Red),
            crossed_out: true,
            ..plain()
        }),
        !h.is_removed && h.is_inserted ==> changed_style(false, true, base) == (Style {
            fg: Some(Color::Green),
            ..plain()
        }),
        changed_style(false, false, base) == base,
        h.is_instance ==> hyp_style(h, base) == (Style {
            dim: true,
            ..changed_style(h.is_removed, h.is_inserted, base)
        }),
        !h.is_instance ==> hyp_style(h, base) == changed_style(h.is_removed, h.is_inserted, base),
        plain().fg is None,
        !plain().bold && !plain().underlined && !plain().crossed_out && !plain().dim
            && !plain().reversed,
        forall|c: Color| #[trigger] colored(c) == (Style { fg: Some(c), ..plain() }),
{
}

/// A hypothesis shows its names with a blank between them, a colon, its type, and
/// where it has a value that after `:=`, each span of code at its place.
pub proof fn hypotheses_show_names_type_and_value(h: HypV, base: Style, i: int)
    ensures
        ({
            let parts = hyp_parts(h, base);
            let s = hyp_style(h, base);
            let gray = Style { fg: Some(Color::DarkGray), ..s };
            let n = h.ty.len() as int;
            &&& parts[0].text == join(h.names, " "@) && parts[0].style == s
            &&& parts[1].text == " : "@ && parts[1].style == gray
            &&& 0 <= i < n ==> parts[2 + i].text == h.ty[i].text && parts[2 + i].style
                == diff_styled(h.ty[i].diff, s)
            &&& h.val is None ==> parts.len() == 2 + n
            &&& h.val matches Some(val) ==> {
                &&& parts.len() == 3 + n + val.len()
                &&& parts[2 + n].text == " := "@ && parts[2 + n].style == gray
                &&& 0 <= i < val.len() ==> parts[3 + n + i].text == val[i].text && parts[3 + n
                    + i].style == diff_styled(val[i].diff, s)
            }
        }),
{
}

/// A goal shows its name where it has one, then each of its hypotheses in order,
/// then its prefix and its target.
pub proof fn goals_show_all_hypotheses(indent: usize, g: GoalV)
    ensures
        ({
            let base = changed_style(g.is_removed, g.is_inserted, plain());
            let named = match g.name {
                Some(name) => rich_lines(
                    indent,
                    seq![SpanV { text: "case "@ + name, style: colored(Color::Magenta) }],
                ),
                None => Seq::empty(),
            };
            goal_lines(indent, g) == named + g.hyps.map_values(
                |h: HypV| rich_lines(indent, hyp_parts(h, base)),
            ).flatten() + rich_lines(
                indent,
                seq![SpanV { text: g.prefix, style: (Style { bold: true, ..base }) }]
                    + g.target.map_values(
                    |t: TextSpanV| (SpanV { text: t.text, style: diff_styled(t.diff, base) }),
                ),
            )
        }),
{
    let base = changed_style(g.is_removed, g.is_inserted, plain());
    lemma_hyps(indent, g.hyps, base);
    assert(rich_parts_of(g.target, base) =~= g.target.map_values(
        |t: TextSpanV| (SpanV { text: t.text, style: diff_styled(t.diff, base) }),
    ));
}

proof fn lemma_hyps(indent: usize, hyps: Seq<HypV>, base: Style)
    ensures
        hyps_lines(indent, hyps, base) == hyps.map_values(
            |h: HypV| rich_lines(indent, hyp_parts(h, base)),
        ).flatten(),
    decreases hyps.len(),
{
    let f = |h: HypV| rich_lines(indent, hyp_parts(h, base));
    if hyps.len() > 0 {
        let rest = hyps.drop_last();
        lemma_hyps(indent, rest, base);
        assert(hyps.map_values(f) =~= rest.map_values(f).push(f(hyps.last())));
        rest.map_values(f).lemma_flatten_push(f(hyps.last()));
    } else {
        assert(hyps.map_values(f) =~= Seq::empty());
    }
}

/// The four severities of the protocol have their names and colours; any other is
/// shown as an information.
pub proof fn severities_have_their_names(severity: u8)
    ensures
        severity_label(1).0 == "error"@ && severity_label(1).1 == Color::Red,
        severity_label(2).0 == "warning"@ && severity_label(2).1 == Color::Yellow,
        severity_label(3).0 == "info"@ && severity_label(3).1 == Color::Blue,
        severity_label(4).0 == "hint"@ && severity_label(4).1 == Color::DarkGray,
        severity == 0 || severity > 4 ==> severity_label(severity) == severity_label(3),
{
}

/// A diagnostic is headed by its line and column, counted from 1, and how severe
/// it is.
pub proof fn diagnostics_are_headed_by_their_position(d: DiagV)
    ensures
        ({
            let spans = diag_header(d);
            let (name, color) = severity_label(d.severity);
            &&& spans.len() == 2
            &&& d.line < u32::MAX && d.column < u32::MAX ==> spans[0].text == "▸ "@ + decimal(
                (d.line + 1) as nat,
            ) + ":"@ + decimal((d.column + 1) as nat) + " "@
            &&& spans[0].style == colored(Color::DarkGray)
            &&& spans[1].text == name
            &&& spans[1].style == (Style { bold: true, fg: Some(color), ..plain() })
        }),
{
}

} // verus!
