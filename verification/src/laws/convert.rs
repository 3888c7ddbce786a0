//! What holds of converted messages and of the trace nodes in them.

use crate::convert::{
    block_pos, blocks_traces, children_segs, code_spans, diag_of, found_in_node, found_trace,
    has_trace, inner_diff, is_ptr, items_ptrs, lazy_ptrs, lemma_array_smaller, lemma_block_pos,
    lemma_embed_smaller, lemma_lazy_ptrs_add, lemma_seg_pos, lemma_trace_smaller, members_ptrs,
    mixed, msg_segs, node_traces, node_with, node_without_ptrs, parts_segs, parts_spans, ptrs_in,
    seg_has, seg_pos, seg_traces, seg_without_ptrs, text_segs, trace_of, traces_in, with_trace,
    without_ptrs,
};
use crate::json::{array_of, field, members_view, str_of, Json, JsonV, Member};
use crate::state::{SegV, TextSpanV, TraceV};
use vstd::prelude::*;

verus! {

/// The first of the nodes with that id.
pub open spec fn first_with(nodes: Seq<TraceV>, id: u32) -> Option<TraceV>
    decreases nodes.len(),
{
    if nodes.len() == 0 {
        None
    } else if nodes[0].id == id {
        Some(nodes[0])
    } else {
        first_with(nodes.drop_first(), id)
    }
}

pub proof fn lemma_first_with_add(a: Seq<TraceV>, b: Seq<TraceV>, id: u32)
    ensures
        first_with(a + b, id) == (match first_with(a, id) {
            Some(node) => Some(node),
            None => first_with(b, id),
        }),
    decreases a.len(),
{
    if a.len() == 0 {
        assert(a + b =~= b);
    } else {
        assert((a + b)[0] == a[0]);
        assert((a + b).drop_first() =~= a.drop_first() + b);
        lemma_first_with_add(a.drop_first(), b, id);
    }
}

/// The trace nodes of two runs of segments are those of the one after those of
/// the other.
pub proof fn lemma_traces_add(a: Seq<SegV>, b: Seq<SegV>)
    ensures
        traces_in(a + b) == traces_in(a) + traces_in(b),
    decreases b.len(),
{
    if b.len() == 0 {
        assert(a + b =~= a);
        assert(traces_in(a) + traces_in(b) =~= traces_in(a));
    } else {
        assert((a + b).drop_last() =~= a + b.drop_last());
        assert((a + b).last() == b.last());
        lemma_traces_add(a, b.drop_last());
        assert(traces_in(a + b) =~= traces_in(a) + traces_in(b));
    }
}

pub proof fn lemma_blocks_traces_add(a: Seq<Seq<SegV>>, b: Seq<Seq<SegV>>)
    ensures
        blocks_traces(a + b) == blocks_traces(a) + blocks_traces(b),
    decreases b.len(),
{
    if b.len() == 0 {
        assert(a + b =~= a);
        assert(blocks_traces(a) + blocks_traces(b) =~= blocks_traces(a));
    } else {
        assert((a + b).drop_last() =~= a + b.drop_last());
        assert((a + b).last() == b.last());
        lemma_blocks_traces_add(a, b.drop_last());
        assert(blocks_traces(a + b) =~= blocks_traces(a) + blocks_traces(b));
    }
}

proof fn lemma_one_seg(seg: SegV)
    ensures
        traces_in(seq![seg]) == seg_traces(seg),
{
    assert(seq![seg].drop_last() =~= Seq::empty());
    assert(traces_in(seq![seg].drop_last()) =~= Seq::empty());
    assert(traces_in(seq![seg]) =~= seg_traces(seg));
}

proof fn lemma_one_block(block: Seq<SegV>)
    ensures
        blocks_traces(seq![block]) == traces_in(block),
{
    assert(seq![block].drop_last() =~= Seq::empty());
    assert(blocks_traces(seq![block].drop_last()) =~= Seq::empty());
    assert(blocks_traces(seq![block]) =~= traces_in(block));
}

/// The trace node that is found by an id is the first one with that id among
/// all of them (pre-order).
pub proof fn found_node_is_the_first(segs: Seq<SegV>, id: u32)
    ensures
        found_trace(segs, id) == first_with(traces_in(segs), id),
        has_trace(segs, id) == (first_with(traces_in(segs), id) is Some),
    decreases segs, 1nat,
{
    if segs.len() > 0 {
        let rest = segs.drop_first();
        let head = segs[0];
        assert(decreases_to!(segs => rest));
        found_node_is_the_first(rest, id);
        assert(segs =~= seq![head] + rest);
        lemma_traces_add(seq![head], rest);
        lemma_one_seg(head);
        lemma_first_with_add(seg_traces(head), traces_in(rest), id);
        assert(decreases_to!(segs => segs[0]));
        assert(seg_has(head, id) == (first_with(seg_traces(head), id) is Some)) by {
            if let SegV::Trace(node) = head {
                lemma_node_first(node, id);
            }
        }
        if let SegV::Trace(node) = head {
            lemma_node_first(node, id);
        }
        if !seg_has(head, id) {
            assert(seg_pos(segs, id) == 1 + seg_pos(rest, id));
            lemma_seg_pos(rest, id);
            if seg_pos(rest, id) < rest.len() {
                assert(segs[seg_pos(segs, id) as int] == rest[seg_pos(rest, id) as int]);
            }
        }
    }
}

proof fn lemma_node_first(node: TraceV, id: u32)
    ensures
        found_in_node(node, id) == first_with(node_traces(node), id),
        seg_has(SegV::Trace(node), id) == (first_with(node_traces(node), id) is Some),
    decreases node, 1nat,
{
    assert(decreases_to!(node => node.header));
    assert(decreases_to!(node => node.children));
    found_node_is_the_first(node.header, id);
    lemma_blocks_first(node.children, id);
    let own = seq![node];
    assert(own.drop_first() =~= Seq::empty());
    assert(first_with(own, id) == (if node.id == id {
        Some(node)
    } else {
        None
    })) by {
        reveal_with_fuel(first_with, 2);
    }
    lemma_first_with_add(own, traces_in(node.header), id);
    lemma_first_with_add(own + traces_in(node.header), blocks_traces(node.children), id);
}

proof fn lemma_blocks_first(blocks: Seq<Seq<SegV>>, id: u32)
    ensures
        ({
            let j = block_pos(blocks, id);
            &&& (j < blocks.len()) == (first_with(blocks_traces(blocks), id) is Some)
            &&& j < blocks.len() ==> found_trace(blocks[j as int], id) == first_with(
                blocks_traces(blocks),
                id,
            )
        }),
    decreases blocks, 1nat,
{
    if blocks.len() > 0 {
        let rest = blocks.drop_first();
        let head = blocks[0];
        assert(decreases_to!(blocks => rest));
        assert(decreases_to!(blocks => blocks[0]));
        lemma_blocks_first(rest, id);
        found_node_is_the_first(head, id);
        assert(blocks =~= seq![head] + rest);
        lemma_blocks_traces_add(seq![head], rest);
        lemma_one_block(head);
        lemma_first_with_add(traces_in(head), blocks_traces(rest), id);
        if !has_trace(head, id) {
            assert(block_pos(blocks, id) == 1 + block_pos(rest, id));
            if block_pos(rest, id) < rest.len() {
                assert(blocks[block_pos(blocks, id) as int] == rest[block_pos(rest, id) as int]);
            }
        }
    }
}

/// Where the trace node of an id is replaced by another with that id, the new
/// one is found.
pub proof fn replaced_node_is_found(segs: Seq<SegV>, id: u32, new: TraceV)
    requires
        has_trace(segs, id),
        new.id == id,
    ensures
        found_trace(with_trace(segs, id, new), id) == Some(new),
        has_trace(with_trace(segs, id, new), id),
    decreases segs, 1nat,
{
    let i = seg_pos(segs, id) as int;
    lemma_seg_pos(segs, id);
    assert(decreases_to!(segs => segs[i]));
    if let SegV::Trace(node) = segs[i] {
        lemma_replaced_in_node(node, id, new);
        let after = with_trace(segs, id, new);
        assert(after[i] == SegV::Trace(node_with(node, id, new)));
        lemma_seg_pos(after, id);
        let k = seg_pos(after, id) as int;
        if k < i {
            assert(after[k] == segs[k]);
        }
        assert(k == i) by {
            if k > i {
                assert(!seg_has(after[i], id));
            }
        }
    }
}

proof fn lemma_replaced_in_node(node: TraceV, id: u32, new: TraceV)
    requires
        seg_has(SegV::Trace(node), id),
        new.id == id,
    ensures
        found_in_node(node_with(node, id, new), id) == Some(new),
        seg_has(SegV::Trace(node_with(node, id, new)), id),
    decreases node, 1nat,
{
    let after = node_with(node, id, new);
    assert(decreases_to!(node => node.header));
    assert(decreases_to!(node => node.children));
    if node.id == id {
    } else if has_trace(node.header, id) {
        replaced_node_is_found(node.header, id, new);
    } else {
        let j = block_pos(node.children, id) as int;
        lemma_block_pos(node.children, id);
        assert(decreases_to!(node.children => node.children[j]));
        replaced_node_is_found(node.children[j], id, new);
        lemma_block_pos(after.children, id);
        let k = block_pos(after.children, id) as int;
        assert(after.children[j] == with_trace(node.children[j], id, new));
        if k < j {
            assert(after.children[k] == node.children[k]);
        }
        assert(k == j) by {
            if k > j {
                assert(!has_trace(after.children[j], id));
            }
        }
    }
}

/// Once the pointers to lazy children are taken out, no trace node holds one.
pub proof fn no_pointer_is_left(segs: Seq<SegV>)
    ensures
        lazy_ptrs(traces_in(without_ptrs(segs))) == Seq::<JsonV>::empty(),
    decreases segs, 1nat,
{
    let after = without_ptrs(segs);
    if segs.len() > 0 {
        let rest = segs.drop_last();
        let last = segs.last();
        assert(decreases_to!(segs => rest));
        assert(decreases_to!(segs => segs[segs.len() - 1]));
        no_pointer_is_left(rest);
        assert(after.drop_last() =~= without_ptrs(rest));
        assert(after.last() == seg_without_ptrs(last));
        lemma_lazy_ptrs_add(traces_in(after.drop_last()), seg_traces(after.last()));
        assert(lazy_ptrs(seg_traces(seg_without_ptrs(last))) =~= Seq::empty()) by {
            if let SegV::Trace(node) = last {
                lemma_no_pointer_in_node(node);
            }
        }
        assert(lazy_ptrs(traces_in(after)) =~= Seq::empty());
    }
}

proof fn lemma_no_pointer_in_node(node: TraceV)
    ensures
        lazy_ptrs(node_traces(node_without_ptrs(node))) == Seq::<JsonV>::empty(),
    decreases node, 1nat,
{
    let after = node_without_ptrs(node);
    let own = seq![after];
    assert(decreases_to!(node => node.header));
    assert(decreases_to!(node => node.children));
    no_pointer_is_left(node.header);
    assert(lazy_ptrs(blocks_traces(after.children)) =~= Seq::empty()) by {
        lemma_no_pointer_in_blocks(node.children, after.children);
    }
    assert(lazy_ptrs(own) =~= Seq::empty()) by {
        assert(own.drop_last() =~= Seq::empty());
        reveal_with_fuel(lazy_ptrs, 2);
    }
    lemma_lazy_ptrs_add(own, traces_in(after.header));
    lemma_lazy_ptrs_add(own + traces_in(after.header), blocks_traces(after.children));
    assert(lazy_ptrs(node_traces(after)) =~= Seq::empty());
}

proof fn lemma_no_pointer_in_blocks(blocks: Seq<Seq<SegV>>, after: Seq<Seq<SegV>>)
    requires
        after.len() == blocks.len(),
        forall|i: int| 0 <= i < blocks.len() ==> #[trigger] after[i] == without_ptrs(blocks[i]),
    ensures
        lazy_ptrs(blocks_traces(after)) == Seq::<JsonV>::empty(),
    decreases blocks, 1nat,
{
    if blocks.len() > 0 {
        let n = blocks.len() - 1;
        assert(decreases_to!(blocks => blocks.drop_last()));
        assert(decreases_to!(blocks => blocks[n]));
        assert forall|i: int| 0 <= i < n implies #[trigger] after.drop_last()[i] == without_ptrs(
            blocks.drop_last()[i],
        ) by {
            assert(after[i] == without_ptrs(blocks[i]));
        }
        lemma_no_pointer_in_blocks(blocks.drop_last(), after.drop_last());
        no_pointer_is_left(blocks[n]);
        assert(after[n] == without_ptrs(blocks[n]));
        lemma_lazy_ptrs_add(blocks_traces(after.drop_last()), traces_in(after.last()));
        assert(lazy_ptrs(blocks_traces(after)) =~= Seq::empty());
    }
}

/// Replacing a trace node by one that differs in pointers alone changes nothing
/// but pointers.
pub proof fn only_pointers_differ(segs: Seq<SegV>, id: u32, new: TraceV)
    requires
        found_trace(segs, id) matches Some(node) && node_without_ptrs(new) == node_without_ptrs(
            node,
        ),
    ensures
        without_ptrs(with_trace(segs, id, new)) == without_ptrs(segs),
    decreases segs, 1nat,
{
    let i = seg_pos(segs, id) as int;
    lemma_seg_pos(segs, id);
    assert(decreases_to!(segs => segs[i]));
    if let SegV::Trace(node) = segs[i] {
        lemma_only_pointers_in_node(node, id, new);
        let after = with_trace(segs, id, new);
        assert forall|k: int| 0 <= k < segs.len() implies seg_without_ptrs(#[trigger] after[k])
            == seg_without_ptrs(segs[k]) by {
            if k != i {
                assert(after[k] == segs[k]);
            }
        }
        assert(without_ptrs(after) =~= without_ptrs(segs));
    }
}

proof fn lemma_only_pointers_in_node(node: TraceV, id: u32, new: TraceV)
    requires
        found_in_node(node, id) matches Some(n) && node_without_ptrs(new) == node_without_ptrs(n),
    ensures
        node_without_ptrs(node_with(node, id, new)) == node_without_ptrs(node),
    decreases node, 1nat,
{
    let after = node_with(node, id, new);
    assert(decreases_to!(node => node.header));
    assert(decreases_to!(node => node.children));
    if node.id == id {
    } else if has_trace(node.header, id) {
        only_pointers_differ(node.header, id, new);
    } else {
        let j = block_pos(node.children, id) as int;
        lemma_block_pos(node.children, id);
        if j < node.children.len() {
            assert(decreases_to!(node.children => node.children[j]));
            only_pointers_differ(node.children[j], id, new);
            assert forall|k: int| 0 <= k < node.children.len() implies without_ptrs(
                #[trigger] after.children[k],
            ) == without_ptrs(node.children[k]) by {
                if k != j {
                    assert(after.children[k] == node.children[k]);
                }
            }
            assert(node_without_ptrs(after).children =~= node_without_ptrs(node).children);
        }
    }
}

/// Whether a value is an RpcPtr.
pub open spec fn is_rpc_ptr(j: JsonV) -> bool {
    j matches JsonV::Object(m) && m.dom() == set!["p"@]
}

/// Whether all of these are RpcPtrs.
pub open spec fn all_rpc_ptrs(s: Seq<JsonV>) -> bool {
    forall|i: int| 0 <= i < s.len() ==> is_rpc_ptr(#[trigger] s[i])
}

/// What is collected from a response are RpcPtrs, and nothing else.
pub proof fn collected_are_pointers(j: Json)
    ensures
        all_rpc_ptrs(ptrs_in(j)),
    decreases j, 1nat,
{
    match j {
        Json::Object(members) => {
            if is_ptr(j) {
                let m = members@;
                assert(m.drop_last() =~= Seq::empty());
                reveal_with_fuel(members_view, 2);
                assert(members_view(m).dom() =~= set!["p"@]);
                assert(ptrs_in(j) == seq![j@]);
                assert(is_rpc_ptr(j@));
            } else {
                assert(decreases_to!(j => j->Object_0));
                assert(decreases_to!(members => members@));
                lemma_collected_members(members@);
            }
        },
        Json::Array(items) => {
            assert(decreases_to!(j => j->Array_0));
            assert(decreases_to!(items => items@));
            lemma_collected_items(items@);
        },
        _ => {},
    }
}

proof fn lemma_collected_members(members: Seq<Member>)
    ensures
        all_rpc_ptrs(members_ptrs(members)),
    decreases members, 1nat,
{
    if members.len() > 0 {
        let n = members.len() - 1;
        assert(decreases_to!(members => members.drop_last()));
        assert(decreases_to!(members => members[n]));
        assert(decreases_to!(members[n] => members[n].value));
        lemma_collected_members(members.drop_last());
        collected_are_pointers(members[n].value);
        assert(members_ptrs(members) == members_ptrs(members.drop_last()) + ptrs_in(
            members[n].value,
        ));
    }
}

proof fn lemma_collected_items(items: Seq<Json>)
    ensures
        all_rpc_ptrs(items_ptrs(items)),
    decreases items, 1nat,
{
    if items.len() > 0 {
        let n = items.len() - 1;
        assert(decreases_to!(items => items.drop_last()));
        assert(decreases_to!(items => items[n]));
        lemma_collected_items(items.drop_last());
        collected_are_pointers(items[n]);
        assert(items_ptrs(items) == items_ptrs(items.drop_last()) + ptrs_in(items[n]));
    }
}

/// The texts of the spans, one after the other.
pub open spec fn spans_text(spans: Seq<TextSpanV>) -> Seq<char>
    decreases spans.len(),
{
    if spans.len() == 0 {
        Seq::empty()
    } else {
        spans_text(spans.drop_last()) + spans.last().text
    }
}

proof fn lemma_spans_text_add(a: Seq<TextSpanV>, b: Seq<TextSpanV>)
    ensures
        spans_text(a + b) == spans_text(a) + spans_text(b),
    decreases b.len(),
{
    if b.len() == 0 {
        assert(a + b =~= a);
        assert(spans_text(a) + spans_text(b) =~= spans_text(a));
    } else {
        assert((a + b).drop_last() =~= a + b.drop_last());
        assert((a + b).last() == b.last());
        lemma_spans_text_add(a, b.drop_last());
        assert(spans_text(a + b) =~= spans_text(a) + spans_text(b));
    }
}

/// A diff tag holds for what is within it, whatever diff tag is around it.
pub proof fn innermost_diff_wins(
    tt: JsonV,
    info: JsonV,
    inner: JsonV,
    tag: Seq<char>,
    around: Option<Seq<char>>,
)
    requires
        field(tt, "text"@) !is Str,
        field(tt, "append"@) !is Array,
        field(tt, "tag"@) == JsonV::Array(seq![info, inner]),
        field(info, "diffStatus"@) == JsonV::Str(tag),
    ensures
        code_spans(tt, around) == code_spans(inner, Some(tag)),
{
}

/// Diff tags colour the code and leave its text as it is.
pub proof fn text_does_not_depend_on_diff(
    tt: JsonV,
    a: Option<Seq<char>>,
    b: Option<Seq<char>>,
)
    ensures
        spans_text(code_spans(tt, a)) == spans_text(code_spans(tt, b)),
    decreases tt, 0nat,
{
    lemma_array_smaller(tt, "append"@);
    lemma_array_smaller(tt, "tag"@);
    if let Some(text) = str_of(field(tt, "text"@)) {
        let x = TextSpanV { text, diff: a };
        let y = TextSpanV { text, diff: b };
        assert(seq![x].drop_last() =~= seq![y].drop_last());
    } else if let Some(parts) = array_of(field(tt, "append"@)) {
        lemma_parts_text(parts, parts.len(), a, b);
    } else if let Some(pair) = array_of(field(tt, "tag"@)) {
        if pair.len() == 2 {
            assert(decreases_to!(tt => pair[1]));
            text_does_not_depend_on_diff(pair[1], inner_diff(pair[0], a), inner_diff(pair[0], b));
        }
    }
}

proof fn lemma_parts_text(parts: Seq<JsonV>, n: nat, a: Option<Seq<char>>, b: Option<Seq<char>>)
    ensures
        spans_text(parts_spans(parts, n, a)) == spans_text(parts_spans(parts, n, b)),
    decreases parts, n,
{
    if 0 < n <= parts.len() {
        assert(decreases_to!(parts => parts[n - 1]));
        lemma_parts_text(parts, (n - 1) as nat, a, b);
        text_does_not_depend_on_diff(parts[n - 1], a, b);
        lemma_spans_text_add(parts_spans(parts, (n - 1) as nat, a), code_spans(parts[n - 1], a));
        lemma_spans_text_add(parts_spans(parts, (n - 1) as nat, b), code_spans(parts[n - 1], b));
    }
}

/// The trace ids in a diagnostic come from its position and not from its place
/// in the list, so they survive list shifts.
pub proof fn trace_ids_survive_list_shifts(v: JsonV, i: nat, j: nat)
    ensures
        diag_of(v, i) == diag_of(v, j),
{
}

/// Whether the children of a trace node are there, or the pointer by which they
/// can be fetched, and not both.
pub open spec fn is_lazy_or_strict(node: TraceV) -> bool {
    &&& node.truncated == (node.lazy_ptr is Some)
    &&& node.truncated ==> node.children.len() == 0
}

pub open spec fn all_lazy_or_strict(nodes: Seq<TraceV>) -> bool {
    forall|i: int| 0 <= i < nodes.len() ==> is_lazy_or_strict(#[trigger] nodes[i])
}

proof fn lemma_texts_have_no_traces(spans: Seq<TextSpanV>)
    ensures
        traces_in(text_segs(spans)) == Seq::<TraceV>::empty(),
    decreases spans.len(),
{
    if spans.len() > 0 {
        lemma_texts_have_no_traces(spans.drop_last());
        assert(text_segs(spans).drop_last() =~= text_segs(spans.drop_last()));
        assert(seg_traces(text_segs(spans).last()) == Seq::<TraceV>::empty());
        assert(traces_in(text_segs(spans)) =~= Seq::empty());
    }
}

/// Of every trace node in a converted message, either the children are there or
/// the pointer by which they can be fetched.
pub proof fn converted_nodes_are_lazy_or_strict(tt: JsonV, diff: Option<Seq<char>>, seed: u64)
    ensures
        all_lazy_or_strict(traces_in(msg_segs(tt, diff, seed))),
    decreases tt, 1nat, 0nat,
{
    let segs = msg_segs(tt, diff, seed);
    lemma_array_smaller(tt, "append"@);
    if let Some(text) = str_of(field(tt, "text"@)) {
        lemma_one_seg(SegV::Text(TextSpanV { text, diff }));
    } else if let Some(parts) = array_of(field(tt, "append"@)) {
        lemma_parts_nodes(parts, parts.len(), diff, seed);
    } else if let Some(pair) = array_of(field(tt, "tag"@)) {
        if pair.len() == 2 {
            let embed = pair[0];
            let shown = field(field(embed, "widget"@), "alt"@);
            lemma_embed_smaller(tt, "trace"@);
            lemma_embed_smaller(tt, "widget"@);
            if field(embed, "expr"@) !is Null {
                lemma_texts_have_no_traces(code_spans(field(embed, "expr"@), diff));
            } else if field(embed, "goal"@) !is Null {
                lemma_one_seg(segs[0]);
            } else if field(embed, "trace"@) !is Null {
                lemma_one_seg(segs[0]);
                lemma_trace_nodes(field(embed, "trace"@), seed);
            } else if field(embed, "widget"@) !is Null && shown !is Null {
                converted_nodes_are_lazy_or_strict(shown, diff, mixed(seed, 1));
            } else {
                converted_nodes_are_lazy_or_strict(pair[1], diff, mixed(seed, 1));
            }
        }
    }
}

proof fn lemma_parts_nodes(parts: Seq<JsonV>, n: nat, diff: Option<Seq<char>>, seed: u64)
    ensures
        all_lazy_or_strict(traces_in(parts_segs(parts, n, diff, seed))),
    decreases parts, 0nat, n,
{
    if 0 < n <= parts.len() {
        assert(decreases_to!(parts => parts[n - 1]));
        let before = parts_segs(parts, (n - 1) as nat, diff, seed);
        let inner = mixed(seed, (n - 1) as u64);
        let last = msg_segs(parts[n - 1], diff, inner);
        lemma_parts_nodes(parts, (n - 1) as nat, diff, seed);
        converted_nodes_are_lazy_or_strict(parts[n - 1], diff, inner);
        lemma_traces_add(before, last);
        assert(traces_in(parts_segs(parts, n, diff, seed)) == traces_in(before) + traces_in(last));
    }
}

proof fn lemma_trace_nodes(tr: JsonV, seed: u64)
    ensures
        all_lazy_or_strict(node_traces(trace_of(tr, seed))),
    decreases tr, 0nat, 0nat,
{
    let node = trace_of(tr, seed);
    lemma_trace_smaller(tr);
    assert(all_lazy_or_strict(traces_in(node.header))) by {
        if field(tr, "msg"@) !is Null {
            converted_nodes_are_lazy_or_strict(
                field(tr, "msg"@),
                None,
                mixed(node.id as u64, 1),
            );
        }
    }
    assert(all_lazy_or_strict(blocks_traces(node.children))) by {
        if let Some(list) = array_of(field(field(tr, "children"@), "strict"@)) {
            lemma_children_nodes(list, node.id as u64);
        }
    }
    assert(is_lazy_or_strict(node));
    assert(node_traces(node) == seq![node] + traces_in(node.header) + blocks_traces(
        node.children,
    ));
}

proof fn lemma_children_nodes(list: Seq<JsonV>, seed: u64)
    ensures
        all_lazy_or_strict(blocks_traces(children_segs(list, seed))),
    decreases list, 0nat, 0nat,
{
    let all = children_segs(list, seed);
    assert forall|i: int| 0 <= i < all.len() implies all_lazy_or_strict(
        traces_in(#[trigger] all[i]),
    ) by {
        let inner = mixed(seed, (i as u64).wrapping_add(2));
        assert(decreases_to!(list => list[i]));
        assert(all[i] == msg_segs(list[i], None, inner));
        converted_nodes_are_lazy_or_strict(list[i], None, inner);
    }
    lemma_all_blocks(all);
}

proof fn lemma_all_blocks(blocks: Seq<Seq<SegV>>)
    requires
        forall|i: int| 0 <= i < blocks.len() ==> all_lazy_or_strict(traces_in(#[trigger] blocks[i])),
    ensures
        all_lazy_or_strict(blocks_traces(blocks)),
    decreases blocks.len(),
{
    if blocks.len() > 0 {
        let before = blocks.drop_last();
        let last = blocks[blocks.len() - 1];
        lemma_all_blocks(before);
        assert(blocks_traces(blocks) == blocks_traces(before) + traces_in(last));
    }
}

} // verus!
