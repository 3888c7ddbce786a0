//! How trace nodes are looked up and replaced.

use crate::convert::{
    block_pos, found_trace, has_trace, lemma_block_pos, lemma_seg_pos, node_with, seg_has, seg_pos,
    traces_in, with_trace,
};
use crate::laws::convert::{
    first_with, found_node_is_the_first, lemma_first_with_add, replaced_node_is_found,
};
use crate::laws::proxy::lemma_diag_pos;
use crate::model::{diag_pos, diags_traces, node_of, with_node};
use crate::state::{DiagV, SegV, TraceV};
use vstd::prelude::*;

verus! {

/// The trace nodes of all of the diagnostics, one diagnostic after the other.
pub open spec fn nodes_shown(diags: Seq<DiagV>) -> Seq<TraceV> {
    diags.map_values(|d: DiagV| traces_in(d.message)).flatten()
}

/// Whether the node at that place is the first with that id.
pub open spec fn is_first(nodes: Seq<TraceV>, k: int, id: u32) -> bool {
    &&& 0 <= k < nodes.len()
    &&& nodes[k].id == id
    &&& forall|j: int| 0 <= j < k ==> (#[trigger] nodes[j]).id != id
}

proof fn lemma_first_with(nodes: Seq<TraceV>, id: u32)
    ensures
        first_with(nodes, id) is None ==> forall|k: int|
            0 <= k < nodes.len() ==> (#[trigger] nodes[k]).id != id,
        first_with(nodes, id) matches Some(node) ==> exists|k: int|
            is_first(nodes, k, id) && #[trigger] nodes[k] == node,
    decreases nodes.len(),
{
    if nodes.len() > 0 {
        if nodes[0].id == id {
            assert(is_first(nodes, 0, id));
        } else {
            let rest = nodes.drop_first();
            lemma_first_with(rest, id);
            if let Some(node) = first_with(rest, id) {
                let k = choose|k: int| is_first(rest, k, id) && #[trigger] rest[k] == node;
                assert forall|j: int| 0 <= j < k + 1 implies (#[trigger] nodes[j]).id != id by {
                    if j > 0 {
                        assert(rest[j - 1] == nodes[j]);
                    }
                }
                assert(nodes[k + 1] == rest[k]);
                assert(is_first(nodes, k + 1, id));
            } else {
                assert forall|k: int| 0 <= k < nodes.len() implies (#[trigger] nodes[k]).id
                    != id by {
                    if k > 0 {
                        assert(rest[k - 1] == nodes[k]);
                    }
                }
            }
        }
    }
}

proof fn lemma_only_first(nodes: Seq<TraceV>, k: int, id: u32)
    requires
        is_first(nodes, k, id),
    ensures
        first_with(nodes, id) == Some(nodes[k]),
{
    lemma_first_with(nodes, id);
    assert(nodes[k].id == id);
    let node = first_with(nodes, id)->0;
    let j = choose|j: int| is_first(nodes, j, id) && #[trigger] nodes[j] == node;
    if j < k {
        assert(nodes[j].id != id);
    }
    if k < j {
        assert(nodes[k].id != id);
    }
}

/// In a message, the trace node that is looked up is the first with that id
/// among all of them; it is missing only where none has the id.
pub proof fn node_of_a_message_is_the_first(segs: Seq<SegV>, id: u32, k: int)
    ensures
        is_first(traces_in(segs), k, id) ==> found_trace(segs, id) == Some(traces_in(segs)[k]),
        found_trace(segs, id) is None <==> forall|j: int|
            0 <= j < traces_in(segs).len() ==> (#[trigger] traces_in(segs)[j]).id != id,
{
    found_node_is_the_first(segs, id);
    let nodes = traces_in(segs);
    if is_first(nodes, k, id) {
        lemma_only_first(nodes, k, id);
    }
    lemma_first_with(nodes, id);
}

/// The trace nodes of the diagnostics are those of each of them, one after the
/// other.
pub proof fn nodes_of_diagnostics(diags: Seq<DiagV>)
    ensures
        diags_traces(diags) == nodes_shown(diags),
    decreases diags.len(),
{
    let f = |d: DiagV| traces_in(d.message);
    if diags.len() > 0 {
        let rest = diags.drop_last();
        nodes_of_diagnostics(rest);
        assert(diags.map_values(f) =~= rest.map_values(f).push(traces_in(diags.last().message)));
        rest.map_values(f).lemma_flatten_push(traces_in(diags.last().message));
    } else {
        assert(diags.map_values(f) =~= Seq::empty());
    }
}

proof fn lemma_node_of(diags: Seq<DiagV>, id: u32)
    ensures
        node_of(diags, id) == first_with(nodes_shown(diags), id),
    decreases diags.len(),
{
    let f = |d: DiagV| traces_in(d.message);
    if diags.len() > 0 {
        let rest = diags.drop_first();
        let head = traces_in(diags[0].message);
        lemma_node_of(rest, id);
        assert(diags.map_values(f).drop_first() =~= rest.map_values(f));
        assert(diags.map_values(f)[0] == head);
        assert(nodes_shown(diags) == head + nodes_shown(rest));
        lemma_first_with_add(head, nodes_shown(rest), id);
        found_node_is_the_first(diags[0].message, id);
        if !has_trace(diags[0].message, id) {
            assert(diag_pos(diags, id) == 1 + diag_pos(rest, id));
            if diag_pos(rest, id) < rest.len() {
                assert(diags[diag_pos(diags, id) as int] == rest[diag_pos(rest, id) as int]);
            }
        }
    } else {
        assert(diags.map_values(f) =~= Seq::empty());
    }
}

/// In a list of diagnostics, the trace node that is looked up is the first with
/// that id among those of all of them, one after the other; it is missing only
/// where none of them has the id.
pub proof fn node_of_diagnostics_is_the_first(diags: Seq<DiagV>, id: u32, k: int)
    ensures
        is_first(nodes_shown(diags), k, id) ==> node_of(diags, id) == Some(nodes_shown(diags)[k]),
        node_of(diags, id) is None <==> forall|j: int|
            0 <= j < nodes_shown(diags).len() ==> (#[trigger] nodes_shown(diags)[j]).id != id,
{
    lemma_node_of(diags, id);
    let nodes = nodes_shown(diags);
    if is_first(nodes, k, id) {
        lemma_only_first(nodes, k, id);
    }
    lemma_first_with(nodes, id);
}

/// A trace node in any of the diagnostics is found by its id, or one before it
/// that has the same id.
pub proof fn nodes_of_every_diagnostic_are_found(diags: Seq<DiagV>, i: int, k: int)
    requires
        0 <= i < diags.len(),
        0 <= k < traces_in(diags[i].message).len(),
    ensures
        ({
            let node = traces_in(diags[i].message)[k];
            &&& node_of(diags, node.id) is Some
            &&& node_of(diags, node.id)->0.id == node.id
            &&& (forall|a: int, b: int|
                0 <= a < diags.len() && 0 <= b < traces_in(diags[a].message).len() && (a < i || (a
                    == i && b < k)) ==> (#[trigger] traces_in(diags[a].message)[b]).id != node.id)
                ==> node_of(diags, node.id) == Some(node)
        }),
{
    let id = traces_in(diags[i].message)[k].id;
    let segs = diags[i].message;
    lemma_diag_pos(diags, id);
    lemma_first_with(traces_in(segs), id);
    found_node_is_the_first(segs, id);
    let at = diag_pos(diags, id) as int;
    assert(at <= i) by {
        if at > i {
            assert(!has_trace(diags[i].message, id));
        }
    }
    let first = diags[at].message;
    found_node_is_the_first(first, id);
    lemma_first_with(traces_in(first), id);
    let node = found_trace(first, id)->0;
    let b = choose|b: int|
        is_first(traces_in(first), b, id) && #[trigger] traces_in(first)[b] == node;
    if forall|a: int, b: int|
        0 <= a < diags.len() && 0 <= b < traces_in(diags[a].message).len() && (a < i || (a == i && b
            < k)) ==> (#[trigger] traces_in(diags[a].message)[b]).id != id {
        if at < i {
            assert(traces_in(diags[at].message)[b].id != id);
        }
        if b < k {
            assert(traces_in(diags[at].message)[b].id != id);
        }
        if k < b {
            assert(traces_in(first)[k].id != id);
        }
    }
}

/// Of two nodes that replace the trace node of an id one after the other, only
/// the second stays.
pub proof fn later_replacement_counts(segs: Seq<SegV>, id: u32, a: TraceV, b: TraceV)
    requires
        a.id == id,
        has_trace(segs, id),
    ensures
        with_trace(with_trace(segs, id, a), id, b) == with_trace(segs, id, b),
    decreases segs, 1nat,
{
    let i = seg_pos(segs, id) as int;
    let mid = with_trace(segs, id, a);
    lemma_seg_pos(segs, id);
    lemma_seg_pos(mid, id);
    replaced_node_is_found(segs, id, a);
    assert(decreases_to!(segs => segs[i]));
    if let SegV::Trace(node) = segs[i] {
        lemma_later_in_node(node, id, a, b);
        assert(mid[i] == SegV::Trace(node_with(node, id, a)));
        let k = seg_pos(mid, id) as int;
        if k < i {
            assert(mid[k] == segs[k]);
        }
        if k > i {
            assert(!seg_has(mid[i], id));
        }
        assert(with_trace(mid, id, b) =~= with_trace(segs, id, b));
    }
}

proof fn lemma_later_in_node(node: TraceV, id: u32, a: TraceV, b: TraceV)
    requires
        a.id == id,
        seg_has(SegV::Trace(node), id),
    ensures
        node_with(node_with(node, id, a), id, b) == node_with(node, id, b),
        seg_has(SegV::Trace(node_with(node, id, a)), id),
    decreases node, 1nat,
{
    let mid = node_with(node, id, a);
    assert(decreases_to!(node => node.header));
    assert(decreases_to!(node => node.children));
    if node.id == id {
    } else if has_trace(node.header, id) {
        later_replacement_counts(node.header, id, a, b);
        replaced_node_is_found(node.header, id, a);
    } else {
        let j = block_pos(node.children, id) as int;
        lemma_block_pos(node.children, id);
        assert(decreases_to!(node.children => node.children[j]));
        later_replacement_counts(node.children[j], id, a, b);
        replaced_node_is_found(node.children[j], id, a);
        lemma_block_pos(mid.children, id);
        let k = block_pos(mid.children, id) as int;
        assert(mid.children[j] == with_trace(node.children[j], id, a));
        if k < j {
            assert(mid.children[k] == node.children[k]);
        }
        if k > j {
            assert(!has_trace(mid.children[j], id));
        }
        assert(node_with(mid, id, b).children =~= node_with(node, id, b).children);
    }
}

/// Replacing a trace node of the diagnostics leaves every diagnostic but one as
/// it is, and of that one everything but the message.
pub proof fn replacing_touches_one_message(diags: Seq<DiagV>, id: u32, new: TraceV, k: int)
    requires
        0 <= k < diags.len(),
    ensures
        ({
            let after = with_node(diags, id, new);
            &&& after.len() == diags.len()
            &&& !has_trace(diags[k].message, id) ==> after[k] == diags[k]
            &&& after[k].line == diags[k].line
            &&& after[k].column == diags[k].column
            &&& after[k].severity == diags[k].severity
            &&& has_trace(diags[k].message, id) && (forall|j: int|
                0 <= j < k ==> !has_trace((#[trigger] diags[j]).message, id)) ==> after[k].message
                == with_trace(diags[k].message, id, new)
            &&& (exists|j: int| 0 <= j < k && has_trace((#[trigger] diags[j]).message, id))
                ==> after[k] == diags[k]
        }),
{
    lemma_diag_pos(diags, id);
    let i = diag_pos(diags, id) as int;
    if has_trace(diags[k].message, id) && i > k {
        assert(!has_trace(diags[k].message, id));
    }
    if exists|j: int| 0 <= j < k && has_trace((#[trigger] diags[j]).message, id) {
        let j = choose|j: int| 0 <= j < k && has_trace((#[trigger] diags[j]).message, id);
        if i > j {
            assert(!has_trace(diags[j].message, id));
        }
    }
}

/// Replacing a trace node in a message leaves every segment that holds no node of
/// the id as it is, and every one after the first that holds one; where that one
/// is the node itself, the new one stands there.
pub proof fn replacing_touches_one_segment(segs: Seq<SegV>, id: u32, new: TraceV, k: int)
    requires
        0 <= k < segs.len(),
    ensures
        ({
            let after = with_trace(segs, id, new);
            &&& after.len() == segs.len()
            &&& !has_trace(seq![segs[k]], id) ==> after[k] == segs[k]
            &&& has_trace(segs.take(k), id) ==> after[k] == segs[k]
            &&& segs[k] matches SegV::Trace(node) ==> (node.id == id && !has_trace(segs.take(k), id)
                ==> after[k] == SegV::Trace(new))
        }),
{
    lemma_seg_pos(segs, id);
    lemma_seg_pos(segs.take(k), id);
    lemma_seg_pos(seq![segs[k]], id);
    let i = seg_pos(segs, id) as int;
    let j = seg_pos(segs.take(k), id) as int;
    assert(has_trace(seq![segs[k]], id) == seg_has(segs[k], id)) by {
        if seg_has(segs[k], id) && seg_pos(seq![segs[k]], id) == 1 {
            assert(!seg_has(seq![segs[k]][0], id));
        }
    }
    if j < k {
        assert(segs.take(k)[j] == segs[j]);
        if i > j {
            assert(!seg_has(segs[j], id));
        }
    } else if i < k {
        assert(segs.take(k)[i] == segs[i]);
        assert(!seg_has(segs.take(k)[i], id));
    } else if seg_has(segs[k], id) && i > k {
        assert(!seg_has(segs[k], id));
    }
}

} // verus!
