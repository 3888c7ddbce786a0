//! What is shown of the server's responses, member by member.

use crate::convert::{
    blocks_traces, children_segs, code_spans, diag_of, goal_of, hyp_of, items_ptrs, lazy_ptrs,
    members_ptrs, mixed, msg_segs, node_without_ptrs, parts_segs, parts_spans, ptrs_in, seg_traces,
    term_goal_of, texts_among, trace_of, traces_in, without_ptrs,
};
use crate::json::{field, Json, JsonV, Member};
use crate::state::{fnv1a_hash, SegV, TextSpanV, TraceV};
use vstd::prelude::*;
use vstd::utf8::encode_utf8;

verus! {

/// A text is one span, with the diff tag around it.
pub proof fn text_is_one_span(tt: JsonV, text: Seq<char>, diff: Option<Seq<char>>)
    requires
        field(tt, "text"@) == JsonV::Str(text),
    ensures
        code_spans(tt, diff).len() == 1,
        code_spans(tt, diff)[0].text == text,
        code_spans(tt, diff)[0].diff == diff,
{
}

/// Of parts put together, the spans of each stand in order, every one of them
/// under the diff tag around them.
pub proof fn parts_of_code_stand_in_order(tt: JsonV, parts: Seq<JsonV>, diff: Option<Seq<char>>)
    requires
        field(tt, "text"@) !is Str,
        field(tt, "append"@) == JsonV::Array(parts),
    ensures
        code_spans(tt, diff) == parts.map_values(|part: JsonV| code_spans(part, diff)).flatten(),
{
    lemma_parts_spans(parts, parts.len(), diff);
    assert(parts.take(parts.len() as int) =~= parts);
}

proof fn lemma_parts_spans(parts: Seq<JsonV>, n: nat, diff: Option<Seq<char>>)
    requires
        n <= parts.len(),
    ensures
        parts_spans(parts, n, diff) == parts.take(n as int).map_values(
            |part: JsonV| code_spans(part, diff),
        ).flatten(),
    decreases n,
{
    let f = |part: JsonV| code_spans(part, diff);
    if n > 0 {
        let before = parts.take(n - 1);
        lemma_parts_spans(parts, (n - 1) as nat, diff);
        assert(parts.take(n as int) =~= before.push(parts[n - 1]));
        assert(parts.take(n as int).map_values(f) =~= before.map_values(f).push(
            code_spans(parts[n - 1], diff),
        ));
        before.map_values(f).lemma_flatten_push(code_spans(parts[n - 1], diff));
    } else {
        assert(parts.take(0).map_values(f) =~= Seq::empty());
    }
}

/// Within a tag that has no diff tag of its own, the one around it holds.
pub proof fn tags_without_diff_change_nothing(
    tt: JsonV,
    info: JsonV,
    inner: JsonV,
    diff: Option<Seq<char>>,
)
    requires
        field(tt, "text"@) !is Str,
        field(tt, "append"@) !is Array,
        field(tt, "tag"@) == JsonV::Array(seq![info, inner]),
        field(info, "diffStatus"@) !is Str,
    ensures
        code_spans(tt, diff) == code_spans(inner, diff),
{
}

/// What is neither text nor parts nor a tag shows nothing.
pub proof fn other_values_show_nothing(tt: JsonV, diff: Option<Seq<char>>, seed: u64)
    requires
        field(tt, "text"@) !is Str,
        field(tt, "append"@) !is Array,
        !(field(tt, "tag"@) matches JsonV::Array(pair) && pair.len() == 2),
    ensures
        code_spans(tt, diff).len() == 0,
        msg_segs(tt, diff, seed).len() == 0,
{
}

/// Whether a member is `true`.
pub open spec fn is_true(v: JsonV, key: Seq<char>) -> bool {
    field(v, key) == JsonV::Bool(true)
}

/// The names of a hypothesis are the texts among its names, in order.
pub proof fn names_of_a_hypothesis(v: JsonV, items: Seq<JsonV>)
    ensures
        field(v, "names"@) == JsonV::Array(items) ==> hyp_of(v).names == items.filter(
            |x: JsonV| x is Str,
        ).map_values(|x: JsonV| x->Str_0),
        field(v, "names"@) !is Array ==> hyp_of(v).names.len() == 0,
{
    lemma_texts(items);
}

proof fn lemma_texts(items: Seq<JsonV>)
    ensures
        texts_among(items) == items.filter(|x: JsonV| x is Str).map_values(|x: JsonV| x->Str_0),
    decreases items.len(),
{
    reveal(Seq::filter);
    let p = |x: JsonV| x is Str;
    let f = |x: JsonV| x->Str_0;
    if items.len() > 0 {
        let rest = items.drop_last();
        lemma_texts(rest);
        if items.last() is Str {
            assert(items.filter(p) == rest.filter(p).push(items.last()));
            assert(items.filter(p).map_values(f) =~= rest.filter(p).map_values(f).push(
                items.last()->Str_0,
            ));
        }
    } else {
        assert(items.filter(p).map_values(f) =~= Seq::empty());
    }
}

/// A hypothesis shows its type, its value where it has one, and its marks.
pub proof fn parts_of_a_hypothesis(v: JsonV)
    ensures
        hyp_of(v).ty == code_spans(field(v, "type"@), None),
        field(v, "val"@) == JsonV::Null ==> hyp_of(v).val is None,
        field(v, "val"@) != JsonV::Null ==> hyp_of(v).val == Some(
            code_spans(field(v, "val"@), None),
        ),
        hyp_of(v).is_instance == is_true(v, "isInstance"@),
        hyp_of(v).is_type == is_true(v, "isType"@),
        hyp_of(v).is_inserted == is_true(v, "isInserted"@),
        hyp_of(v).is_removed == is_true(v, "isRemoved"@),
{
}

/// A goal shows its name, its prefix, its target and its marks.
pub proof fn parts_of_a_goal(v: JsonV, s: Seq<char>)
    ensures
        field(v, "userName"@) == JsonV::Str(s) ==> goal_of(v).name == Some(s),
        field(v, "userName"@) !is Str ==> goal_of(v).name is None,
        field(v, "goalPrefix"@) == JsonV::Str(s) ==> goal_of(v).prefix == s,
        field(v, "goalPrefix"@) !is Str ==> goal_of(v).prefix == "⊢ "@,
        goal_of(v).target == code_spans(field(v, "type"@), None),
        goal_of(v).is_inserted == is_true(v, "isInserted"@),
        goal_of(v).is_removed == is_true(v, "isRemoved"@),
{
}

/// A goal, and likewise an expected type, has as many hypotheses as its value
/// has, each converted at its place.
pub proof fn hypotheses_of_a_goal(v: JsonV, items: Seq<JsonV>, i: int)
    ensures
        field(v, "hyps"@) == JsonV::Array(items) ==> goal_of(v).hyps.len() == items.len()
            && term_goal_of(v).hyps.len() == items.len(),
        field(v, "hyps"@) == JsonV::Array(items) && 0 <= i < items.len() ==> goal_of(v).hyps[i]
            == hyp_of(items[i]) && term_goal_of(v).hyps[i] == hyp_of(items[i]),
        field(v, "hyps"@) !is Array ==> goal_of(v).hyps.len() == 0 && term_goal_of(v).hyps.len()
            == 0,
{
}

/// An expected type differs from a goal in that it has no name, and in nothing
/// else.
pub proof fn expected_types_are_goals_without_a_name(v: JsonV)
    ensures
        term_goal_of(v).name is None,
        term_goal_of(v).prefix == goal_of(v).prefix,
        term_goal_of(v).hyps == goal_of(v).hyps,
        term_goal_of(v).target == goal_of(v).target,
        term_goal_of(v).target == code_spans(field(v, "type"@), None),
        term_goal_of(v).is_inserted == goal_of(v).is_inserted,
        term_goal_of(v).is_removed == goal_of(v).is_removed,
{
}

/// A text in a message is one segment, with the diff tag around it.
pub proof fn text_is_one_segment(tt: JsonV, text: Seq<char>, diff: Option<Seq<char>>, seed: u64)
    requires
        field(tt, "text"@) == JsonV::Str(text),
    ensures
        msg_segs(tt, diff, seed) == seq![SegV::Text(TextSpanV { text, diff })],
{
}

/// Of parts put together in a message, the segments of each stand in order,
/// every part with a seed of its own.
pub proof fn parts_of_a_message_stand_in_order(
    tt: JsonV,
    parts: Seq<JsonV>,
    diff: Option<Seq<char>>,
    seed: u64,
)
    requires
        field(tt, "text"@) !is Str,
        field(tt, "append"@) == JsonV::Array(parts),
    ensures
        msg_segs(tt, diff, seed) == Seq::new(
            parts.len(),
            |i: int| msg_segs(parts[i], diff, mixed(seed, i as u64)),
        ).flatten(),
{
    let f = |i: int| msg_segs(parts[i], diff, mixed(seed, i as u64));
    lemma_parts_segs(parts, parts.len(), diff, seed);
    assert(Seq::new(parts.len(), f).take(parts.len() as int) =~= Seq::new(parts.len(), f));
}

proof fn lemma_parts_segs(parts: Seq<JsonV>, n: nat, diff: Option<Seq<char>>, seed: u64)
    requires
        n <= parts.len(),
    ensures
        parts_segs(parts, n, diff, seed) == Seq::new(
            parts.len(),
            |i: int| msg_segs(parts[i], diff, mixed(seed, i as u64)),
        ).take(n as int).flatten(),
    decreases n,
{
    let f = |i: int| msg_segs(parts[i], diff, mixed(seed, i as u64));
    let all = Seq::new(parts.len(), f);
    if n > 0 {
        lemma_parts_segs(parts, (n - 1) as nat, diff, seed);
        assert(all.take(n as int) =~= all.take(n - 1).push(all[n - 1]));
        all.take(n - 1).lemma_flatten_push(all[n - 1]);
    } else {
        assert(all.take(0) =~= Seq::empty());
    }
}

/// What is embedded in a message is shown as what it is: an expression as its
/// code, a goal as a goal, a trace as a trace node, a widget by its alternative
/// text, and anything else by the text beside it.
pub proof fn embedded_things_are_shown(
    tt: JsonV,
    embed: JsonV,
    alt: JsonV,
    diff: Option<Seq<char>>,
    seed: u64,
    i: int,
)
    requires
        field(tt, "text"@) !is Str,
        field(tt, "append"@) !is Array,
        field(tt, "tag"@) == JsonV::Array(seq![embed, alt]),
    ensures
        ({
            let expr = field(embed, "expr"@);
            let goal = field(embed, "goal"@);
            let trace = field(embed, "trace"@);
            let shown = field(field(embed, "widget"@), "alt"@);
            let segs = msg_segs(tt, diff, seed);
            &&& expr != JsonV::Null ==> segs.len() == code_spans(expr, diff).len() && (0 <= i
                < segs.len() ==> segs[i] == SegV::Text(code_spans(expr, diff)[i]))
            &&& expr == JsonV::Null && goal != JsonV::Null ==> segs == seq![
                SegV::Goal(goal_of(goal)),
            ]
            &&& expr == JsonV::Null && goal == JsonV::Null && trace != JsonV::Null ==> segs == seq![
                SegV::Trace(trace_of(trace, seed)),
            ]
            &&& expr == JsonV::Null && goal == JsonV::Null && trace == JsonV::Null && shown
                != JsonV::Null ==> segs == msg_segs(shown, diff, mixed(seed, 1))
            &&& expr == JsonV::Null && goal == JsonV::Null && trace == JsonV::Null && shown
                == JsonV::Null ==> segs == msg_segs(alt, diff, mixed(seed, 1))
        }),
{
}

/// A trace node shows its class, its header and its marks, and its children at
/// their places where they are there.
pub proof fn parts_of_a_trace_node(tr: JsonV, seed: u64, cls: Seq<char>, list: Seq<JsonV>, i: int)
    ensures
        ({
            let node = trace_of(tr, seed);
            let strict = field(field(tr, "children"@), "strict"@);
            let lazy = field(field(tr, "children"@), "lazy"@);
            &&& field(tr, "cls"@) == JsonV::Str(cls) ==> node.cls == cls
            &&& field(tr, "cls"@) !is Str ==> node.cls == "trace"@
            &&& node.id == mixed(seed, fnv1a_hash(encode_utf8(node.cls))) as u32
            &&& node.header == msg_segs(field(tr, "msg"@), None, mixed(node.id as u64, 1))
            &&& node.collapsed == (field(tr, "collapsed"@) != JsonV::Bool(false))
            &&& strict == JsonV::Array(list) ==> node.children.len() == list.len()
                && !node.truncated && node.lazy_ptr is None
            &&& strict == JsonV::Array(list) && 0 <= i < list.len() ==> node.children[i]
                == msg_segs(
                list[i],
                None,
                mixed(node.id as u64, (i as u64).wrapping_add(2)),
            )
            &&& strict !is Array ==> node.children.len() == 0
            &&& strict !is Array && lazy != JsonV::Null ==> node.truncated && node.lazy_ptr == Some(
                lazy,
            )
            &&& strict !is Array && lazy == JsonV::Null ==> !node.truncated && node.lazy_ptr is None
        }),
{
    if field(tr, "msg"@) is Null {
        let inner = mixed(trace_of(tr, seed).id as u64, 1);
        assert(msg_segs(JsonV::Null, None, inner) =~= Seq::empty());
    }
}

/// Children that are fetched stand at their places, each with a seed of its own.
pub proof fn children_stand_at_their_places(list: Seq<JsonV>, seed: u64, i: int)
    ensures
        children_segs(list, seed).len() == list.len(),
        0 <= i < list.len() ==> children_segs(list, seed)[i] == msg_segs(
            list[i],
            None,
            mixed(seed, (i as u64).wrapping_add(2)),
        ),
{
}

/// A diagnostic keeps the severity that the server gives it, the four of the
/// protocol and any other that fits; where none is given it is an error.
pub proof fn severities_are_kept(v: JsonV, index: nat, n: u64)
    ensures
        field(v, "severity"@) == JsonV::Unsigned(n) && n <= u8::MAX ==> diag_of(v, index).severity
            == n,
        field(v, "severity"@) == JsonV::Unsigned(n) ==> diag_of(v, index).severity == n % 0x100,
        field(v, "severity"@) !is Unsigned ==> diag_of(v, index).severity == 1,
{
    assert(n as u8 == n % 0x100) by (bit_vector);
}

/// A diagnostic is shown where it starts; where the server gives no position, at
/// the beginning of the file.
pub proof fn positions_are_kept(v: JsonV, index: nat, n: u64)
    ensures
        ({
            let start = field(field(v, "range"@), "start"@);
            let d = diag_of(v, index);
            &&& field(start, "line"@) == JsonV::Unsigned(n) ==> d.line == n % 0x1_0000_0000
            &&& field(start, "line"@) !is Unsigned ==> d.line == 0
            &&& field(start, "character"@) == JsonV::Unsigned(n) ==> d.column == n % 0x1_0000_0000
            &&& field(start, "character"@) !is Unsigned ==> d.column == 0
        }),
{
    assert(n as u32 == n % 0x1_0000_0000) by (bit_vector);
}

/// Whether a value is that number, or no number and that is zero.
pub open spec fn is_number_or_zero(j: JsonV, n: u64) -> bool {
    j == JsonV::Unsigned(n) || (j !is Unsigned && n == 0)
}

/// A diagnostic shows its message, with trace ids that come from its position
/// alone.
pub proof fn messages_are_kept(v: JsonV, index: nat, line: u64, column: u64)
    requires
        is_number_or_zero(field(field(field(v, "range"@), "start"@), "line"@), line),
        is_number_or_zero(field(field(field(v, "range"@), "start"@), "character"@), column),
    ensures
        diag_of(v, index).message == msg_segs(
            field(v, "message"@),
            None,
            mixed(mixed(fnv1a_hash(encode_utf8("diag"@)), line), column),
        ),
{
}

/// Mixing multiplies by the FNV prime, modulo two to the power of 64.
pub proof fn mixing_is_multiplication(seed: u64, v: u64)
    ensures
        mixed(seed, v) == ((seed ^ v) * 0x100000001b3) % 0x1_0000_0000_0000_0000,
{
}

/// Each further byte is mixed into the hash of those before it.
pub proof fn hashing_goes_byte_by_byte(bytes: Seq<u8>, b: u8)
    ensures
        fnv1a_hash(Seq::empty()) == 0xcbf29ce484222325,
        fnv1a_hash(bytes.push(b)) == mixed(fnv1a_hash(bytes), b as u64),
{
    assert(bytes.push(b).drop_last() =~= bytes);
}

/// The trace nodes of a message are those of each of its segments, one after the
/// other; texts and goals have none.
pub proof fn trace_nodes_of_a_message(segs: Seq<SegV>)
    ensures
        traces_in(segs) == segs.map_values(|seg: SegV| seg_traces(seg)).flatten(),
        forall|i: int|
            0 <= i < segs.len() && (#[trigger] segs[i]) !is Trace ==> seg_traces(segs[i]).len()
                == 0,
    decreases segs.len(),
{
    let f = |seg: SegV| seg_traces(seg);
    if segs.len() > 0 {
        let rest = segs.drop_last();
        trace_nodes_of_a_message(rest);
        assert(segs.map_values(f) =~= rest.map_values(f).push(seg_traces(segs.last())));
        rest.map_values(f).lemma_flatten_push(seg_traces(segs.last()));
    } else {
        assert(segs.map_values(f) =~= Seq::empty());
    }
}

/// A trace node comes first, then those in its header, then those in each of its
/// children.
pub proof fn trace_nodes_of_a_node(node: TraceV)
    ensures
        seg_traces(SegV::Trace(node)) == seq![node] + traces_in(node.header)
            + node.children.map_values(|child: Seq<SegV>| traces_in(child)).flatten(),
{
    lemma_blocks(node.children);
}

pub proof fn lemma_blocks(blocks: Seq<Seq<SegV>>)
    ensures
        blocks_traces(blocks) == blocks.map_values(
            |child: Seq<SegV>| traces_in(child),
        ).flatten(),
    decreases blocks.len(),
{
    let f = |child: Seq<SegV>| traces_in(child);
    if blocks.len() > 0 {
        let rest = blocks.drop_last();
        lemma_blocks(rest);
        assert(blocks.map_values(f) =~= rest.map_values(f).push(traces_in(blocks.last())));
        rest.map_values(f).lemma_flatten_push(traces_in(blocks.last()));
    } else {
        assert(blocks.map_values(f) =~= Seq::empty());
    }
}

/// The pointers of trace nodes are those that they hold, in order.
pub proof fn pointers_of_nodes(nodes: Seq<TraceV>)
    ensures
        lazy_ptrs(nodes) == nodes.filter(|n: TraceV| n.lazy_ptr is Some).map_values(
            |n: TraceV| n.lazy_ptr->0,
        ),
    decreases nodes.len(),
{
    reveal(Seq::filter);
    let p = |n: TraceV| n.lazy_ptr is Some;
    let f = |n: TraceV| n.lazy_ptr->0;
    if nodes.len() > 0 {
        let rest = nodes.drop_last();
        pointers_of_nodes(rest);
        if nodes.last().lazy_ptr is Some {
            assert(nodes.filter(p).map_values(f) =~= rest.filter(p).map_values(f).push(
                nodes.last().lazy_ptr->0,
            ));
        }
    } else {
        assert(nodes.filter(p).map_values(f) =~= Seq::empty());
    }
}

/// The RpcPtrs in a value: itself where it is one, else those of all its items
/// or members in order, and none in anything else.
pub proof fn pointers_in_a_value(items: Vec<Json>, members: Vec<Member>, j: Json)
    ensures
        ptrs_in(Json::Array(items)) == items@.map_values(|x: Json| ptrs_in(x)).flatten(),
        members@.len() == 1 && members@[0].key@ == "p"@ ==> ptrs_in(Json::Object(members)) == seq![
            Json::Object(members)@,
        ],
        !(members@.len() == 1 && members@[0].key@ == "p"@) ==> ptrs_in(Json::Object(members))
            == members@.map_values(|m: Member| ptrs_in(m.value)).flatten(),
        j !is Array && j !is Object ==> ptrs_in(j).len() == 0,
{
    lemma_items(items@);
    lemma_members(members@);
}

proof fn lemma_items(items: Seq<Json>)
    ensures
        items_ptrs(items) == items.map_values(|x: Json| ptrs_in(x)).flatten(),
    decreases items.len(),
{
    let f = |x: Json| ptrs_in(x);
    if items.len() > 0 {
        let rest = items.drop_last();
        lemma_items(rest);
        assert(items.map_values(f) =~= rest.map_values(f).push(ptrs_in(items.last())));
        rest.map_values(f).lemma_flatten_push(ptrs_in(items.last()));
    } else {
        assert(items.map_values(f) =~= Seq::empty());
    }
}

proof fn lemma_members(members: Seq<Member>)
    ensures
        members_ptrs(members) == members.map_values(|m: Member| ptrs_in(m.value)).flatten(),
    decreases members.len(),
{
    let f = |m: Member| ptrs_in(m.value);
    if members.len() > 0 {
        let rest = members.drop_last();
        lemma_members(rest);
        assert(members.map_values(f) =~= rest.map_values(f).push(ptrs_in(members.last().value)));
        rest.map_values(f).lemma_flatten_push(ptrs_in(members.last().value));
    } else {
        assert(members.map_values(f) =~= Seq::empty());
    }
}

/// Taking the pointers out leaves everything else as it is.
pub proof fn taking_pointers_out_changes_nothing_else(segs: Seq<SegV>, i: int, k: int)
    requires
        0 <= i < segs.len(),
    ensures
        without_ptrs(segs).len() == segs.len(),
        segs[i] !is Trace ==> without_ptrs(segs)[i] == segs[i],
        segs[i] matches SegV::Trace(node) ==> without_ptrs(segs)[i] is Trace && ({
            let after = without_ptrs(segs)[i]->Trace_0;
            &&& after.id == node.id
            &&& after.cls == node.cls
            &&& after.collapsed == node.collapsed
            &&& after.truncated == node.truncated
            &&& after.lazy_ptr is None
            &&& after.header == without_ptrs(node.header)
            &&& after.children.len() == node.children.len()
            &&& 0 <= k < node.children.len() ==> after.children[k] == without_ptrs(
                node.children[k],
            )
        }),
{
    reveal_with_fuel(without_ptrs, 2);
    if let SegV::Trace(node) = segs[i] {
        assert(without_ptrs(segs)[i] == SegV::Trace(node_without_ptrs(node)));
    }
}

} // verus!
