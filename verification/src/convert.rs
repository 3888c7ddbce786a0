//! Conversion from the Lean server's interactive (RPC) response JSON to the
//! socket-friendly `state` types.
//!
//! `TaggedText` trees are flattened to spans, keeping only the goal-diff
//! tags. `RpcPtr` handles are dropped (no subexpression inspection yet) and
//! released by the proxy, except lazy trace children, whose pointers the
//! proxy keeps for on-demand expansion.

use crate::json::{
    array_of, bool_of, canonical, field, items_view, lemma_field_smaller, lemma_items_push,
    lemma_same_members, members_canonical, members_view, str_of, unsigned_of, Json, JsonV, Member,
};
use crate::state::{
    blocks_view, fnv1a, fnv1a_hash, hyps_view, lemma_segs_push, segs_view, spans_view, Diag, DiagV,
    Goal, GoalV, Hyp, HypV, MsgSeg, SegV, TextSpan, TextSpanV, TraceNode, TraceV,
};
use crate::text::{opt_str_view, own_opt, str_eq, strs_view};
use vstd::prelude::*;
use vstd::utf8::encode_utf8;

verus! {

/// One step of the hash that trace ids are made with.
pub open spec fn mixed(seed: u64, v: u64) -> u64 {
    (seed ^ v).wrapping_mul(0x100000001b3)
}

pub fn mix(seed: u64, v: u64) -> (r: u64)
    ensures
        r == mixed(seed, v),
{
    (seed ^ v).wrapping_mul(0x100000001b3)
}

pub proof fn lemma_array_smaller(tt: JsonV, key: Seq<char>)
    ensures
        array_of(field(tt, key)) matches Some(s) ==> decreases_to!(tt => s) && (forall|i: int|
            0 <= i < s.len() ==> decreases_to!(tt => #[trigger] s[i])),
{
    lemma_field_smaller(tt, key);
    if let Some(s) = array_of(field(tt, key)) {
        assert(decreases_to!(field(tt, key) => field(tt, key)->Array_0));
        assert forall|i: int| 0 <= i < s.len() implies decreases_to!(tt => #[trigger] s[i]) by {
            assert(decreases_to!(s => s[i]));
        }
    }
}

/// The diff tag within a tag: its own, if it has one.
pub open spec fn inner_diff(info: JsonV, diff: Option<Seq<char>>) -> Option<Seq<char>> {
    match str_of(field(info, "diffStatus"@)) {
        Some(d) => Some(d),
        None => diff,
    }
}

/// The spans of a `TaggedText<SubexprInfo>`: the texts in order, each with the
/// innermost `diffStatus` around it.
pub open spec fn code_spans(tt: JsonV, diff: Option<Seq<char>>) -> Seq<TextSpanV>
    decreases tt, 0nat,
    via code_spans_decreases
{
    if let Some(text) = str_of(field(tt, "text"@)) {
        seq![TextSpanV { text, diff }]
    } else if let Some(parts) = array_of(field(tt, "append"@)) {
        parts_spans(parts, parts.len(), diff)
    } else if let Some(pair) = array_of(field(tt, "tag"@)) {
        if pair.len() == 2 {
            code_spans(pair[1], inner_diff(pair[0], diff))
        } else {
            Seq::empty()
        }
    } else {
        Seq::empty()
    }
}

/// The spans of the first `n` parts.
pub open spec fn parts_spans(parts: Seq<JsonV>, n: nat, diff: Option<Seq<char>>) -> Seq<TextSpanV>
    decreases parts, n,
{
    if n == 0 || n > parts.len() {
        Seq::empty()
    } else {
        parts_spans(parts, (n - 1) as nat, diff) + code_spans(parts[n - 1], diff)
    }
}

#[via_fn]
proof fn code_spans_decreases(tt: JsonV, diff: Option<Seq<char>>) {
    lemma_array_smaller(tt, "append"@);
    lemma_array_smaller(tt, "tag"@);
}

/// Flattens a `TaggedText<SubexprInfo>`; the innermost `diffStatus` wins.
pub fn flatten_code(tt: &Json, diff: Option<&str>, out: &mut Vec<TextSpan>)
    ensures
        spans_view(final(out)@) == spans_view(old(out)@) + code_spans(tt@, opt_str_view(diff)),
    decreases tt@,
{
    let ghost before = spans_view(out@);
    let ghost d = opt_str_view(diff);
    proof {
        lemma_array_smaller(tt@, "append"@);
        lemma_array_smaller(tt@, "tag"@);
    }
    if let Some(s) = tt.get("text").as_str() {
        let span = TextSpan { text: s.to_owned(), diff: own_opt(diff) };
        out.push(span);
        proof {
            assert(spans_view(out@) =~= before + seq![span@]);
        }
    } else if let Some(parts) = tt.get("append").as_array() {
        let ghost ps = items_view(parts@);
        let mut i: usize = 0;
        proof {
            assert(before + parts_spans(ps, 0, d) =~= before);
        }
        while i < parts.len()
            invariant
                i <= parts@.len(),
                ps == items_view(parts@),
                d == opt_str_view(diff),
                forall|k: int| 0 <= k < ps.len() ==> decreases_to!(tt@ => #[trigger] ps[k]),
                spans_view(out@) == before + parts_spans(ps, i as nat, d),
            decreases parts@.len() - i,
        {
            assert(ps[i as int] == parts@[i as int]@);
            flatten_code(&parts[i], diff, out);
            proof {
                assert(before + parts_spans(ps, i as nat, d) + code_spans(ps[i as int], d)
                    =~= before + parts_spans(ps, (i + 1) as nat, d));
            }
            i = i + 1;
        }
    } else if let Some(pair) = tt.get("tag").as_array() {
        if pair.len() == 2 {
            let ghost ps = items_view(pair@);
            assert(ps[0] == pair@[0]@ && ps[1] == pair@[1]@);
            let inner = match pair[0].get("diffStatus").as_str() {
                Some(x) => Some(x),
                None => diff,
            };
            flatten_code(&pair[1], inner, out);
        } else {
            assert(before + Seq::<TextSpanV>::empty() =~= before);
        }
    } else {
        assert(before + Seq::<TextSpanV>::empty() =~= before);
    }
}

fn code(tt: &Json) -> (r: Vec<TextSpan>)
    ensures
        spans_view(r@) == code_spans(tt@, None),
{
    let mut out: Vec<TextSpan> = Vec::new();
    flatten_code(tt, None, &mut out);
    proof {
        assert(spans_view(Seq::empty()) + code_spans(tt@, None) =~= code_spans(tt@, None));
    }
    out
}

pub open spec fn bool_or(j: JsonV, default: bool) -> bool {
    match bool_of(j) {
        Some(b) => b,
        None => default,
    }
}

pub open spec fn str_or(j: JsonV, default: Seq<char>) -> Seq<char> {
    match str_of(j) {
        Some(s) => s,
        None => default,
    }
}

fn flag(v: &Json, key: &str, default: bool) -> (r: bool)
    ensures
        r == bool_or(field(v@, key@), default),
{
    match v.get(key).as_bool() {
        Some(b) => b,
        None => default,
    }
}

fn string_or(v: &Json, key: &str, default: &str) -> (r: String)
    ensures
        r@ == str_or(field(v@, key@), default@),
{
    match v.get(key).as_str() {
        Some(s) => s.to_owned(),
        None => default.to_owned(),
    }
}

/// The texts among the items, in order.
pub open spec fn texts_among(items: Seq<JsonV>) -> Seq<Seq<char>>
    decreases items.len(),
{
    if items.len() == 0 {
        Seq::empty()
    } else {
        match str_of(items.last()) {
            Some(s) => texts_among(items.drop_last()).push(s),
            None => texts_among(items.drop_last()),
        }
    }
}

/// The items of an array; none where the value is no array.
pub open spec fn items_of(j: JsonV) -> Seq<JsonV> {
    match array_of(j) {
        Some(s) => s,
        None => Seq::empty(),
    }
}

/// The hypothesis that an `InteractiveHypothesisBundle` shows.
pub open spec fn hyp_of(v: JsonV) -> HypV {
    HypV {
        names: texts_among(items_of(field(v, "names"@))),
        ty: code_spans(field(v, "type"@), None),
        val: if field(v, "val"@) is Null {
            None
        } else {
            Some(code_spans(field(v, "val"@), None))
        },
        is_instance: bool_or(field(v, "isInstance"@), false),
        is_type: bool_or(field(v, "isType"@), false),
        is_inserted: bool_or(field(v, "isInserted"@), false),
        is_removed: bool_or(field(v, "isRemoved"@), false),
    }
}

/// The goal that an `InteractiveGoal` shows.
pub open spec fn goal_of(v: JsonV) -> GoalV {
    GoalV {
        name: str_of(field(v, "userName"@)),
        prefix: str_or(field(v, "goalPrefix"@), "⊢ "@),
        hyps: items_of(field(v, "hyps"@)).map_values(|h: JsonV| hyp_of(h)),
        target: code_spans(field(v, "type"@), None),
        is_inserted: bool_or(field(v, "isInserted"@), false),
        is_removed: bool_or(field(v, "isRemoved"@), false),
    }
}

/// The goal that an `InteractiveTermGoal` shows.
pub open spec fn term_goal_of(v: JsonV) -> GoalV {
    GoalV { name: None, ..goal_of(v) }
}

fn conv_hyp(v: &Json) -> (r: Hyp)
    ensures
        r@ == hyp_of(v@),
{
    let mut names: Vec<String> = Vec::new();
    if let Some(items) = v.get("names").as_array() {
        let mut i: usize = 0;
        proof {
            assert(items_view(items@).take(0) =~= Seq::empty());
            assert(strs_view(names@) =~= Seq::empty());
        }
        while i < items.len()
            invariant
                i <= items@.len(),
                strs_view(names@) == texts_among(items_view(items@).take(i as int)),
            decreases items@.len() - i,
        {
            let ghost all = items_view(items@);
            proof {
                assert(all.take(i + 1).drop_last() =~= all.take(i as int));
                assert(all.take(i + 1).last() == items@[i as int]@);
            }
            if let Some(s) = items[i].as_str() {
                let name = s.to_owned();
                proof {
                    assert(strs_view(names@.push(name)) =~= strs_view(names@).push(name@));
                }
                names.push(name);
            }
            i = i + 1;
        }
        proof {
            assert(items_view(items@).take(i as int) =~= items_view(items@));
        }
    } else {
        proof {
            assert(strs_view(names@) =~= Seq::empty());
        }
    }
    let val = if v.get("val").is_null() {
        None
    } else {
        Some(code(v.get("val")))
    };
    Hyp {
        names,
        ty: code(v.get("type")),
        val,
        is_instance: flag(v, "isInstance", false),
        is_type: flag(v, "isType", false),
        is_inserted: flag(v, "isInserted", false),
        is_removed: flag(v, "isRemoved", false),
    }
}

/// Converts an `InteractiveGoal`.
pub fn conv_goal(v: &Json) -> (r: Goal)
    ensures
        r@ == goal_of(v@),
        field(v@, "hyps"@) matches JsonV::Array(items) ==> r.hyps@.len() == items.len() && (
        forall|i: int| 0 <= i < items.len() ==> (#[trigger] r.hyps@[i])@ == hyp_of(items[i])),
        field(v@, "hyps"@) !is Array ==> r.hyps@.len() == 0,
{
    let mut hyps: Vec<Hyp> = Vec::new();
    let ghost all = items_of(field(v@, "hyps"@));
    if let Some(items) = v.get("hyps").as_array() {
        let mut i: usize = 0;
        while i < items.len()
            invariant
                i <= items@.len(),
                all == items_view(items@),
                hyps@.len() == i,
                forall|k: int| 0 <= k < i ==> (#[trigger] hyps@[k])@ == hyp_of(all[k]),
            decreases items@.len() - i,
        {
            hyps.push(conv_hyp(&items[i]));
            i = i + 1;
        }
    }
    proof {
        assert(hyps_view(hyps@) =~= all.map_values(|h: JsonV| hyp_of(h)));
    }
    Goal {
        name: own_opt(v.get("userName").as_str()),
        prefix: string_or(v, "goalPrefix", "⊢ "),
        hyps,
        target: code(v.get("type")),
        is_inserted: flag(v, "isInserted", false),
        is_removed: flag(v, "isRemoved", false),
    }
}

/// Converts an `InteractiveTermGoal` (same core, no name/prefix).
pub fn conv_term_goal(v: &Json) -> (r: Goal)
    ensures
        r@ == term_goal_of(v@),
        r.name is None,
        field(v@, "hyps"@) matches JsonV::Array(items) ==> r.hyps@.len() == items.len() && (
        forall|i: int| 0 <= i < items.len() ==> (#[trigger] r.hyps@[i])@ == hyp_of(items[i])),
        field(v@, "hyps"@) !is Array ==> r.hyps@.len() == 0,
{
    let mut g = conv_goal(v);
    g.name = None;
    g
}

pub open spec fn text_segs(spans: Seq<TextSpanV>) -> Seq<SegV> {
    spans.map_values(|s: TextSpanV| SegV::Text(s))
}

/// The segments of a `TaggedText<MsgEmbed>`. Texts keep the diff tag around
/// them; an embedded expression, goal or trace is shown as such; what cannot
/// be shown is replaced by its alternative text. The seed gives trace nodes
/// ids that depend on where they are in the message.
pub open spec fn msg_segs(tt: JsonV, diff: Option<Seq<char>>, seed: u64) -> Seq<SegV>
    decreases tt, 0nat,
    via msg_segs_decreases
{
    if let Some(text) = str_of(field(tt, "text"@)) {
        seq![SegV::Text(TextSpanV { text, diff })]
    } else if let Some(parts) = array_of(field(tt, "append"@)) {
        parts_segs(parts, parts.len(), diff, seed)
    } else if let Some(pair) = array_of(field(tt, "tag"@)) {
        if pair.len() == 2 {
            let embed = pair[0];
            let shown = field(field(embed, "widget"@), "alt"@);
            if field(embed, "expr"@) !is Null {
                text_segs(code_spans(field(embed, "expr"@), diff))
            } else if field(embed, "goal"@) !is Null {
                seq![SegV::Goal(goal_of(field(embed, "goal"@)))]
            } else if field(embed, "trace"@) !is Null {
                seq![SegV::Trace(trace_of(field(embed, "trace"@), seed))]
            } else if field(embed, "widget"@) !is Null && shown !is Null {
                msg_segs(shown, diff, mixed(seed, 1))
            } else {
                msg_segs(pair[1], diff, mixed(seed, 1))
            }
        } else {
            Seq::empty()
        }
    } else {
        Seq::empty()
    }
}

/// The segments of the first `n` parts.
pub open spec fn parts_segs(
    parts: Seq<JsonV>,
    n: nat,
    diff: Option<Seq<char>>,
    seed: u64,
) -> Seq<SegV>
    decreases parts, n,
{
    if n == 0 || n > parts.len() {
        Seq::empty()
    } else {
        parts_segs(parts, (n - 1) as nat, diff, seed) + msg_segs(
            parts[n - 1],
            diff,
            mixed(seed, (n - 1) as u64),
        )
    }
}

/// The id of a trace node of that class.
pub open spec fn trace_id(cls: Seq<char>, seed: u64) -> u32 {
    mixed(seed, fnv1a_hash(encode_utf8(cls))) as u32
}

/// The trace node that a `TraceEmbed` shows. Its children are there, or the
/// pointer is kept by which they can be fetched.
pub open spec fn trace_of(tr: JsonV, seed: u64) -> TraceV
    decreases tr, 0nat,
    via trace_of_decreases
{
    let cls = str_or(field(tr, "cls"@), "trace"@);
    let id = trace_id(cls, seed);
    let strict = array_of(field(field(tr, "children"@), "strict"@));
    let lazy = field(field(tr, "children"@), "lazy"@);
    TraceV {
        id,
        cls,
        header: if field(tr, "msg"@) is Null {
            Seq::empty()
        } else {
            msg_segs(field(tr, "msg"@), None, mixed(id as u64, 1))
        },
        children: match strict {
            Some(list) => children_segs(list, id as u64),
            None => Seq::empty(),
        },
        collapsed: bool_or(field(tr, "collapsed"@), true),
        truncated: strict is None && lazy !is Null,
        lazy_ptr: if strict is None && lazy !is Null {
            Some(lazy)
        } else {
            None
        },
    }
}

/// The segments of each child of a trace node with that id.
pub open spec fn children_segs(list: Seq<JsonV>, seed: u64) -> Seq<Seq<SegV>>
    decreases list, 0nat,
{
    Seq::new(
        list.len(),
        |i: int|
            if 0 <= i < list.len() {
                msg_segs(list[i], None, mixed(seed, (i as u64).wrapping_add(2)))
            } else {
                Seq::empty()
            },
    )
}

pub proof fn lemma_embed_smaller(tt: JsonV, key: Seq<char>)
    requires
        array_of(field(tt, "tag"@)) is Some,
        array_of(field(tt, "tag"@))->0.len() == 2,
    ensures
        ({
            let pair = array_of(field(tt, "tag"@))->0;
            let inner = field(pair[0], key);
            let shown = field(inner, "alt"@);
            &&& decreases_to!(tt => pair[1])
            &&& inner !is Null ==> decreases_to!(tt => inner)
            &&& shown !is Null ==> decreases_to!(tt => shown)
        }),
{
    let pair = array_of(field(tt, "tag"@))->0;
    lemma_array_smaller(tt, "tag"@);
    assert(decreases_to!(tt => pair[0]));
    assert(decreases_to!(tt => pair[1]));
    lemma_field_smaller(pair[0], key);
    lemma_field_smaller(field(pair[0], key), "alt"@);
}

pub proof fn lemma_trace_smaller(tr: JsonV)
    ensures
        field(tr, "msg"@) !is Null ==> decreases_to!(tr => field(tr, "msg"@)),
        array_of(field(field(tr, "children"@), "strict"@)) matches Some(list) ==> decreases_to!(
            tr => list),
{
    lemma_field_smaller(tr, "msg"@);
    lemma_field_smaller(tr, "children"@);
    lemma_array_smaller(field(tr, "children"@), "strict"@);
}

#[via_fn]
proof fn msg_segs_decreases(tt: JsonV, diff: Option<Seq<char>>, seed: u64) {
    lemma_array_smaller(tt, "append"@);
    if let Some(pair) = array_of(field(tt, "tag"@)) {
        if pair.len() == 2 {
            lemma_embed_smaller(tt, "trace"@);
            lemma_embed_smaller(tt, "widget"@);
        }
    }
}

#[via_fn]
proof fn trace_of_decreases(tr: JsonV, seed: u64) {
    lemma_trace_smaller(tr);
}

/// Converts a `TaggedText<MsgEmbed>` (diagnostic message / trace body).
pub fn conv_msg(tt: &Json, diff: Option<&str>, seed: u64, out: &mut Vec<MsgSeg>)
    ensures
        segs_view(final(out)@) == segs_view(old(out)@) + msg_segs(tt@, opt_str_view(diff), seed),
    decreases tt@, 0nat,
{
    let ghost before = segs_view(out@);
    let ghost d = opt_str_view(diff);
    proof {
        lemma_array_smaller(tt@, "append"@);
        assert(before + Seq::<SegV>::empty() =~= before);
    }
    if let Some(s) = tt.get("text").as_str() {
        let seg = MsgSeg::Text(TextSpan { text: s.to_owned(), diff: own_opt(diff) });
        proof {
            lemma_segs_push(out@, seg);
            assert(before.push(seg@) =~= before + seq![seg@]);
        }
        out.push(seg);
    } else if let Some(parts) = tt.get("append").as_array() {
        let ghost ps = items_view(parts@);
        let mut i: usize = 0;
        proof {
            assert(parts_segs(ps, 0, d, seed) =~= Seq::empty());
        }
        while i < parts.len()
            invariant
                i <= parts@.len(),
                ps == items_view(parts@),
                d == opt_str_view(diff),
                forall|k: int| 0 <= k < ps.len() ==> decreases_to!(tt@ => #[trigger] ps[k]),
                segs_view(out@) == before + parts_segs(ps, i as nat, d, seed),
            decreases parts@.len() - i,
        {
            assert(ps[i as int] == parts@[i as int]@);
            conv_msg(&parts[i], diff, mix(seed, i as u64), out);
            proof {
                assert(before + parts_segs(ps, i as nat, d, seed) + msg_segs(
                    ps[i as int],
                    d,
                    mixed(seed, i as u64),
                ) =~= before + parts_segs(ps, (i + 1) as nat, d, seed));
            }
            i = i + 1;
        }
    } else if let Some(pair) = tt.get("tag").as_array() {
        if pair.len() == 2 {
            let embed = &pair[0];
            let alt = &pair[1];
            proof {
                let ps = items_view(pair@);
                assert(ps[0] == embed@ && ps[1] == alt@);
                lemma_embed_smaller(tt@, "trace"@);
                lemma_embed_smaller(tt@, "widget"@);
            }
            if !embed.get("expr").is_null() {
                conv_expr(embed.get("expr"), diff, out);
            } else if !embed.get("goal").is_null() {
                let seg = MsgSeg::Goal(conv_goal(embed.get("goal")));
                proof {
                    lemma_segs_push(out@, seg);
                    assert(before.push(seg@) =~= before + seq![seg@]);
                }
                out.push(seg);
            } else if !embed.get("trace").is_null() {
                let seg = MsgSeg::Trace(conv_trace(embed.get("trace"), seed));
                proof {
                    lemma_segs_push(out@, seg);
                    assert(before.push(seg@) =~= before + seq![seg@]);
                }
                out.push(seg);
            } else if !embed.get("widget").is_null() {
                // User widgets cannot render in a TUI: use the alt text.
                let shown = embed.get("widget").get("alt");
                if shown.is_null() {
                    conv_msg(alt, diff, mix(seed, 1), out);
                } else {
                    conv_msg(shown, diff, mix(seed, 1), out);
                }
            } else {
                conv_msg(alt, diff, mix(seed, 1), out);
            }
        }
    }
}

/// Appends the spans of an embedded expression.
fn conv_expr(tt: &Json, diff: Option<&str>, out: &mut Vec<MsgSeg>)
    ensures
        segs_view(final(out)@) == segs_view(old(out)@) + text_segs(
            code_spans(tt@, opt_str_view(diff)),
        ),
{
    let ghost before = segs_view(out@);
    let mut spans: Vec<TextSpan> = Vec::new();
    flatten_code(tt, diff, &mut spans);
    let ghost all = spans@;
    proof {
        assert(spans_view(Seq::empty()) + code_spans(tt@, opt_str_view(diff)) =~= code_spans(
            tt@,
            opt_str_view(diff),
        ));
        assert(before + text_segs(spans_view(all)).take(0) =~= before);
    }
    for span in it: spans
        invariant
            it.seq() == all,
            segs_view(out@) == before + text_segs(spans_view(all)).take(it.index()),
    {
        let seg = MsgSeg::Text(span);
        proof {
            let k = it.index();
            let t = text_segs(spans_view(all));
            lemma_segs_push(out@, seg);
            assert(t[k] == seg@);
            assert((before + t.take(k)).push(seg@) =~= before + t.take(k + 1));
        }
        out.push(seg);
    }
    proof {
        let t = text_segs(spans_view(all));
        assert(t.take(t.len() as int) =~= t);
    }
}

fn conv_trace(tr: &Json, seed: u64) -> (r: TraceNode)
    ensures
        r@ == trace_of(tr@, seed),
    decreases tr@, 0nat,
{
    let cls = string_or(tr, "cls", "trace");
    let id: u32 = mix(seed, fnv1a(cls.as_str().as_bytes())) as u32;
    let mut header: Vec<MsgSeg> = Vec::new();
    proof {
        lemma_trace_smaller(tr@);
        assert(segs_view(header@) =~= Seq::empty());
    }
    if !tr.get("msg").is_null() {
        conv_msg(tr.get("msg"), None, mix(id as u64, 1), &mut header);
        proof {
            let h = msg_segs(field(tr@, "msg"@), None, mixed(id as u64, 1));
            assert(Seq::<SegV>::empty() + h =~= h);
        }
    }
    let mut node = TraceNode {
        id,
        cls,
        header,
        children: Vec::new(),
        collapsed: flag(tr, "collapsed", true),
        truncated: false,
        lazy_ptr: None,
    };
    proof {
        assert(blocks_view(node.children@) =~= Seq::empty());
    }
    if let Some(strict) = tr.get("children").get("strict").as_array() {
        node.children = conv_children(strict, id as u64);
    } else if !tr.get("children").get("lazy").is_null() {
        node.lazy_ptr = Some(tr.get("children").get("lazy").clone());
        node.truncated = true;
    }
    node
}

/// Converts a list of `TaggedText<MsgEmbed>` children of a trace node.
pub fn conv_children(list: &Vec<Json>, seed: u64) -> (r: Vec<Vec<MsgSeg>>)
    ensures
        blocks_view(r@) == children_segs(items_view(list@), seed),
    decreases items_view(list@), 0nat,
{
    let ghost all = items_view(list@);
    let mut blocks: Vec<Vec<MsgSeg>> = Vec::new();
    let mut i: usize = 0;
    while i < list.len()
        invariant
            i <= list@.len(),
            all == items_view(list@),
            blocks@.len() == i,
            forall|k: int|
                0 <= k < i ==> segs_view((#[trigger] blocks@[k])@) == msg_segs(
                    all[k],
                    None,
                    mixed(seed, (k as u64).wrapping_add(2)),
                ),
        decreases list@.len() - i,
    {
        let mut out: Vec<MsgSeg> = Vec::new();
        proof {
            assert(all[i as int] == list@[i as int]@);
            assert(decreases_to!(all => all[i as int]));
        }
        conv_msg(&list[i], None, mix(seed, (i as u64).wrapping_add(2)), &mut out);
        proof {
            let m = msg_segs(all[i as int], None, mixed(seed, (i as u64).wrapping_add(2)));
            assert(segs_view(Seq::empty()) + m =~= m);
        }
        blocks.push(out);
        i = i + 1;
    }
    proof {
        assert(blocks_view(blocks@) =~= children_segs(all, seed));
    }
    blocks
}

/// The number, or the default where there is none.
pub open spec fn unsigned_or(j: JsonV, default: u64) -> u64 {
    match unsigned_of(j) {
        Some(n) => n,
        None => default,
    }
}

pub fn u64_or(j: &Json, default: u64) -> (r: u64)
    ensures
        r == unsigned_or(j@, default),
{
    match j.as_u64() {
        Some(n) => n,
        None => default,
    }
}

/// The seed of the trace ids in the message of a diagnostic. It comes from the
/// position, not from the list index, so trace ids survive list shifts.
pub open spec fn diag_seed(line: u64, column: u64) -> u64 {
    mixed(mixed(fnv1a_hash(encode_utf8("diag"@)), line), column)
}

/// The diagnostic that an `InteractiveDiagnostic` shows, wherever in the list it
/// stands.
pub open spec fn diag_of(v: JsonV, index: nat) -> DiagV {
    let start = field(field(v, "range"@), "start"@);
    let line = unsigned_or(field(start, "line"@), 0);
    let column = unsigned_or(field(start, "character"@), 0);
    DiagV {
        line: line as u32,
        column: column as u32,
        severity: unsigned_or(field(v, "severity"@), 1) as u8,
        message: msg_segs(field(v, "message"@), None, diag_seed(line, column)),
    }
}

/// Converts an `InteractiveDiagnostic`. Its index in the list does not count.
pub fn conv_interactive_diag(v: &Json, _index: usize) -> (r: Diag)
    ensures
        r@ == diag_of(v@, _index as nat),
        field(v@, "severity"@) matches JsonV::Unsigned(n) ==> (n <= u8::MAX ==> r.severity == n),
        field(v@, "severity"@) !is Unsigned ==> r.severity == 1,
{
    let start = v.get("range").get("start");
    let line = u64_or(start.get("line"), 0);
    let column = u64_or(start.get("character"), 0);
    // Seed from position, not list index, so trace ids survive list shifts.
    let seed = mix(mix(fnv1a("diag".as_bytes()), line), column);
    let mut message: Vec<MsgSeg> = Vec::new();
    conv_msg(v.get("message"), None, seed, &mut message);
    proof {
        let m = msg_segs(field(v@, "message"@), None, seed);
        assert(segs_view(Seq::empty()) + m =~= m);
    }
    Diag {
        line: line as u32,
        column: column as u32,
        severity: u64_or(v.get("severity"), 1) as u8,
        message,
    }
}

/// Every trace node (pre-order), including nested ones.
pub open spec fn traces_in(segs: Seq<SegV>) -> Seq<TraceV>
    decreases segs,
{
    if segs.len() == 0 {
        Seq::empty()
    } else {
        traces_in(segs.drop_last()) + seg_traces(segs.last())
    }
}

pub open spec fn seg_traces(seg: SegV) -> Seq<TraceV>
    decreases seg,
{
    match seg {
        SegV::Trace(node) => node_traces(node),
        _ => Seq::empty(),
    }
}

pub open spec fn node_traces(node: TraceV) -> Seq<TraceV>
    decreases node,
{
    seq![node] + traces_in(node.header) + blocks_traces(node.children)
}

pub open spec fn blocks_traces(blocks: Seq<Seq<SegV>>) -> Seq<TraceV>
    decreases blocks,
{
    if blocks.len() == 0 {
        Seq::empty()
    } else {
        blocks_traces(blocks.drop_last()) + traces_in(blocks.last())
    }
}

pub open spec fn nodes_view(nodes: Seq<&TraceNode>) -> Seq<TraceV> {
    nodes.map_values(|n: &TraceNode| n@)
}

/// Visits every trace node (pre-order), including nested ones.
pub fn visit_traces<'a>(segs: &'a Vec<MsgSeg>, out: &mut Vec<&'a TraceNode>)
    ensures
        nodes_view(final(out)@) == nodes_view(old(out)@) + traces_in(segs_view(segs@)),
    decreases *segs,
{
    let ghost before = nodes_view(out@);
    let ghost all = segs_view(segs@);
    let mut i: usize = 0;
    proof {
        assert(all.take(0) =~= Seq::empty());
        assert(before + Seq::<TraceV>::empty() =~= before);
    }
    while i < segs.len()
        invariant
            i <= segs@.len(),
            all == segs_view(segs@),
            nodes_view(out@) == before + traces_in(all.take(i as int)),
        decreases segs@.len() - i,
    {
        let ghost mid = nodes_view(out@);
        proof {
            assert(all.take(i + 1).drop_last() =~= all.take(i as int));
            assert(all.take(i + 1).last() == segs@[i as int]@);
            assert(decreases_to!(segs => segs[i as int]));
        }
        if let MsgSeg::Trace(node) = &segs[i] {
            visit_node(node, out);
        } else {
            proof {
                assert(mid + Seq::<TraceV>::empty() =~= mid);
            }
        }
        proof {
            assert(nodes_view(out@) =~= mid + seg_traces(all[i as int]));
            assert(nodes_view(out@) =~= before + traces_in(all.take(i + 1)));
        }
        i = i + 1;
    }
    proof {
        assert(all.take(i as int) =~= all);
    }
}

fn visit_node<'a>(node: &'a TraceNode, out: &mut Vec<&'a TraceNode>)
    ensures
        nodes_view(final(out)@) == nodes_view(old(out)@) + node_traces(node@),
    decreases *node,
{
    let ghost before = nodes_view(out@);
    let ghost all = blocks_view(node.children@);
    out.push(node);
    proof {
        assert(nodes_view(out@) =~= before + seq![node@]);
    }
    visit_traces(&node.header, out);
    let ghost mid = nodes_view(out@);
    let mut i: usize = 0;
    proof {
        assert(all.take(0) =~= Seq::empty());
        assert(mid + Seq::<TraceV>::empty() =~= mid);
    }
    while i < node.children.len()
        invariant
            i <= node.children@.len(),
            all == blocks_view(node.children@),
            nodes_view(out@) == mid + blocks_traces(all.take(i as int)),
        decreases node.children@.len() - i,
    {
        proof {
            assert(all.take(i + 1).drop_last() =~= all.take(i as int));
            assert(all.take(i + 1).last() == segs_view(node.children@[i as int]@));
            assert(decreases_to!(*node => node.children));
            assert(decreases_to!(node.children => node.children[i as int]));
        }
        visit_traces(&node.children[i], out);
        proof {
            assert(nodes_view(out@) =~= mid + blocks_traces(all.take(i + 1)));
        }
        i = i + 1;
    }
    proof {
        assert(all.take(i as int) =~= all);
        assert(nodes_view(out@) =~= before + node_traces(node@));
    }
}

/// The pointers to lazy children that the nodes hold, in order.
pub open spec fn lazy_ptrs(nodes: Seq<TraceV>) -> Seq<JsonV>
    decreases nodes.len(),
{
    if nodes.len() == 0 {
        Seq::empty()
    } else {
        match nodes.last().lazy_ptr {
            Some(ptr) => lazy_ptrs(nodes.drop_last()).push(ptr),
            None => lazy_ptrs(nodes.drop_last()),
        }
    }
}

pub proof fn lemma_lazy_ptrs_add(a: Seq<TraceV>, b: Seq<TraceV>)
    ensures
        lazy_ptrs(a + b) == lazy_ptrs(a) + lazy_ptrs(b),
    decreases b.len(),
{
    if b.len() == 0 {
        assert(a + b =~= a);
        assert(lazy_ptrs(a) + lazy_ptrs(b) =~= lazy_ptrs(a));
    } else {
        lemma_lazy_ptrs_add(a, b.drop_last());
        assert((a + b).drop_last() =~= a + b.drop_last());
        assert((a + b).last() == b.last());
        assert(lazy_ptrs(a + b) =~= lazy_ptrs(a) + lazy_ptrs(b));
    }
}

/// The segments with no pointer to lazy children left.
pub open spec fn without_ptrs(segs: Seq<SegV>) -> Seq<SegV>
    decreases segs,
{
    Seq::new(
        segs.len(),
        |i: int|
            if 0 <= i < segs.len() {
                seg_without_ptrs(segs[i])
            } else {
                arbitrary()
            },
    )
}

pub open spec fn seg_without_ptrs(seg: SegV) -> SegV
    decreases seg,
{
    match seg {
        SegV::Trace(node) => SegV::Trace(node_without_ptrs(node)),
        _ => seg,
    }
}

pub open spec fn node_without_ptrs(node: TraceV) -> TraceV
    decreases node,
{
    TraceV {
        header: without_ptrs(node.header),
        children: Seq::new(
            node.children.len(),
            |i: int|
                if 0 <= i < node.children.len() {
                    without_ptrs(node.children[i])
                } else {
                    arbitrary()
                },
        ),
        lazy_ptr: None,
        ..node
    }
}

/// Visits every trace node (pre-order), including nested ones, mutably, and
/// takes the pointers to lazy children out of them.
pub fn visit_traces_mut(segs: &mut Vec<MsgSeg>, out: &mut Vec<Json>)
    ensures
        segs_view(final(segs)@) == without_ptrs(segs_view(old(segs)@)),
        items_view(final(out)@) == items_view(old(out)@) + lazy_ptrs(
            traces_in(segs_view(old(segs)@)),
        ),
    decreases segs_view(old(segs)@), 0nat,
{
    let ghost before = items_view(out@);
    let ghost all = segs_view(segs@);
    let n: usize = segs.len();
    let mut i: usize = 0;
    proof {
        assert(all.take(0) =~= Seq::empty());
        assert(before + Seq::<JsonV>::empty() =~= before);
    }
    while i < n
        invariant
            i <= n,
            n == segs@.len(),
            n == all.len(),
            all == segs_view(old(segs)@),
            forall|k: int| 0 <= k < i ==> (#[trigger] segs@[k])@ == seg_without_ptrs(all[k]),
            forall|k: int| i <= k < n ==> (#[trigger] segs@[k])@ == all[k],
            items_view(out@) == before + lazy_ptrs(traces_in(all.take(i as int))),
        decreases n - i,
    {
        let ghost mid = items_view(out@);
        proof {
            assert(all.take(i + 1).drop_last() =~= all.take(i as int));
            assert(all.take(i + 1).last() == all[i as int]);
            lemma_lazy_ptrs_add(traces_in(all.take(i as int)), seg_traces(all[i as int]));
            assert(decreases_to!(all => all[i as int]));
            assert(mid + Seq::<JsonV>::empty() =~= mid);
        }
        match &mut segs[i] {
            MsgSeg::Trace(node) => {
                visit_node_mut(node, out);
            },
            _ => {},
        }
        proof {
            assert(items_view(out@) =~= before + lazy_ptrs(traces_in(all.take(i + 1))));
        }
        i = i + 1;
    }
    proof {
        assert(all.take(i as int) =~= all);
        assert(segs_view(segs@) =~= without_ptrs(all));
    }
}

fn visit_node_mut(node: &mut TraceNode, out: &mut Vec<Json>)
    ensures
        final(node)@ == node_without_ptrs(old(node)@),
        items_view(final(out)@) == items_view(old(out)@) + lazy_ptrs(node_traces(old(node)@)),
    decreases old(node)@, 0nat,
{
    let ghost before = items_view(out@);
    let ghost start = node@;
    let ghost all = blocks_view(node.children@);
    proof {
        assert(lazy_ptrs(seq![start]) =~= match start.lazy_ptr {
            Some(ptr) => seq![ptr],
            None => Seq::empty(),
        }) by {
            reveal_with_fuel(lazy_ptrs, 2);
            assert(seq![start].drop_last() =~= Seq::empty());
        }
        lemma_lazy_ptrs_add(seq![start], traces_in(start.header));
        lemma_lazy_ptrs_add(seq![start] + traces_in(start.header), blocks_traces(start.children));
        assert(before + Seq::<JsonV>::empty() =~= before);
    }
    match node.lazy_ptr.take() {
        Some(ptr) => {
            proof {
                lemma_items_push(out@, ptr);
                assert(before.push(ptr@) =~= before + seq![ptr@]);
            }
            out.push(ptr);
        },
        None => {},
    }
    proof {
        assert(decreases_to!(start => start.header));
    }
    visit_traces_mut(&mut node.header, out);
    let ghost mid = items_view(out@);
    let n: usize = node.children.len();
    let mut i: usize = 0;
    proof {
        assert(all.take(0) =~= Seq::empty());
        assert(mid + Seq::<JsonV>::empty() =~= mid);
    }
    while i < n
        invariant
            i <= n,
            n == node.children@.len(),
            n == all.len(),
            start == old(node)@,
            all == start.children,
            node.id == start.id,
            node.cls@ == start.cls,
            node.collapsed == start.collapsed,
            node.truncated == start.truncated,
            node.lazy_ptr is None,
            segs_view(node.header@) == without_ptrs(start.header),
            forall|k: int|
                0 <= k < i ==> segs_view((#[trigger] node.children@[k])@) == without_ptrs(all[k]),
            forall|k: int| i <= k < n ==> segs_view((#[trigger] node.children@[k])@) == all[k],
            items_view(out@) == mid + lazy_ptrs(blocks_traces(all.take(i as int))),
        decreases n - i,
    {
        proof {
            assert(all.take(i + 1).drop_last() =~= all.take(i as int));
            assert(all.take(i + 1).last() == all[i as int]);
            lemma_lazy_ptrs_add(blocks_traces(all.take(i as int)), traces_in(all[i as int]));
            assert(decreases_to!(start => start.children));
            assert(decreases_to!(all => all[i as int]));
        }
        visit_traces_mut(&mut node.children[i], out);
        proof {
            assert(items_view(out@) =~= mid + lazy_ptrs(blocks_traces(all.take(i + 1))));
        }
        i = i + 1;
    }
    proof {
        assert(all.take(i as int) =~= all);
        assert(items_view(out@) =~= before + lazy_ptrs(node_traces(start)));
        assert(blocks_view(node.children@) =~= node_without_ptrs(start).children);
    }
}

/// Whether a value is an RpcPtr: an object with the single member `p`.
pub open spec fn is_ptr(j: Json) -> bool {
    j matches Json::Object(members) && members@.len() == 1 && members@[0].key@ == "p"@
}

/// Every RpcPtr in a value, in the order in which they stand there. What is
/// within an RpcPtr does not count.
pub open spec fn ptrs_in(j: Json) -> Seq<JsonV>
    decreases j,
{
    match j {
        Json::Object(members) => if is_ptr(j) {
            seq![j@]
        } else {
            members_ptrs(members@)
        },
        Json::Array(items) => items_ptrs(items@),
        _ => Seq::empty(),
    }
}

pub open spec fn members_ptrs(members: Seq<Member>) -> Seq<JsonV>
    decreases members,
{
    if members.len() == 0 {
        Seq::empty()
    } else {
        members_ptrs(members.drop_last()) + ptrs_in(members.last().value)
    }
}

pub open spec fn items_ptrs(items: Seq<Json>) -> Seq<JsonV>
    decreases items,
{
    if items.len() == 0 {
        Seq::empty()
    } else {
        items_ptrs(items.drop_last()) + ptrs_in(items.last())
    }
}

/// What RpcPtrs a value holds is told by what it says, once its members are in
/// order.
pub proof fn pointers_of_equal_values(a: Json, b: Json)
    requires
        canonical(a),
        canonical(b),
        a@ == b@,
    ensures
        ptrs_in(a) == ptrs_in(b),
    decreases a,
{
    match (a, b) {
        (Json::Object(m), Json::Object(n)) => {
            assert(members_canonical(m@) && members_canonical(n@));
            assert(members_view(m@) == members_view(n@));
            lemma_same_members(m@, n@);
            assert forall|i: int| 0 <= i < m@.len() implies ptrs_in((#[trigger] m@[i]).value)
                == ptrs_in(n@[i].value) by {
                assert(decreases_to!(a => a->Object_0));
                assert(decreases_to!(m => m[i]));
                assert(decreases_to!(m[i] => m[i].value));
                pointers_of_equal_values(m@[i].value, n@[i].value);
            }
            lemma_members_ptrs(m@, n@);
        },
        (Json::Array(m), Json::Array(n)) => {
            assert(items_view(m@) == items_view(n@));
            assert(m@.len() == items_view(m@).len());
            assert(n@.len() == items_view(n@).len());
            assert forall|i: int| 0 <= i < m@.len() implies ptrs_in(#[trigger] m@[i]) == ptrs_in(
                n@[i],
            ) by {
                assert(items_view(m@)[i] == m@[i]@);
                assert(items_view(n@)[i] == n@[i]@);
                assert(decreases_to!(a => a->Array_0));
                assert(decreases_to!(m => m[i]));
                pointers_of_equal_values(m@[i], n@[i]);
            }
            lemma_items_ptrs(m@, n@);
        },
        _ => {},
    }
}

proof fn lemma_members_ptrs(m: Seq<Member>, n: Seq<Member>)
    requires
        m.len() == n.len(),
        forall|i: int|
            0 <= i < m.len() ==> ptrs_in((#[trigger] m[i]).value) == ptrs_in(n[i].value),
    ensures
        members_ptrs(m) == members_ptrs(n),
    decreases m.len(),
{
    if m.len() > 0 {
        assert forall|i: int| 0 <= i < m.len() - 1 implies ptrs_in(
            (#[trigger] m.drop_last()[i]).value,
        ) == ptrs_in(n.drop_last()[i].value) by {
            assert(m.drop_last()[i] == m[i]);
        }
        lemma_members_ptrs(m.drop_last(), n.drop_last());
        assert(m.last() == m[m.len() - 1]);
    }
}

proof fn lemma_items_ptrs(m: Seq<Json>, n: Seq<Json>)
    requires
        m.len() == n.len(),
        forall|i: int| 0 <= i < m.len() ==> ptrs_in(#[trigger] m[i]) == ptrs_in(n[i]),
    ensures
        items_ptrs(m) == items_ptrs(n),
    decreases m.len(),
{
    if m.len() > 0 {
        assert forall|i: int| 0 <= i < m.len() - 1 implies ptrs_in(#[trigger] m.drop_last()[i])
            == ptrs_in(n.drop_last()[i]) by {
            assert(m.drop_last()[i] == m[i]);
        }
        lemma_items_ptrs(m.drop_last(), n.drop_last());
        assert(m.last() == m[m.len() - 1]);
    }
}

/// Collects every RpcPtr (single-key `{"p": …}` object) in a raw response.
pub fn collect_ptrs(v: &Json, out: &mut Vec<Json>)
    ensures
        items_view(final(out)@) == items_view(old(out)@) + ptrs_in(*v),
    decreases *v,
{
    let ghost before = items_view(out@);
    proof {
        assert(before + Seq::<JsonV>::empty() =~= before);
    }
    match v {
        Json::Object(members) => {
            if members.len() == 1 && str_eq(members[0].key.as_str(), "p") {
                let ptr = v.clone();
                proof {
                    lemma_items_push(out@, ptr);
                    assert(before.push(ptr@) =~= before + seq![v@]);
                }
                out.push(ptr);
            } else {
                let mut i: usize = 0;
                while i < members.len()
                    invariant
                        i <= members@.len(),
                        *v == Json::Object(*members),
                        items_view(out@) == before + members_ptrs(members@.take(i as int)),
                    decreases members@.len() - i,
                {
                    proof {
                        assert(members@.take(i + 1).drop_last() =~= members@.take(i as int));
                        assert(members@.take(i + 1).last() == members@[i as int]);
                        assert(decreases_to!(*v => v->Object_0));
                        assert(decreases_to!(members => members[i as int]));
                        assert(decreases_to!(members[i as int] => members[i as int].value));
                    }
                    collect_ptrs(&members[i].value, out);
                    proof {
                        assert(items_view(out@) =~= before + members_ptrs(members@.take(i + 1)));
                    }
                    i = i + 1;
                }
                proof {
                    assert(members@.take(i as int) =~= members@);
                }
            }
        },
        Json::Array(items) => {
            let mut i: usize = 0;
            while i < items.len()
                invariant
                    i <= items@.len(),
                    *v == Json::Array(*items),
                    items_view(out@) == before + items_ptrs(items@.take(i as int)),
                decreases items@.len() - i,
            {
                proof {
                    assert(items@.take(i + 1).drop_last() =~= items@.take(i as int));
                    assert(items@.take(i + 1).last() == items@[i as int]);
                    assert(decreases_to!(*v => v->Array_0));
                    assert(decreases_to!(items => items[i as int]));
                }
                collect_ptrs(&items[i], out);
                proof {
                    assert(items_view(out@) =~= before + items_ptrs(items@.take(i + 1)));
                }
                i = i + 1;
            }
            proof {
                assert(items@.take(i as int) =~= items@);
            }
        },
        _ => {},
    }
}

/// How many segments come before the first that holds a trace node of that id.
pub open spec fn seg_pos(segs: Seq<SegV>, id: u32) -> nat
    decreases segs,
{
    if segs.len() == 0 || seg_has(segs[0], id) {
        0
    } else {
        1 + seg_pos(segs.drop_first(), id)
    }
}

/// Whether a segment is or holds a trace node of that id.
pub open spec fn seg_has(seg: SegV, id: u32) -> bool
    decreases seg,
{
    match seg {
        SegV::Trace(node) => node.id == id || seg_pos(node.header, id) < node.header.len()
            || block_pos(node.children, id) < node.children.len(),
        _ => false,
    }
}

/// How many blocks come before the first that holds a trace node of that id.
pub open spec fn block_pos(blocks: Seq<Seq<SegV>>, id: u32) -> nat
    decreases blocks,
{
    if blocks.len() == 0 || seg_pos(blocks[0], id) < blocks[0].len() {
        0
    } else {
        1 + block_pos(blocks.drop_first(), id)
    }
}

/// Whether some trace node has that id.
pub open spec fn has_trace(segs: Seq<SegV>, id: u32) -> bool {
    seg_pos(segs, id) < segs.len()
}

/// The first trace node of that id (pre-order).
pub open spec fn found_trace(segs: Seq<SegV>, id: u32) -> Option<TraceV>
    decreases segs, 0nat,
{
    let i = seg_pos(segs, id);
    if i < segs.len() {
        match segs[i as int] {
            SegV::Trace(node) => found_in_node(node, id),
            _ => None,
        }
    } else {
        None
    }
}

pub open spec fn found_in_node(node: TraceV, id: u32) -> Option<TraceV>
    decreases node, 0nat,
{
    let j = block_pos(node.children, id);
    if node.id == id {
        Some(node)
    } else if has_trace(node.header, id) {
        found_trace(node.header, id)
    } else if j < node.children.len() {
        found_trace(node.children[j as int], id)
    } else {
        None
    }
}

/// The segments with the first trace node of that id replaced.
pub open spec fn with_trace(segs: Seq<SegV>, id: u32, new: TraceV) -> Seq<SegV>
    decreases segs, 0nat,
{
    let i = seg_pos(segs, id);
    if i < segs.len() {
        match segs[i as int] {
            SegV::Trace(node) => segs.update(i as int, SegV::Trace(node_with(node, id, new))),
            _ => segs,
        }
    } else {
        segs
    }
}

pub open spec fn node_with(node: TraceV, id: u32, new: TraceV) -> TraceV
    decreases node, 0nat,
{
    let j = block_pos(node.children, id);
    if node.id == id {
        new
    } else if has_trace(node.header, id) {
        TraceV { header: with_trace(node.header, id, new), ..node }
    } else if j < node.children.len() {
        TraceV {
            children: node.children.update(
                j as int,
                with_trace(node.children[j as int], id, new),
            ),
            ..node
        }
    } else {
        node
    }
}

fn first_seg(segs: &Vec<MsgSeg>, id: u32) -> (r: usize)
    ensures
        r == seg_pos(segs_view(segs@), id),
        r <= segs@.len(),
    decreases *segs,
{
    let ghost all = segs_view(segs@);
    let mut i: usize = 0;
    proof {
        assert(all.skip(0) =~= all);
    }
    while i < segs.len()
        invariant
            i <= segs@.len(),
            all == segs_view(segs@),
            seg_pos(all, id) == i + seg_pos(all.skip(i as int), id),
        decreases segs@.len() - i,
    {
        proof {
            assert(all.skip(i as int)[0] == segs@[i as int]@);
            assert(all.skip(i as int).drop_first() =~= all.skip(i + 1));
            assert(decreases_to!(segs => segs[i as int]));
        }
        if let MsgSeg::Trace(node) = &segs[i] {
            proof {
                assert(segs@[i as int]@ == SegV::Trace(node@));
                assert(node@.header == segs_view(node.header@));
                assert(node@.children == blocks_view(node.children@));
            }
            if node.id == id {
                assert(seg_has(all[i as int], id));
                return i;
            }
            if first_seg(&node.header, id) < node.header.len() {
                assert(seg_has(all[i as int], id));
                return i;
            }
            if first_block(&node.children, id) < node.children.len() {
                assert(seg_has(all[i as int], id));
                return i;
            }
        }
        assert(!seg_has(all[i as int], id));
        i = i + 1;
    }
    i
}

fn first_block(blocks: &Vec<Vec<MsgSeg>>, id: u32) -> (r: usize)
    ensures
        r == block_pos(blocks_view(blocks@), id),
        r <= blocks@.len(),
    decreases *blocks,
{
    let ghost all = blocks_view(blocks@);
    let mut i: usize = 0;
    proof {
        assert(all.skip(0) =~= all);
    }
    while i < blocks.len()
        invariant
            i <= blocks@.len(),
            all == blocks_view(blocks@),
            block_pos(all, id) == i + block_pos(all.skip(i as int), id),
        decreases blocks@.len() - i,
    {
        proof {
            assert(all.skip(i as int)[0] == segs_view(blocks@[i as int]@));
            assert(all.skip(i as int).drop_first() =~= all.skip(i + 1));
            assert(decreases_to!(blocks => blocks[i as int]));
        }
        if first_seg(&blocks[i], id) < blocks[i].len() {
            return i;
        }
        i = i + 1;
    }
    i
}

/// Finds the first trace node of that id (pre-order).
pub fn find_trace_mut(segs: &mut Vec<MsgSeg>, id: u32) -> (r: Option<&mut TraceNode>)
    ensures
        match r {
            Some(node) => found_trace(segs_view(old(segs)@), id) == Some(node@) && segs_view(
                final(segs)@,
            ) == with_trace(segs_view(old(segs)@), id, final(node)@),
            None => found_trace(segs_view(old(segs)@), id) is None && segs_view(final(segs)@)
                == segs_view(old(segs)@),
        },
    decreases segs_view(old(segs)@), 0nat,
{
    let ghost all = segs_view(segs@);
    let i = first_seg(segs, id);
    if i < segs.len() {
        assert(decreases_to!(all => all[i as int]));
        match &mut segs[i] {
            MsgSeg::Trace(node) => find_in_node(node, id),
            _ => None,
        }
    } else {
        None
    }
}

fn find_in_node(node: &mut TraceNode, id: u32) -> (r: Option<&mut TraceNode>)
    ensures
        match r {
            Some(n) => found_in_node(old(node)@, id) == Some(n@) && final(node)@ == node_with(
                old(node)@,
                id,
                final(n)@,
            ),
            None => found_in_node(old(node)@, id) is None && final(node)@ == old(node)@,
        },
    decreases old(node)@, 0nat,
{
    let ghost start = node@;
    proof {
        assert(start.header == segs_view(node.header@));
        assert(start.children == blocks_view(node.children@));
    }
    if node.id == id {
        return Some(node);
    }
    if first_seg(&node.header, id) < node.header.len() {
        return find_trace_mut(&mut node.header, id);
    }
    let j = first_block(&node.children, id);
    if j < node.children.len() {
        let ghost c = node.children@;
        proof {
            assert forall|x: Vec<MsgSeg>|
                blocks_view(#[trigger] c.update(j as int, x)) == blocks_view(c).update(
                    j as int,
                    segs_view(x@),
                ) by {
                assert(blocks_view(c.update(j as int, x)) =~= blocks_view(c).update(
                    j as int,
                    segs_view(x@),
                ));
            }
            assert(blocks_view(c).update(j as int, segs_view(c[j as int]@)) =~= blocks_view(c));
            assert(decreases_to!(start => start.children));
            assert(decreases_to!(start.children => start.children[j as int]));
        }
        return find_trace_mut(&mut node.children[j], id);
    }
    None
}

/// A trace node is found exactly where some node has the id, and it has the id.
pub proof fn lemma_found(segs: Seq<SegV>, id: u32)
    ensures
        found_trace(segs, id) is Some <==> has_trace(segs, id),
        found_trace(segs, id) matches Some(node) ==> node.id == id,
    decreases segs, 0nat,
{
    let i = seg_pos(segs, id) as int;
    if i < segs.len() {
        lemma_seg_pos(segs, id);
        assert(decreases_to!(segs => segs[i]));
        if let SegV::Trace(node) = segs[i] {
            lemma_found_in_node(node, id);
        }
    }
}

proof fn lemma_found_in_node(node: TraceV, id: u32)
    ensures
        found_in_node(node, id) is Some <==> seg_has(SegV::Trace(node), id),
        found_in_node(node, id) matches Some(n) ==> n.id == id,
    decreases node, 0nat,
{
    lemma_found(node.header, id);
    let j = block_pos(node.children, id) as int;
    if j < node.children.len() {
        lemma_block_pos(node.children, id);
        assert(decreases_to!(node => node.children));
        assert(decreases_to!(node.children => node.children[j]));
        lemma_found(node.children[j], id);
    }
}

pub proof fn lemma_seg_pos(segs: Seq<SegV>, id: u32)
    ensures
        seg_pos(segs, id) <= segs.len(),
        forall|k: int| 0 <= k < seg_pos(segs, id) ==> !seg_has(#[trigger] segs[k], id),
        seg_pos(segs, id) < segs.len() ==> seg_has(segs[seg_pos(segs, id) as int], id),
    decreases segs.len(),
{
    if segs.len() > 0 && !seg_has(segs[0], id) {
        let rest = segs.drop_first();
        lemma_seg_pos(rest, id);
        assert forall|k: int| 0 <= k < seg_pos(segs, id) implies !seg_has(#[trigger] segs[k], id) by {
            if k > 0 {
                assert(segs[k] == rest[k - 1]);
            }
        }
    }
}

pub proof fn lemma_block_pos(blocks: Seq<Seq<SegV>>, id: u32)
    ensures
        block_pos(blocks, id) <= blocks.len(),
        forall|k: int| 0 <= k < block_pos(blocks, id) ==> !has_trace(#[trigger] blocks[k], id),
        block_pos(blocks, id) < blocks.len() ==> has_trace(blocks[block_pos(blocks, id) as int], id),
    decreases blocks.len(),
{
    if blocks.len() > 0 && !has_trace(blocks[0], id) {
        let rest = blocks.drop_first();
        lemma_block_pos(rest, id);
        assert forall|k: int| 0 <= k < block_pos(blocks, id) implies !has_trace(
            #[trigger] blocks[k],
            id,
        ) by {
            if k > 0 {
                assert(blocks[k] == rest[k - 1]);
            }
        }
    }
}

/// Whether some trace node has that id.
pub fn holds_trace(segs: &Vec<MsgSeg>, id: u32) -> (r: bool)
    ensures
        r == has_trace(segs_view(segs@), id),
{
    first_seg(segs, id) < segs.len()
}

/// Replacing the trace node that is found by itself changes nothing.
pub proof fn replacing_by_itself_changes_nothing(segs: Seq<SegV>, id: u32)
    ensures
        found_trace(segs, id) matches Some(node) ==> with_trace(segs, id, node) == segs,
    decreases segs, 0nat,
{
    let i = seg_pos(segs, id) as int;
    if i < segs.len() {
        assert(decreases_to!(segs => segs[i]));
        if let SegV::Trace(node) = segs[i] {
            lemma_node_with_itself(node, id);
            if let Some(n) = found_trace(segs, id) {
                assert(with_trace(segs, id, n) =~= segs);
            }
        }
    }
}

proof fn lemma_node_with_itself(node: TraceV, id: u32)
    ensures
        found_in_node(node, id) matches Some(n) ==> node_with(node, id, n) == node,
    decreases node, 0nat,
{
    replacing_by_itself_changes_nothing(node.header, id);
    let j = block_pos(node.children, id) as int;
    if j < node.children.len() {
        assert(decreases_to!(node => node.children));
        assert(decreases_to!(node.children => node.children[j]));
        replacing_by_itself_changes_nothing(node.children[j], id);
        if let Some(n) = found_in_node(node, id) {
            assert(node_with(node, id, n).children =~= node.children);
        }
    }
}

} // verus!
