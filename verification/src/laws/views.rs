//! What data says: each member of it says what it holds.

use crate::convert::nodes_view;
use crate::json::{items_view, Json};
use crate::proxy::{actions_view, Action, Cursor, ExpandReq};
use crate::render::{lines_view, parts_view, Line, Span};
use crate::state::{
    blocks_view, diags_view, goals_view, hyps_view, no_state, segs_view, spans_view, Diag, Goal,
    Hyp, InfoviewState, MsgSeg, TextSpan, TraceNode,
};
use crate::text::{opt_str_view, opt_view, strs_view};
use crate::watch::App;
use vstd::prelude::*;

verus! {

/// A text span says its text and its diff tag.
pub proof fn text_spans_say_what_they_hold(x: TextSpan)
    ensures
        x@.text == x.text@,
        x.diff is None <==> x@.diff is None,
        x.diff matches Some(d) ==> x@.diff == Some(d@),
{
}

/// A hypothesis says all its names, all spans of its type and value, and its
/// marks.
pub proof fn hypotheses_say_what_they_hold(x: Hyp, i: int)
    ensures
        x@.names.len() == x.names@.len(),
        0 <= i < x.names@.len() ==> x@.names[i] == x.names@[i]@,
        x@.ty.len() == x.ty@.len(),
        0 <= i < x.ty@.len() ==> x@.ty[i] == x.ty@[i]@,
        x.val is None <==> x@.val is None,
        x.val matches Some(v) ==> x@.val->0.len() == v@.len(),
        x.val matches Some(v) ==> (0 <= i < v@.len() ==> x@.val->0[i] == v@[i]@),
        x@.is_instance == x.is_instance,
        x@.is_type == x.is_type,
        x@.is_inserted == x.is_inserted,
        x@.is_removed == x.is_removed,
{
}

/// A goal says its name and prefix, all its hypotheses, all spans of its target,
/// and its marks.
pub proof fn goals_say_what_they_hold(x: Goal, i: int)
    ensures
        x.name is None <==> x@.name is None,
        x.name matches Some(s) ==> x@.name == Some(s@),
        x@.prefix == x.prefix@,
        x@.hyps.len() == x.hyps@.len(),
        0 <= i < x.hyps@.len() ==> x@.hyps[i] == x.hyps@[i]@,
        x@.target.len() == x.target@.len(),
        0 <= i < x.target@.len() ==> x@.target[i] == x.target@[i]@,
        x@.is_inserted == x.is_inserted,
        x@.is_removed == x.is_removed,
{
}

/// A trace node says its id and class, all segments of its header and of each of
/// its children, its marks and its pointer.
pub proof fn trace_nodes_say_what_they_hold(x: TraceNode, i: int, k: int)
    ensures
        x@.id == x.id,
        x@.cls == x.cls@,
        x@.header.len() == x.header@.len(),
        0 <= i < x.header@.len() ==> x@.header[i] == x.header@[i]@,
        x@.children.len() == x.children@.len(),
        0 <= i < x.children@.len() ==> x@.children[i].len() == x.children@[i]@.len(),
        0 <= i < x.children@.len() && 0 <= k < x.children@[i]@.len() ==> x@.children[i][k]
            == x.children@[i]@[k]@,
        x@.collapsed == x.collapsed,
        x@.truncated == x.truncated,
        x.lazy_ptr is None <==> x@.lazy_ptr is None,
        x.lazy_ptr matches Some(j) ==> x@.lazy_ptr == Some(j@),
{
}

/// A segment says what it is.
pub proof fn segments_say_what_they_hold(span: TextSpan, goal: Goal, node: TraceNode)
    ensures
        MsgSeg::Text(span)@ is Text && MsgSeg::Text(span)@->Text_0 == span@,
        MsgSeg::Goal(goal)@ is Goal && MsgSeg::Goal(goal)@->Goal_0 == goal@,
        MsgSeg::Trace(node)@ is Trace && MsgSeg::Trace(node)@->Trace_0 == node@,
{
}

/// A diagnostic says its position and severity, and all segments of its message.
pub proof fn diagnostics_say_what_they_hold(x: Diag, i: int)
    ensures
        x@.line == x.line,
        x@.column == x.column,
        x@.severity == x.severity,
        x@.message.len() == x.message@.len(),
        0 <= i < x.message@.len() ==> x@.message[i] == x.message@[i]@,
{
}

/// The state says the file and the position, all goals, the expected type, all
/// diagnostics, and how the server is.
pub proof fn states_say_what_they_hold(x: InfoviewState, i: int)
    ensures
        x.uri is None <==> x@.uri is None,
        x.uri matches Some(s) ==> x@.uri == Some(s@),
        x@.line == x.line,
        x@.column == x.column,
        x.goals is None <==> x@.goals is None,
        x.goals matches Some(g) ==> x@.goals->0.len() == g@.len(),
        x.goals matches Some(g) ==> (0 <= i < g@.len() ==> x@.goals->0[i] == g@[i]@),
        x.term_goal is None <==> x@.term_goal is None,
        x.term_goal matches Some(g) ==> x@.term_goal == Some(g@),
        x@.diagnostics.len() == x.diagnostics@.len(),
        0 <= i < x.diagnostics@.len() ==> x@.diagnostics[i] == x.diagnostics@[i]@,
        x@.processing == x.processing,
        x@.server_alive == x.server_alive,
{
}

/// A cursor says where it is, a pending fetch what it was asked for with, and an
/// action what is to be done.
pub proof fn actions_say_what_they_hold(c: Cursor, e: ExpandReq, j: Json, s: String)
    ensures
        c@.uri == c.uri@,
        c@.line == c.line,
        c@.character == c.character,
        e@.generation == e.generation,
        e@.node_id == e.node_id,
        e@.uri == e.uri@,
        e@.ptr == e.ptr@,
        Action::Send(j)@ is Send && Action::Send(j)@->Send_0 == j@,
        Action::Broadcast@ is Broadcast,
        Action::StartSocket(s)@ is StartSocket && Action::StartSocket(s)@->StartSocket_0 == s@,
{
}

/// A line says all its spans, each with its text and style.
pub proof fn lines_say_what_they_hold(x: Line, s: Span, i: int)
    ensures
        s@.text == s.text@,
        s@.style == s.style,
        x@.len() == x.spans@.len(),
        0 <= i < x.spans@.len() ==> x@[i] == x.spans@[i]@,
{
}

/// The watcher says what it is told and what the user chose.
pub proof fn watchers_say_what_they_hold(x: App)
    ensures
        x@.state == x.state@,
        x@.scroll == x.scroll,
        x@.look.overrides == x.fold_overrides@,
        x@.look.focus == x.focus,
        x@.folds == x.folds@,
{
}

/// Lists say what each of their items says, one for one.
pub proof fn lists_say_each_item(
    spans: Seq<TextSpan>,
    hyps: Seq<Hyp>,
    goals: Seq<Goal>,
    segs: Seq<MsgSeg>,
    blocks: Seq<Vec<MsgSeg>>,
    diags: Seq<Diag>,
    i: int,
)
    ensures
        spans_view(spans).len() == spans.len(),
        0 <= i < spans.len() ==> spans_view(spans)[i] == spans[i]@,
        hyps_view(hyps).len() == hyps.len(),
        0 <= i < hyps.len() ==> hyps_view(hyps)[i] == hyps[i]@,
        goals_view(goals).len() == goals.len(),
        0 <= i < goals.len() ==> goals_view(goals)[i] == goals[i]@,
        segs_view(segs).len() == segs.len(),
        0 <= i < segs.len() ==> segs_view(segs)[i] == segs[i]@,
        blocks_view(blocks).len() == blocks.len(),
        0 <= i < blocks.len() ==> blocks_view(blocks)[i] == segs_view(blocks[i]@),
        diags_view(diags).len() == diags.len(),
        0 <= i < diags.len() ==> diags_view(diags)[i] == diags[i]@,
{
}

/// So do lists of texts, of JSON values, of trace nodes, of actions, of spans and
/// of lines, and a text that may be missing.
pub proof fn other_lists_say_each_item(
    texts: Seq<String>,
    items: Seq<Json>,
    nodes: Seq<&TraceNode>,
    actions: Seq<Action>,
    parts: Seq<Span>,
    lines: Seq<Line>,
    text: String,
    i: int,
)
    ensures
        strs_view(texts).len() == texts.len(),
        0 <= i < texts.len() ==> strs_view(texts)[i] == texts[i]@,
        items_view(items).len() == items.len(),
        0 <= i < items.len() ==> items_view(items)[i] == items[i]@,
        nodes_view(nodes).len() == nodes.len(),
        0 <= i < nodes.len() ==> nodes_view(nodes)[i] == nodes[i]@,
        actions_view(actions).len() == actions.len(),
        0 <= i < actions.len() ==> actions_view(actions)[i] == actions[i]@,
        parts_view(parts).len() == parts.len(),
        0 <= i < parts.len() ==> parts_view(parts)[i] == parts[i]@,
        lines_view(lines).len() == lines.len(),
        0 <= i < lines.len() ==> lines_view(lines)[i] == lines[i]@,
        opt_view(Some(text)) == Some(text@),
        opt_view(None) is None,
        opt_str_view(None) is None,
        forall|s: &str| #[trigger] opt_str_view(Some(s)) == Some(s@),
{
}

/// Before anything is known there is no file, no goal, no expected type and no
/// diagnostic, the position is the beginning, and no server runs.
pub proof fn nothing_is_known_before()
    ensures
        no_state().uri is None,
        no_state().line == 0,
        no_state().column == 0,
        no_state().goals is None,
        no_state().term_goal is None,
        no_state().diagnostics.len() == 0,
        !no_state().processing,
        !no_state().server_alive,
{
}

} // verus!
