//! What the proxy does on each message and command, told by the messages that
//! come in and go out.

use crate::convert::{
    blocks_traces, children_segs, code_spans, diag_of, goal_of, hyp_of, items_of, lazy_ptrs, mixed,
    msg_segs, ptrs_in, traces_in,
};
use crate::json::{field, json_text, lemma_member, member, Json, JsonV};
use crate::laws::conversion::{lemma_blocks, pointers_of_nodes};
use crate::laws::lookup::{
    is_first, node_of_diagnostics_is_the_first, nodes_of_diagnostics, nodes_shown,
};
use crate::laws::messages::{
    asks_for_session, calls, calls_name_their_arguments, frees, releases_name_the_references,
    session_requests_name_the_file,
};
use crate::laws::proxy::{
    answers_reach_their_request, lemma_kinds, lemma_node_id, replaced_node_of_diagnostics_is_found,
};
use crate::laws::text::cutting_at_the_first;
use crate::messages::own_id;
use crate::model::{
    command_handled, cursor_in, node_of, not_kept, ptr_texts, released, server_handled,
    session_ensured, shown_freed, with_node, ActionV, CursorV, ExpandV, ProxyV, RPC_NEEDS_RECONNECT,
};
use crate::state::{DiagV, GoalV, SegV, StateV, TraceV};
use vstd::prelude::*;

verus! {

/// Whether nothing is known otherwise than before but what is shown, and of that
/// nothing but the diagnostics, the requests for children that are pending, and
/// the number of the next request.
pub open spec fn only_expansion_differs(p: ProxyV, q: ProxyV) -> bool {
    &&& q.cursor == p.cursor
    &&& q.plain_diags == p.plain_diags
    &&& q.sessions == p.sessions
    &&& q.pending_connect == p.pending_connect
    &&& q.pending_goal == p.pending_goal
    &&& q.generation == p.generation
    &&& q.diag_generation == p.diag_generation
    &&& q.diag_uri == p.diag_uri
    &&& q.state == (StateV { diagnostics: q.state.diagnostics, ..p.state })
}

/// Where a trace node of any of the diagnostics has the id that a watcher asks
/// for, the first such node holds a pointer, and the file of the diagnostics has
/// a session, exactly one call goes out: it fetches the children of that node by
/// that pointer. The pointer is the node's no more, and the call is pending.
pub proof fn expanding_fetches_the_children(
    p: ProxyV,
    v: JsonV,
    asked: u64,
    n: u32,
    uri: Seq<char>,
    ptr: JsonV,
    k: int,
)
    requires
        field(v, "expand"@) == JsonV::Unsigned(asked),
        n == asked % 0x1_0000_0000,
        is_first(nodes_shown(p.state.diagnostics), k, n),
        nodes_shown(p.state.diagnostics)[k].lazy_ptr == Some(ptr),
        p.diag_uri == Some(uri),
        p.sessions.contains_key(uri),
    ensures
        ({
            let s = command_handled(p, v);
            let id = own_id("x"@, p.next_req);
            let node = nodes_shown(p.state.diagnostics)[k];
            let (line, character) = if p.cursor is Some && p.cursor->0.uri == uri {
                (p.cursor->0.line, p.cursor->0.character)
            } else {
                (0, 0)
            };
            &&& s.actions.len() == 1
            &&& s.actions[0] is Send
            &&& calls(
                s.actions[0]->Send_0,
                id,
                p.sessions[uri],
                uri,
                line,
                character,
                "Lean.Widget.lazyTraceChildrenToInteractive"@,
                ptr,
            )
            &&& only_expansion_differs(p, s.proxy)
            &&& s.proxy.next_req == p.next_req.wrapping_add(1)
            &&& s.proxy.pending_expand == p.pending_expand.insert(
                id,
                ExpandV { generation: p.diag_generation, node_id: n, uri, ptr },
            )
            &&& node_of(s.proxy.state.diagnostics, n) == Some(TraceV { lazy_ptr: None, ..node })
            &&& s.proxy.state.diagnostics == with_node(
                p.state.diagnostics,
                n,
                TraceV { lazy_ptr: None, ..node },
            )
        }),
{
    let diags = p.state.diagnostics;
    let node = nodes_shown(diags)[k];
    node_of_diagnostics_is_the_first(diags, n, k);
    replaced_node_of_diagnostics_is_found(diags, n, TraceV { lazy_ptr: None, ..node });
    assert(asked as u32 == asked % 0x1_0000_0000) by (bit_vector);
    let at = if cursor_in(p, uri) {
        p.cursor->0
    } else {
        CursorV { uri, line: 0, character: 0 }
    };
    calls_name_their_arguments(
        own_id("x"@, p.next_req),
        p.sessions[uri],
        uri,
        at.line,
        at.character,
        "Lean.Widget.lazyTraceChildrenToInteractive"@,
        ptr,
    );
}

/// Where there is nothing to fetch, or nothing to fetch it with, a command does
/// nothing: no trace node of any diagnostic has the id, the first that has it
/// holds no pointer, the file of the diagnostics has no session, or the command
/// names no id.
pub proof fn other_commands_do_nothing(p: ProxyV, v: JsonV, n: u32, k: int)
    requires
        ({
            let nodes = nodes_shown(p.state.diagnostics);
            ||| field(v, "expand"@) !is Unsigned
            ||| field(v, "expand"@) == JsonV::Unsigned(n as u64) && {
                ||| forall|j: int| 0 <= j < nodes.len() ==> (#[trigger] nodes[j]).id != n
                ||| is_first(nodes, k, n) && nodes[k].lazy_ptr is None
                ||| p.diag_uri is None
                ||| !p.sessions.contains_key(p.diag_uri->0)
            }
        }),
    ensures
        command_handled(p, v).actions.len() == 0,
        command_handled(p, v).proxy == p,
{
    node_of_diagnostics_is_the_first(p.state.diagnostics, n, k);
    assert(n as u64 as u32 == n);
}

/// Whether a message answers the pending request of that kind of the last wave.
pub open spec fn answers_last_wave(p: ProxyV, v: Json, kind: Seq<char>) -> bool {
    let id = own_id(kind, p.generation);
    &&& field(v@, "id"@) == JsonV::Str(id)
    &&& field(v@, "method"@) !is Str
    &&& field(v@, "error"@) is Null
    &&& p.pending_goal.contains_key(id)
}

/// Whether nothing is known otherwise than before but what is shown, and that
/// one request is pending no more.
pub open spec fn only_answered(p: ProxyV, q: ProxyV, id: Seq<char>) -> bool {
    &&& q.cursor == p.cursor
    &&& q.plain_diags == p.plain_diags
    &&& q.sessions == p.sessions
    &&& q.pending_connect == p.pending_connect
    &&& q.pending_goal == p.pending_goal.remove(id)
    &&& q.pending_expand == p.pending_expand
    &&& q.generation == p.generation
    &&& q.next_req == p.next_req
}

/// Where the goals are answered, as many are shown as the answer holds, each of
/// them converted at its place; where the answer is `null` none are shown, and
/// the cursor is in no proof.
pub proof fn goals_that_are_answered_are_shown(p: ProxyV, v: Json, items: Seq<JsonV>, i: int)
    requires
        answers_last_wave(p, v, "g"@),
    ensures
        ({
            let result = field(v@, "result"@);
            let q = server_handled(p, v).proxy;
            let goals = q.state.goals;
            &&& result is Null <==> goals is None
            &&& field(result, "goals"@) == JsonV::Array(items) ==> goals is Some && goals->0.len()
                == items.len()
            &&& field(result, "goals"@) == JsonV::Array(items) && 0 <= i < items.len()
                ==> goals->0[i] == goal_of(items[i])
            &&& result !is Null && field(result, "goals"@) !is Array ==> goals->0.len() == 0
            &&& q.state == (StateV { goals, ..p.state })
            &&& only_answered(p, q, own_id("g"@, p.generation))
            &&& q.diag_generation == p.diag_generation
            &&& q.diag_uri == p.diag_uri
        }),
{
    lemma_kinds();
    lemma_member(v, "result"@);
    answers_reach_their_request(p, v, "g"@, p.generation);
}

/// Where the expected type is answered, it is shown: it has no name, as many
/// hypotheses as the answer holds, each of them converted at its place, and the
/// target that the answer gives; where the answer is `null` none is shown.
pub proof fn expected_type_that_is_answered_is_shown(p: ProxyV, v: Json, items: Seq<JsonV>, i: int)
    requires
        answers_last_wave(p, v, "t"@),
    ensures
        ({
            let result = field(v@, "result"@);
            let q = server_handled(p, v).proxy;
            let term = q.state.term_goal;
            &&& result is Null <==> term is None
            &&& result !is Null ==> term->0.name is None && term->0 == (GoalV {
                name: None,
                ..goal_of(result)
            }) && term->0.target == code_spans(field(result, "type"@), None)
            &&& field(result, "hyps"@) == JsonV::Array(items) ==> term is Some
                && term->0.hyps.len() == items.len()
            &&& field(result, "hyps"@) == JsonV::Array(items) && 0 <= i < items.len()
                ==> term->0.hyps[i] == hyp_of(items[i])
            &&& q.state == (StateV { term_goal: term, ..p.state })
            &&& only_answered(p, q, own_id("t"@, p.generation))
            &&& q.diag_generation == p.diag_generation
            &&& q.diag_uri == p.diag_uri
        }),
{
    lemma_kinds();
    lemma_member(v, "result"@);
    answers_reach_their_request(p, v, "t"@, p.generation);
}

/// Where the diagnostics are answered, as many are shown as the answer holds,
/// each of them converted at its place. They are of the last wave and of the
/// file that was asked about.
pub proof fn diagnostics_that_are_answered_are_shown(
    p: ProxyV,
    v: Json,
    items: Seq<JsonV>,
    i: int,
    index: nat,
)
    requires
        answers_last_wave(p, v, "d"@),
    ensures
        ({
            let result = field(v@, "result"@);
            let id = own_id("d"@, p.generation);
            let q = server_handled(p, v).proxy;
            let diags = q.state.diagnostics;
            &&& result == JsonV::Array(items) ==> diags.len() == items.len()
            &&& result == JsonV::Array(items) && 0 <= i < items.len() ==> diags[i] == diag_of(
                items[i],
                index,
            )
            &&& result !is Array ==> diags.len() == 0
            &&& q.state == (StateV { diagnostics: diags, ..p.state })
            &&& only_answered(p, q, id)
            &&& q.diag_generation == p.generation
            &&& q.diag_uri == Some(p.pending_goal[id])
        }),
{
    lemma_kinds();
    lemma_member(v, "result"@);
    answers_reach_their_request(p, v, "d"@, p.generation);
}

/// Whether these actions are all there is: at most one message that frees
/// references, and only where there are any and the file has its session.
pub open spec fn frees_exactly(
    actions: Seq<ActionV>,
    p: ProxyV,
    uri: Seq<char>,
    refs: Seq<JsonV>,
) -> bool {
    if refs.len() > 0 && p.sessions.contains_key(uri) {
        &&& actions.len() == 1
        &&& actions[0] is Send
        &&& frees(actions[0]->Send_0, uri, p.sessions[uri], refs)
    } else {
        actions.len() == 0
    }
}

/// References are freed all at once, where there are any and the file has its
/// session.
pub proof fn references_are_freed_at_once(p: ProxyV, uri: Seq<char>, refs: Seq<JsonV>)
    ensures
        frees_exactly(released(p, uri, refs), p, uri, refs),
{
    if p.sessions.contains_key(uri) {
        releases_name_the_references(uri, p.sessions[uri], refs);
    }
}

/// Of the references, those are left out whose text is among the ones that are
/// kept; the others stay, in order.
pub proof fn references_that_are_kept_are_left_out(refs: Seq<JsonV>, kept: Seq<JsonV>)
    ensures
        not_kept(refs, ptr_texts(kept)) == refs.filter(
            |x: JsonV|
                !(exists|k: int|
                    0 <= k < kept.len() && #[trigger] json_text(kept[k]) == json_text(x)),
        ),
    decreases refs.len(),
{
    reveal(Seq::filter);
    if refs.len() > 0 {
        let x = refs.last();
        references_that_are_kept_are_left_out(refs.drop_last(), kept);
        let texts = ptr_texts(kept);
        if texts.contains(json_text(x)) {
            let k = texts.index_of(json_text(x));
            assert(json_text(kept[k]) == json_text(x));
        }
        if exists|k: int| 0 <= k < kept.len() && #[trigger] json_text(kept[k]) == json_text(x) {
            let k = choose|k: int|
                0 <= k < kept.len() && #[trigger] json_text(kept[k]) == json_text(x);
            assert(texts[k] == json_text(x));
        }
    }
}

/// The pointers that the diagnostics hold.
pub open spec fn pointers_held(diags: Seq<DiagV>) -> Seq<JsonV> {
    nodes_shown(diags).filter(|n: TraceV| n.lazy_ptr is Some).map_values(
        |n: TraceV| n.lazy_ptr->0,
    )
}

/// Where the goals or the expected type of the last wave are answered, all
/// references in the answer are freed; then watchers are told.
pub proof fn answers_free_references(p: ProxyV, v: Json, kind: Seq<char>)
    requires
        kind == "g"@ || kind == "t"@,
        answers_last_wave(p, v, kind),
    ensures
        ({
            let s = server_handled(p, v);
            let uri = p.pending_goal[own_id(kind, p.generation)];
            &&& s.actions.len() > 0
            &&& s.actions.last() == ActionV::Broadcast
            &&& frees_exactly(s.actions.drop_last(), p, uri, ptrs_in(member(v, "result"@)))
        }),
{
    lemma_kinds();
    answers_reach_their_request(p, v, kind, p.generation);
    let uri = p.pending_goal[own_id(kind, p.generation)];
    let refs = ptrs_in(member(v, "result"@));
    let q = ProxyV { pending_goal: p.pending_goal.remove(own_id(kind, p.generation)), ..p };
    references_are_freed_at_once(q, uri, refs);
    assert(server_handled(p, v).actions.drop_last() =~= released(q, uri, refs));
}

/// Where diagnostics are answered, of the references in the answer those are
/// freed that the new diagnostics do not hold, then those that the diagnostics
/// before still held; then watchers are told.
pub proof fn answered_diagnostics_free_references(p: ProxyV, v: Json)
    requires
        answers_last_wave(p, v, "d"@),
    ensures
        ({
            let s = server_handled(p, v);
            let uri = p.pending_goal[own_id("d"@, p.generation)];
            let kept = pointers_held(s.proxy.state.diagnostics);
            let refs = ptrs_in(member(v, "result"@)).filter(
                |x: JsonV|
                    !(exists|k: int|
                        0 <= k < kept.len() && #[trigger] json_text(kept[k]) == json_text(x)),
            );
            let dropped = pointers_held(p.state.diagnostics);
            let first = if refs.len() > 0 && p.sessions.contains_key(uri) {
                1int
            } else {
                0
            };
            &&& s.actions.len() > first
            &&& s.actions.last() == ActionV::Broadcast
            &&& frees_exactly(s.actions.take(first), p, uri, refs)
            &&& p.diag_uri is None ==> s.actions.len() == first + 1
            &&& p.diag_uri matches Some(shown) ==> frees_exactly(
                s.actions.drop_last().skip(first),
                p,
                shown,
                dropped,
            )
        }),
{
    lemma_kinds();
    lemma_member(v, "result"@);
    answers_reach_their_request(p, v, "d"@, p.generation);
    let s = server_handled(p, v);
    let id = own_id("d"@, p.generation);
    let uri = p.pending_goal[id];
    let q = ProxyV { pending_goal: p.pending_goal.remove(id), ..p };
    let diags = s.proxy.state.diagnostics;
    nodes_of_diagnostics(diags);
    nodes_of_diagnostics(p.state.diagnostics);
    pointers_of_nodes(nodes_shown(diags));
    pointers_of_nodes(nodes_shown(p.state.diagnostics));
    let kept = pointers_held(diags);
    let dropped = pointers_held(p.state.diagnostics);
    let all = ptrs_in(member(v, "result"@));
    let refs = not_kept(all, ptr_texts(kept));
    references_that_are_kept_are_left_out(all, kept);
    references_are_freed_at_once(q, uri, refs);
    let a = released(q, uri, refs);
    let b = shown_freed(q);
    assert(s.actions =~= (a + b).push(ActionV::Broadcast));
    assert(s.actions.take(a.len() as int) =~= a);
    assert(s.actions.drop_last().skip(a.len() as int) =~= b);
    if let Some(shown) = p.diag_uri {
        references_are_freed_at_once(q, shown, dropped);
    }
}

/// What is answered of an older wave is dropped: all of its references are freed
/// and nothing is shown of it. An answer that no request waits for does nothing.
pub proof fn older_answers_are_dropped(p: ProxyV, v: Json, kind: Seq<char>, generation: u64)
    requires
        kind == "g"@ || kind == "t"@ || kind == "d"@,
        field(v@, "id"@) == JsonV::Str(own_id(kind, generation)),
        field(v@, "method"@) !is Str,
        field(v@, "error"@) is Null,
        generation != p.generation || !p.pending_goal.contains_key(own_id(kind, generation)),
    ensures
        ({
            let s = server_handled(p, v);
            let id = own_id(kind, generation);
            &&& !p.pending_goal.contains_key(id) ==> s.proxy == p && s.actions.len() == 0
            &&& p.pending_goal.contains_key(id) ==> s.proxy == (ProxyV {
                pending_goal: p.pending_goal.remove(id),
                ..p
            }) && frees_exactly(
                s.actions,
                p,
                p.pending_goal[id],
                ptrs_in(member(v, "result"@)),
            )
        }),
{
    lemma_kinds();
    answers_reach_their_request(p, v, kind, generation);
    let id = own_id(kind, generation);
    let q = ProxyV { pending_goal: p.pending_goal.remove(id), ..p };
    references_are_freed_at_once(q, p.pending_goal[id], ptrs_in(member(v, "result"@)));
}

/// Where the children of a trace node are answered while the diagnostics are
/// shown that they were asked for, the node has as many children as the answer
/// holds, each of them converted at its place, and is complete; nothing else
/// that is known changes, but that the request is pending no more. Where other
/// diagnostics are shown by now, nothing that is shown changes.
pub proof fn children_that_are_answered_are_shown(
    p: ProxyV,
    v: Json,
    n: u64,
    items: Seq<JsonV>,
    i: int,
)
    requires
        field(v@, "id"@) == JsonV::Str(own_id("x"@, n)),
        field(v@, "method"@) !is Str,
        field(v@, "error"@) is Null,
        field(v@, "result"@) == JsonV::Array(items) || (field(v@, "result"@) !is Array
            && items.len() == 0),
        p.pending_expand.contains_key(own_id("x"@, n)),
    ensures
        ({
            let id = own_id("x"@, n);
            let req = p.pending_expand[id];
            let q = server_handled(p, v).proxy;
            let before = node_of(p.state.diagnostics, req.node_id);
            let after = node_of(q.state.diagnostics, req.node_id);
            &&& q == (ProxyV {
                state: StateV { diagnostics: q.state.diagnostics, ..p.state },
                pending_expand: p.pending_expand.remove(id),
                ..p
            })
            &&& req.generation != p.diag_generation || before is None ==> q.state.diagnostics
                == p.state.diagnostics
            &&& req.generation == p.diag_generation && before is Some ==> {
                &&& after is Some
                &&& q.state.diagnostics == with_node(p.state.diagnostics, req.node_id, after->0)
                &&& after->0.children.len() == items.len()
                &&& 0 <= i < items.len() ==> after->0.children[i] == msg_segs(
                    items[i],
                    None,
                    mixed(req.node_id as u64, (i as u64).wrapping_add(2)),
                )
                &&& !after->0.truncated
                &&& after->0.id == before->0.id
                &&& after->0.cls == before->0.cls
                &&& after->0.header == before->0.header
                &&& after->0.collapsed == before->0.collapsed
                &&& after->0.lazy_ptr == before->0.lazy_ptr
            }
        }),
{
    lemma_kinds();
    lemma_member(v, "result"@);
    answers_reach_their_request(p, v, "x"@, n);
    let id = own_id("x"@, n);
    let req = p.pending_expand[id];
    let diags = p.state.diagnostics;
    assert(items_of(field(v@, "result"@)) =~= items);
    let children = children_segs(items, req.node_id as u64);
    if let Some(node) = node_of(diags, req.node_id) {
        lemma_node_id(diags, req.node_id);
        replaced_node_of_diagnostics_is_found(
            diags,
            req.node_id,
            TraceV { children, truncated: false, ..node },
        );
    }
}

/// Once children are answered, the pointer by which they were fetched is freed
/// and all references in the answer with it, but for those that the children
/// hold where they are shown; then watchers are told.
pub proof fn answered_children_free_references(p: ProxyV, v: Json, n: u64)
    requires
        field(v@, "id"@) == JsonV::Str(own_id("x"@, n)),
        field(v@, "method"@) !is Str,
        field(v@, "error"@) is Null,
        p.pending_expand.contains_key(own_id("x"@, n)),
    ensures
        ({
            let s = server_handled(p, v);
            let req = p.pending_expand[own_id("x"@, n)];
            let all = seq![req.ptr] + ptrs_in(member(v, "result"@));
            let kept = lazy_ptrs(
                children_segs(items_of(field(v@, "result"@)), req.node_id as u64).map_values(
                    |child: Seq<SegV>| traces_in(child),
                ).flatten(),
            );
            &&& req.generation != p.diag_generation ==> frees_exactly(s.actions, p, req.uri, all)
            &&& req.generation == p.diag_generation ==> {
                &&& s.actions.len() > 0
                &&& s.actions.last() == ActionV::Broadcast
                &&& frees_exactly(
                    s.actions.drop_last(),
                    p,
                    req.uri,
                    all.filter(
                        |x: JsonV|
                            !(exists|k: int|
                                0 <= k < kept.len() && #[trigger] json_text(kept[k])
                                    == json_text(x)),
                    ),
                )
            }
        }),
{
    lemma_kinds();
    lemma_member(v, "result"@);
    answers_reach_their_request(p, v, "x"@, n);
    let s = server_handled(p, v);
    let id = own_id("x"@, n);
    let req = p.pending_expand[id];
    let q = ProxyV { pending_expand: p.pending_expand.remove(id), ..p };
    let all = seq![req.ptr] + ptrs_in(member(v, "result"@));
    let children = children_segs(items_of(field(v@, "result"@)), req.node_id as u64);
    let kept = lazy_ptrs(blocks_traces(children));
    lemma_blocks(children);
    references_that_are_kept_are_left_out(all, kept);
    references_are_freed_at_once(q, req.uri, all);
    let some = not_kept(all, ptr_texts(kept));
    references_are_freed_at_once(q, req.uri, some);
    if req.generation == p.diag_generation {
        assert(s.actions.drop_last() =~= released(q, req.uri, some));
    }
}

/// An answer with children that no request waits for does nothing.
pub proof fn unexpected_children_do_nothing(p: ProxyV, v: Json, n: u64)
    requires
        field(v@, "id"@) == JsonV::Str(own_id("x"@, n)),
        field(v@, "method"@) !is Str,
        field(v@, "error"@) is Null,
        !p.pending_expand.contains_key(own_id("x"@, n)),
    ensures
        server_handled(p, v).proxy == p,
        server_handled(p, v).actions.len() == 0,
{
    lemma_kinds();
    answers_reach_their_request(p, v, "x"@, n);
}

/// Whether nothing is known otherwise than before but that a session for that
/// file is asked for: the request goes out unless one is pending already.
pub open spec fn asks_once(p: ProxyV, q: ProxyV, actions: Seq<ActionV>, uri: Seq<char>) -> bool {
    let id = own_id("c"@, p.next_req);
    if exists|x: Seq<char>| #[trigger]
        p.pending_connect.contains_key(x) && p.pending_connect[x] == uri {
        q == p && actions.len() == 0
    } else {
        &&& actions.len() == 1
        &&& actions[0] is Send
        &&& asks_for_session(actions[0]->Send_0, id, uri)
        &&& q == (ProxyV {
            pending_connect: p.pending_connect.insert(id, uri),
            next_req: p.next_req.wrapping_add(1),
            ..p
        })
    }
}

/// A session for a file is asked for unless that was done already.
pub proof fn sessions_are_asked_for(p: ProxyV, uri: Seq<char>)
    ensures
        asks_once(p, session_ensured(p, uri).proxy, session_ensured(p, uri).actions, uri),
{
    session_requests_name_the_file(own_id("c"@, p.next_req), uri);
}

/// An error answers one of the proxy's requests, by its id: that request is pending no
/// more, whatever it was, and the pointer of a fetch is freed. Where the session
/// has expired, the session of the cursor's file is forgotten and another is
/// asked for. Nothing that is shown changes.
pub proof fn errors_end_their_request(p: ProxyV, v: Json, id: Seq<char>)
    requires
        field(v@, "id"@) == JsonV::Str(id),
        "infoview:"@.is_prefix_of(id),
        id.skip("infoview:"@.len() as int).contains(':'),
        field(v@, "method"@) !is Str,
        field(v@, "error"@) !is Null,
    ensures
        ({
            let s = server_handled(p, v);
            let expired = field(field(v@, "error"@), "code"@) matches JsonV::Negative(code) && code
                == -32900;
            let q = ProxyV {
                pending_connect: p.pending_connect.remove(id),
                pending_goal: p.pending_goal.remove(id),
                pending_expand: p.pending_expand.remove(id),
                ..p
            };
            let first = if p.pending_expand.contains_key(id) && p.sessions.contains_key(
                p.pending_expand[id].uri,
            ) {
                1int
            } else {
                0
            };
            &&& s.actions.len() >= first
            &&& p.pending_expand.contains_key(id) ==> frees_exactly(
                s.actions.take(first),
                p,
                p.pending_expand[id].uri,
                seq![p.pending_expand[id].ptr],
            )
            &&& expired && p.cursor is Some ==> asks_once(
                ProxyV { sessions: p.sessions.remove(p.cursor->0.uri), ..q },
                s.proxy,
                s.actions.skip(first),
                p.cursor->0.uri,
            )
            &&& !expired || p.cursor is None ==> s.proxy == q && s.actions.len() == first
            &&& s.proxy.state == p.state
        }),
{
    cutting_at_the_first(id.skip("infoview:"@.len() as int), ':');
    let s = server_handled(p, v);
    let q = ProxyV {
        pending_connect: p.pending_connect.remove(id),
        pending_goal: p.pending_goal.remove(id),
        pending_expand: p.pending_expand.remove(id),
        ..p
    };
    let freed = if p.pending_expand.contains_key(id) {
        released(q, p.pending_expand[id].uri, seq![p.pending_expand[id].ptr])
    } else {
        Seq::empty()
    };
    if p.pending_expand.contains_key(id) {
        references_are_freed_at_once(q, p.pending_expand[id].uri, seq![p.pending_expand[id].ptr]);
    }
    assert(s.actions.take(freed.len() as int) =~= freed);
    if let Some(c) = p.cursor {
        if field(field(v@, "error"@), "code"@) == JsonV::Negative(RPC_NEEDS_RECONNECT) {
            let r = ProxyV { sessions: q.sessions.remove(c.uri), ..q };
            sessions_are_asked_for(r, c.uri);
            assert(s.actions.skip(freed.len() as int) =~= session_ensured(r, c.uri).actions);
        }
    }
}

} // verus!
