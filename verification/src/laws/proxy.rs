//! What holds of the proxy, whatever messages it sees.

use crate::convert::{
    blocks_traces, children_segs, has_trace, items_of, lazy_ptrs, lemma_found, ptrs_in, str_or,
    trace_of, with_trace, without_ptrs,
};
use crate::json::{
    array_of, field, json_parsed, json_text, lemma_member, member, signed_of, str_of, unsigned_of,
    Json, JsonV,
};
use crate::laws::convert::{
    only_pointers_differ, replaced_node_is_found, trace_ids_survive_list_shifts,
};
use crate::messages::{
    connect_request, document_position, keep_alive, own_id, release, request, rpc_request,
    uri_object,
};
use crate::model::{
    advanced, client_inspected, command_handled, connecting, cursor_in, cursor_named, diag_pos,
    diags_answered, diags_published, diags_traces, error_answered, expansion_answered,
    goals_answered, goals_requested, is_own_response, node_of, not_kept, number_or_zero, ptr_texts,
    released, server_gone, server_handled, server_inspected, session_answered, session_ensured,
    shown_freed, started, state_at, stream_handled, term_answered, trace_expanded, wave,
    wave_answered, with_node, ActionV, CursorV, ProxyV, Step,
};
use crate::rpc::{bodies_in, frames, written_messages_read_back};
use crate::state::{fnv1a_hash, socket_name, DiagV, StateV, TraceV};
use crate::text::{
    decimal, decimal_reads_back, first_index, hex_has_its_width, split, split_of_joined_texts,
    split_once, split_then_join,
};
use crate::watch::{expand_command, is_socket_name};
use vstd::prelude::*;
use vstd::utf8::encode_utf8;

verus! {

proof fn lemma_first_index(a: Seq<char>, c: char, b: Seq<char>)
    requires
        !a.contains(c),
    ensures
        first_index(a + seq![c] + b, c) == a.len(),
    decreases a.len(),
{
    let s = a + seq![c] + b;
    if a.len() > 0 {
        let rest = a.drop_first();
        assert(s[0] == a[0]);
        assert(a.contains(a[0]));
        assert(!rest.contains(c)) by {
            if rest.contains(c) {
                let i = rest.index_of(c);
                assert(a[i + 1] == c);
            }
        }
        lemma_first_index(rest, c, b);
        assert(s.drop_first() =~= rest + seq![c] + b);
    } else {
        assert(s[0] == c);
    }
}

/// Of the id of one of the proxy's own requests, the kind and the number can be
/// read back.
pub proof fn own_id_reads_back(kind: Seq<char>, n: u64)
    requires
        !kind.contains(':'),
    ensures
        "infoview:"@.is_prefix_of(own_id(kind, n)),
        split_once(own_id(kind, n).skip("infoview:"@.len() as int), ':') == Some(
            (kind, decimal(n as nat)),
        ),
        number_or_zero(decimal(n as nat)) == n,
{
    let digits = decimal(n as nat);
    let rest = kind + seq![':'] + digits;
    reveal_strlit(":");
    assert(":"@ =~= seq![':']);
    let id = own_id(kind, n);
    let prefix = "infoview:"@;
    assert(id =~= prefix + rest);
    assert(id.skip(prefix.len() as int) =~= rest);
    assert(id.subrange(0, prefix.len() as int) =~= prefix);
    lemma_first_index(kind, ':', digits);
    assert(rest.take(kind.len() as int) =~= kind);
    assert(rest.skip((kind.len() + 1) as int) =~= digits);
    decimal_reads_back(n as nat);
    assert('0' <= digits[0] <= '9');
}

/// Two of the proxy's own requests have the same id only where they are of one
/// kind and have the same number.
pub proof fn own_ids_differ(a: Seq<char>, m: u64, b: Seq<char>, n: u64)
    requires
        !a.contains(':'),
        !b.contains(':'),
        own_id(a, m) == own_id(b, n),
    ensures
        a == b,
        m == n,
{
    own_id_reads_back(a, m);
    own_id_reads_back(b, n);
}

/// The kinds of requests: a session, the goals, the expected type, the
/// diagnostics, the children of a trace node.
pub proof fn lemma_kinds()
    ensures
        !"c"@.contains(':'),
        !"g"@.contains(':'),
        !"t"@.contains(':'),
        !"d"@.contains(':'),
        !"x"@.contains(':'),
        "c"@ != "g"@,
        "c"@ != "t"@,
        "c"@ != "d"@,
        "c"@ != "x"@,
        "g"@ != "t"@,
        "g"@ != "d"@,
        "g"@ != "x"@,
        "t"@ != "d"@,
        "t"@ != "x"@,
        "d"@ != "x"@,
{
    reveal_strlit("c");
    reveal_strlit("g");
    reveal_strlit("t");
    reveal_strlit("d");
    reveal_strlit("x");
    assert("c"@[0] == 'c' && "g"@[0] == 'g' && "t"@[0] == 't' && "d"@[0] == 'd' && "x"@[0] == 'x');
}

/// A message whose id is not a text is never taken as the answer to one of the
/// proxy's own requests: the numeric ids of the client do not collide with them.
pub proof fn other_ids_are_not_ours(v: JsonV)
    requires
        field(v, "id"@) !is Str,
    ensures
        !is_own_response(v),
{
}

/// A message with a method, that is a request or a notification of the server,
/// is never taken as an answer.
pub proof fn requests_are_not_ours(v: JsonV)
    requires
        field(v, "method"@) is Str,
    ensures
        !is_own_response(v),
{
}

/// The answer to one of the proxy's own requests is recognised by its id.
pub proof fn answers_are_recognised(v: JsonV, kind: Seq<char>, n: u64)
    requires
        !kind.contains(':'),
        field(v, "id"@) == JsonV::Str(own_id(kind, n)),
        field(v, "method"@) !is Str,
    ensures
        is_own_response(v),
{
    own_id_reads_back(kind, n);
}

/// The answer to a request reaches what asked for it: it is handled under the
/// kind and the number of the request.
pub proof fn answers_reach_their_request(p: ProxyV, v: Json, kind: Seq<char>, n: u64)
    requires
        kind == "c"@ || kind == "g"@ || kind == "t"@ || kind == "d"@ || kind == "x"@,
        field(v@, "id"@) == JsonV::Str(own_id(kind, n)),
        field(v@, "method"@) !is Str,
    ensures
        ({
            let id = own_id(kind, n);
            let error = field(v@, "error"@);
            let code = match signed_of(field(error, "code"@)) {
                Some(code) => code,
                None => 0,
            };
            server_handled(p, v) == (if error !is Null {
                error_answered(p, id, code)
            } else if kind == "c"@ {
                session_answered(p, id, field(field(v@, "result"@), "sessionId"@))
            } else if kind == "x"@ {
                expansion_answered(p, id, member(v, "result"@))
            } else {
                wave_answered(p, id, kind, n, member(v, "result"@))
            })
        }),
{
    lemma_kinds();
    own_id_reads_back(kind, n);
    answers_are_recognised(v@, kind, n);
}

/// Whether a message is a notification, or a request with an id of the proxy's
/// own.
pub open spec fn is_own_message(m: JsonV) -> bool {
    field(m, "id"@) is Null || (str_of(field(m, "id"@)) matches Some(id)
        && "infoview:"@.is_prefix_of(id))
}

/// Whether every message that is sent is of the proxy's own.
pub open spec fn sends_own(actions: Seq<ActionV>) -> bool {
    forall|i: int|
        0 <= i < actions.len() ==> ((#[trigger] actions[i]) matches ActionV::Send(m)
            ==> is_own_message(m))
}

proof fn lemma_names()
    ensures
        "id"@ != "jsonrpc"@,
        "id"@ != "method"@,
        "id"@ != "params"@,
        "method"@ != "params"@,
{
    reveal_strlit("id");
    reveal_strlit("jsonrpc");
    reveal_strlit("method");
    reveal_strlit("params");
    assert("id"@.len() == 2 && "jsonrpc"@.len() == 7 && "method"@.len() == 6);
    assert("method"@[0] == 'm' && "params"@[0] == 'p');
}

proof fn lemma_requests_are_own(kind: Seq<char>, n: u64, method: Seq<char>, params: JsonV)
    requires
        !kind.contains(':'),
    ensures
        is_own_message(request(own_id(kind, n), method, params)),
{
    lemma_names();
    own_id_reads_back(kind, n);
}

proof fn lemma_session_sends(p: ProxyV, uri: Seq<char>)
    ensures
        sends_own(session_ensured(p, uri).actions),
{
    lemma_kinds();
    lemma_requests_are_own("c"@, p.next_req, "$/lean/rpc/connect"@, uri_object(uri));
}

proof fn lemma_released_sends(p: ProxyV, uri: Seq<char>, refs: Seq<JsonV>)
    ensures
        sends_own(released(p, uri, refs)),
{
    lemma_names();
}

proof fn lemma_wave_sends(p: ProxyV)
    ensures
        sends_own(goals_requested(p).actions),
{
    lemma_kinds();
    if let Some(c) = p.cursor {
        let q = ProxyV { state: state_at(p, c), ..p };
        lemma_session_sends(q, c.uri);
        let g = p.generation.wrapping_add(1);
        if p.sessions.contains_key(c.uri) {
            let session = p.sessions[c.uri];
            let at = document_position(c.uri, c.line, c.character);
            lemma_rpc_is_own(
                "g"@,
                g,
                session,
                c.uri,
                c.line,
                c.character,
                "Lean.Widget.getInteractiveGoals"@,
                at,
            );
            lemma_rpc_is_own(
                "t"@,
                g,
                session,
                c.uri,
                c.line,
                c.character,
                "Lean.Widget.getInteractiveTermGoal"@,
                at,
            );
            lemma_rpc_is_own(
                "d"@,
                g,
                session,
                c.uri,
                c.line,
                c.character,
                "Lean.Widget.getInteractiveDiagnostics"@,
                JsonV::Object(Map::empty()),
            );
        }
    }
}

proof fn lemma_rpc_is_own(
    kind: Seq<char>,
    n: u64,
    session: JsonV,
    uri: Seq<char>,
    line: u64,
    character: u64,
    method: Seq<char>,
    params: JsonV,
)
    requires
        !kind.contains(':'),
    ensures
        is_own_message(rpc_request(own_id(kind, n), session, uri, line, character, method, params)),
{
    let m = rpc_request(own_id(kind, n), session, uri, line, character, method, params);
    lemma_requests_are_own(kind, n, "$/lean/rpc/call"@, field(m, "params"@));
    lemma_names();
}

/// Every message that the proxy sends to the server on a message of the server
/// is a notification or a request with an id of its own.
pub proof fn only_own_messages_on_server_messages(p: ProxyV, v: Json)
    ensures
        sends_own(server_handled(p, v).actions),
{
    let id = str_or(field(v@, "id"@), Seq::empty());
    if is_own_response(v@) {
        if let Some((kind, tail)) = split_once(id.skip("infoview:"@.len() as int), ':') {
            let error = field(v@, "error"@);
            let code = match signed_of(field(error, "code"@)) {
                Some(code) => code,
                None => 0,
            };
            lemma_error_sends(p, id, code);
            lemma_answer_sends(p, id, kind, number_or_zero(tail), member(v, "result"@));
            lemma_expansion_sends(p, id, member(v, "result"@));
            lemma_granted_sends(p, id, field(field(v@, "result"@), "sessionId"@));
        }
    } else {
        if let Some(uri) = str_of(
            field(field(field(v@, "params"@), "textDocument"@), "uri"@),
        ) {
            let processing = items_of(field(field(v@, "params"@), "processing"@)).len() > 0;
            lemma_wave_sends(
                ProxyV { state: StateV { processing, ..p.state }, ..p },
            );
        }
        if let Some(shown) = p.diag_uri {
            lemma_released_sends(p, shown, lazy_ptrs(diags_traces(p.state.diagnostics)));
        }
    }
}

proof fn lemma_granted_sends(p: ProxyV, id: Seq<char>, session: JsonV)
    ensures
        sends_own(session_answered(p, id, session).actions),
{
    if p.pending_connect.contains_key(id) {
        let uri = p.pending_connect[id];
        let q = ProxyV { pending_connect: p.pending_connect.remove(id), ..p };
        lemma_wave_sends(ProxyV { sessions: q.sessions.insert(uri, session), ..q });
    }
}

proof fn lemma_error_sends(p: ProxyV, id: Seq<char>, code: i64)
    ensures
        sends_own(error_answered(p, id, code).actions),
{
    let q = ProxyV {
        pending_connect: p.pending_connect.remove(id),
        pending_goal: p.pending_goal.remove(id),
        pending_expand: p.pending_expand.remove(id),
        ..p
    };
    if p.pending_expand.contains_key(id) {
        lemma_released_sends(q, p.pending_expand[id].uri, seq![p.pending_expand[id].ptr]);
    }
    if let Some(c) = p.cursor {
        lemma_session_sends(ProxyV { sessions: q.sessions.remove(c.uri), ..q }, c.uri);
    }
}

proof fn lemma_answer_sends(
    p: ProxyV,
    id: Seq<char>,
    kind: Seq<char>,
    generation: u64,
    result: Json,
)
    ensures
        sends_own(wave_answered(p, id, kind, generation, result).actions),
{
    if p.pending_goal.contains_key(id) {
        let uri = p.pending_goal[id];
        let q = ProxyV { pending_goal: p.pending_goal.remove(id), ..p };
        let refs = ptrs_in(result);
        let kept = ptr_texts(lazy_ptrs(diags_traces(diags_answered(result@))));
        lemma_released_sends(q, uri, refs);
        lemma_released_sends(q, uri, not_kept(refs, kept));
        if let Some(shown) = q.diag_uri {
            lemma_released_sends(q, shown, lazy_ptrs(diags_traces(q.state.diagnostics)));
        }
    }
}

proof fn lemma_expansion_sends(p: ProxyV, id: Seq<char>, result: Json)
    ensures
        sends_own(expansion_answered(p, id, result).actions),
{
    if p.pending_expand.contains_key(id) {
        let req = p.pending_expand[id];
        let q = ProxyV { pending_expand: p.pending_expand.remove(id), ..p };
        let refs = seq![req.ptr] + ptrs_in(result);
        let children = children_segs(items_of(result@), req.node_id as u64);
        let kept = ptr_texts(lazy_ptrs(blocks_traces(children)));
        lemma_released_sends(q, req.uri, refs);
        lemma_released_sends(q, req.uri, not_kept(refs, kept));
    }
}

/// Every message that the proxy sends to the server on a message of the client
/// is a notification or a request with an id of its own.
pub proof fn only_own_messages_on_client_messages(p: ProxyV, v: JsonV)
    ensures
        sends_own(client_inspected(p, v).actions),
{
    if let Some(c) = cursor_named(v) {
        lemma_wave_sends(ProxyV { cursor: Some(c), ..p });
    }
}

/// Every message that the proxy sends to the server on a command is a request
/// with an id of its own.
pub proof fn only_own_messages_on_commands(p: ProxyV, v: JsonV)
    ensures
        sends_own(command_handled(p, v).actions),
{
    lemma_kinds();
    if let Some(n) = unsigned_of(field(v, "expand"@)) {
        let s = trace_expanded(p, n as u32);
        if s.actions.len() > 0 {
            let uri = p.diag_uri->0;
            let at = if cursor_in(p, uri) {
                p.cursor->0
            } else {
                CursorV { uri, line: 0, character: 0 }
            };
            lemma_rpc_is_own(
                "x"@,
                p.next_req,
                p.sessions[uri],
                at.uri,
                at.line,
                at.character,
                "Lean.Widget.lazyTraceChildrenToInteractive"@,
                node_of(p.state.diagnostics, n as u32)->0.lazy_ptr->0,
            );
        }
    }
}

/// What keeps a session from expiring asks for no answer.
pub proof fn keep_alives_ask_for_no_answer(uri: Seq<char>, session: JsonV)
    ensures
        field(keep_alive(uri, session), "id"@) is Null,
        is_own_message(keep_alive(uri, session)),
{
    lemma_names();
}

/// Whether an id was given to a request of that kind with a number below `n`.
pub open spec fn is_given(id: Seq<char>, kind: Seq<char>, n: int) -> bool {
    exists|k: u64| k < n && id == #[trigger] own_id(kind, k)
}

/// Whether an id was given to a request of one of the waves so far.
pub open spec fn is_wave_id(id: Seq<char>, generation: u64) -> bool {
    exists|kind: Seq<char>, k: u64|
        1 <= k <= generation && (kind == "g"@ || kind == "t"@ || kind == "d"@) && id
            == #[trigger] own_id(kind, k)
}

/// What always holds of what the proxy knows:
/// - at most one session is asked for each file at a time;
/// - what is pending has an id that was given to a request of its kind;
/// - the diagnostics shown are of a wave that was asked for, or of none, and
///   then of no file.
pub open spec fn consistent(p: ProxyV) -> bool {
    &&& forall|a: Seq<char>, b: Seq<char>|
        #![trigger p.pending_connect[a], p.pending_connect[b]]
        p.pending_connect.contains_key(a) && p.pending_connect.contains_key(b)
            && p.pending_connect[a] == p.pending_connect[b] ==> a == b
    &&& forall|id: Seq<char>| #[trigger]
        p.pending_connect.contains_key(id) ==> is_given(id, "c"@, p.next_req as int)
    &&& forall|id: Seq<char>| #[trigger]
        p.pending_expand.contains_key(id) ==> is_given(id, "x"@, p.next_req as int)
    &&& forall|id: Seq<char>| #[trigger]
        p.pending_goal.contains_key(id) ==> is_wave_id(id, p.generation)
    &&& p.diag_generation <= p.generation
    &&& p.diag_generation == 0 <==> p.diag_uri is None
}

/// The numbers of requests and waves have not run out.
pub open spec fn numbers_left(p: ProxyV) -> bool {
    p.next_req < u64::MAX && p.generation < u64::MAX
}

/// The proxy starts out consistent.
pub proof fn start_is_consistent()
    ensures
        consistent(started()),
        numbers_left(started()),
{
}

/// No request that is pending has the id that the next one gets.
pub proof fn next_ids_are_not_pending(p: ProxyV)
    requires
        consistent(p),
        numbers_left(p),
    ensures
        !p.pending_connect.contains_key(own_id("c"@, p.next_req)),
        !p.pending_expand.contains_key(own_id("x"@, p.next_req)),
        !p.pending_goal.contains_key(own_id("g"@, p.generation.wrapping_add(1))),
        !p.pending_goal.contains_key(own_id("t"@, p.generation.wrapping_add(1))),
        !p.pending_goal.contains_key(own_id("d"@, p.generation.wrapping_add(1))),
{
    lemma_kinds();
    lemma_not_given("c"@, p.next_req);
    lemma_not_given("x"@, p.next_req);
    lemma_not_wave("g"@, p.generation);
    lemma_not_wave("t"@, p.generation);
    lemma_not_wave("d"@, p.generation);
}

proof fn lemma_not_given(kind: Seq<char>, n: u64)
    requires
        !kind.contains(':'),
    ensures
        !is_given(own_id(kind, n), kind, n as int),
{
    if is_given(own_id(kind, n), kind, n as int) {
        let k = choose|k: u64| k < n && own_id(kind, n) == #[trigger] own_id(kind, k);
        own_ids_differ(kind, n, kind, k);
    }
}

proof fn lemma_not_wave(kind: Seq<char>, generation: u64)
    requires
        generation < u64::MAX,
        !kind.contains(':'),
    ensures
        !is_wave_id(own_id(kind, generation.wrapping_add(1)), generation),
{
    lemma_kinds();
    let g = generation.wrapping_add(1);
    if is_wave_id(own_id(kind, g), generation) {
        let (other, k) = choose|other: Seq<char>, k: u64|
            1 <= k <= generation && (other == "g"@ || other == "t"@ || other == "d"@)
                && own_id(kind, g) == #[trigger] own_id(other, k);
        own_ids_differ(kind, g, other, k);
    }
}

proof fn lemma_given_more(id: Seq<char>, kind: Seq<char>, m: int, n: int)
    requires
        is_given(id, kind, m),
        m <= n,
    ensures
        is_given(id, kind, n),
{
    let k = choose|k: u64| k < m && id == #[trigger] own_id(kind, k);
    assert(k < n && id == own_id(kind, k));
}

proof fn lemma_wave_more(id: Seq<char>, m: u64, n: u64)
    requires
        is_wave_id(id, m),
        m <= n,
    ensures
        is_wave_id(id, n),
{
    let (kind, k) = choose|kind: Seq<char>, k: u64|
        1 <= k <= m && (kind == "g"@ || kind == "t"@ || kind == "d"@) && id == #[trigger] own_id(
            kind,
            k,
        );
    assert(1 <= k <= n && id == own_id(kind, k));
}

proof fn lemma_session_consistent(p: ProxyV, uri: Seq<char>)
    requires
        consistent(p),
        numbers_left(p),
    ensures
        consistent(session_ensured(p, uri).proxy),
{
    let s = session_ensured(p, uri).proxy;
    let new = own_id("c"@, p.next_req);
    if !connecting(p, uri) {
        assert forall|id: Seq<char>| #[trigger]
            s.pending_connect.contains_key(id) implies is_given(id, "c"@, s.next_req as int) by {
            if id == new {
                assert(p.next_req < s.next_req && id == own_id("c"@, p.next_req));
            } else {
                assert(p.pending_connect.contains_key(id));
                lemma_given_more(id, "c"@, p.next_req as int, s.next_req as int);
            }
        }
        assert forall|id: Seq<char>| #[trigger]
            s.pending_expand.contains_key(id) implies is_given(id, "x"@, s.next_req as int) by {
            lemma_given_more(id, "x"@, p.next_req as int, s.next_req as int);
        }
        assert forall|a: Seq<char>, b: Seq<char>|
            #![trigger s.pending_connect[a], s.pending_connect[b]]
            s.pending_connect.contains_key(a) && s.pending_connect.contains_key(b)
                && s.pending_connect[a] == s.pending_connect[b] implies a == b by {
            if a != new {
                assert(p.pending_connect.contains_key(a));
            }
            if b != new {
                assert(p.pending_connect.contains_key(b));
            }
            if a != new && b != new {
                assert(p.pending_connect[a] == p.pending_connect[b]);
            }
        }
    }
}

proof fn lemma_wave_consistent(p: ProxyV)
    requires
        consistent(p),
        numbers_left(p),
    ensures
        consistent(goals_requested(p).proxy),
{
    if let Some(c) = p.cursor {
        let q = ProxyV { state: state_at(p, c), ..p };
        assert(consistent(q));
        if p.sessions.contains_key(c.uri) {
            let s = goals_requested(p).proxy;
            let g = p.generation.wrapping_add(1);
            assert forall|id: Seq<char>| #[trigger]
                s.pending_goal.contains_key(id) implies is_wave_id(id, s.generation) by {
                if id == own_id("g"@, g) || id == own_id("t"@, g) || id == own_id("d"@, g) {
                    assert(1 <= g <= s.generation);
                } else {
                    assert(p.pending_goal.contains_key(id));
                    lemma_wave_more(id, p.generation, s.generation);
                }
            }
        } else {
            lemma_session_consistent(q, c.uri);
        }
    }
}

/// The proxy stays consistent whatever message of the client goes by.
pub proof fn client_messages_keep_it_consistent(p: ProxyV, v: JsonV)
    requires
        consistent(p),
        numbers_left(p),
    ensures
        consistent(client_inspected(p, v).proxy),
{
    if let Some(c) = cursor_named(v) {
        let q = ProxyV { cursor: Some(c), ..p };
        assert(consistent(q));
        lemma_wave_consistent(q);
    }
}

/// The proxy stays consistent whatever message of the server comes in.
pub proof fn server_messages_keep_it_consistent(p: ProxyV, v: Json)
    requires
        consistent(p),
        numbers_left(p),
    ensures
        consistent(server_handled(p, v).proxy),
{
    let id = str_or(field(v@, "id"@), Seq::empty());
    let result = member(v, "result"@);
    if is_own_response(v@) {
        if let Some((kind, tail)) = split_once(id.skip("infoview:"@.len() as int), ':') {
            let error = field(v@, "error"@);
            if error !is Null {
                let code = match signed_of(field(error, "code"@)) {
                    Some(code) => code,
                    None => 0,
                };
                lemma_error_consistent(p, id, code);
            } else if kind == "c"@ {
                lemma_granted_consistent(p, id, field(field(v@, "result"@), "sessionId"@));
            } else if kind == "g"@ || kind == "t"@ || kind == "d"@ {
                if p.pending_goal.contains_key(id) {
                    lemma_kinds();
                    let (made, k) = choose|made: Seq<char>, k: u64|
                        1 <= k <= p.generation && (made == "g"@ || made == "t"@ || made == "d"@)
                            && id == #[trigger] own_id(made, k);
                    own_id_reads_back(made, k);
                    assert(number_or_zero(tail) == k);
                }
                let s = wave_answered(p, id, kind, number_or_zero(tail), result).proxy;
                assert(s.pending_connect == p.pending_connect);
                assert(s.pending_expand == p.pending_expand);
                assert forall|x: Seq<char>| #[trigger] s.pending_goal.contains_key(x) implies
                    is_wave_id(x, s.generation) by {
                    assert(p.pending_goal.contains_key(x));
                }
            } else if kind == "x"@ {
                let s = expansion_answered(p, id, result).proxy;
                assert(s.pending_connect == p.pending_connect);
                assert(s.pending_goal == p.pending_goal);
                assert forall|x: Seq<char>| #[trigger] s.pending_expand.contains_key(x) implies
                    is_given(x, "x"@, s.next_req as int) by {
                    assert(p.pending_expand.contains_key(x));
                }
            }
        }
    } else {
        let params = field(v@, "params"@);
        let processing = items_of(field(params, "processing"@)).len() > 0;
        let q = ProxyV { state: StateV { processing, ..p.state }, ..p };
        assert(consistent(q));
        lemma_wave_consistent(q);
        let s = server_inspected(p, v@).proxy;
        if str_of(field(v@, "method"@)) == Some("textDocument/publishDiagnostics"@) {
            assert(s.pending_connect == p.pending_connect);
            assert(s.pending_expand == p.pending_expand);
            assert(s.pending_goal == p.pending_goal);
            assert(consistent(s));
        }
    }
}

proof fn lemma_removed_connect(p: ProxyV, q: ProxyV, id: Seq<char>)
    requires
        consistent(p),
        q.pending_connect == p.pending_connect.remove(id),
    ensures
        forall|a: Seq<char>, b: Seq<char>|
            #![trigger q.pending_connect[a], q.pending_connect[b]]
            q.pending_connect.contains_key(a) && q.pending_connect.contains_key(b)
                && q.pending_connect[a] == q.pending_connect[b] ==> a == b,
        forall|x: Seq<char>| #[trigger]
            q.pending_connect.contains_key(x) ==> is_given(x, "c"@, p.next_req as int),
{
    assert forall|a: Seq<char>, b: Seq<char>|
        #![trigger q.pending_connect[a], q.pending_connect[b]]
        q.pending_connect.contains_key(a) && q.pending_connect.contains_key(b)
            && q.pending_connect[a] == q.pending_connect[b] implies a == b by {
        assert(p.pending_connect[a] == p.pending_connect[b]);
    }
    assert forall|x: Seq<char>| #[trigger] q.pending_connect.contains_key(x) implies is_given(
        x,
        "c"@,
        p.next_req as int,
    ) by {
        assert(p.pending_connect.contains_key(x));
    }
}

proof fn lemma_granted_consistent(p: ProxyV, id: Seq<char>, session: JsonV)
    requires
        consistent(p),
        numbers_left(p),
    ensures
        consistent(session_answered(p, id, session).proxy),
{
    if p.pending_connect.contains_key(id) {
        let uri = p.pending_connect[id];
        let q = ProxyV { pending_connect: p.pending_connect.remove(id), ..p };
        let r = ProxyV { sessions: q.sessions.insert(uri, session), ..q };
        lemma_removed_connect(p, q, id);
        assert(consistent(q));
        assert(r.pending_connect == q.pending_connect);
        assert(consistent(r));
        lemma_wave_consistent(r);
    }
}

proof fn lemma_error_consistent(p: ProxyV, id: Seq<char>, code: i64)
    requires
        consistent(p),
        numbers_left(p),
    ensures
        consistent(error_answered(p, id, code).proxy),
{
    let q = ProxyV {
        pending_connect: p.pending_connect.remove(id),
        pending_goal: p.pending_goal.remove(id),
        pending_expand: p.pending_expand.remove(id),
        ..p
    };
    lemma_removed_connect(p, q, id);
    assert forall|x: Seq<char>| #[trigger] q.pending_expand.contains_key(x) implies is_given(
        x,
        "x"@,
        q.next_req as int,
    ) by {
        assert(p.pending_expand.contains_key(x));
    }
    assert forall|x: Seq<char>| #[trigger] q.pending_goal.contains_key(x) implies is_wave_id(
        x,
        q.generation,
    ) by {
        assert(p.pending_goal.contains_key(x));
    }
    assert(consistent(q));
    if let Some(c) = p.cursor {
        let r = ProxyV { sessions: q.sessions.remove(c.uri), ..q };
        assert(r.pending_connect == q.pending_connect);
        assert(consistent(r));
        lemma_session_consistent(r, c.uri);
    }
}

/// The proxy stays consistent whatever command comes in.
pub proof fn commands_keep_it_consistent(p: ProxyV, v: JsonV)
    requires
        consistent(p),
        numbers_left(p),
    ensures
        consistent(command_handled(p, v).proxy),
{
    if let Some(n) = unsigned_of(field(v, "expand"@)) {
        let s = trace_expanded(p, n as u32);
        if s.actions.len() > 0 {
            let new = own_id("x"@, p.next_req);
            let q = s.proxy;
            assert(q.pending_connect == p.pending_connect);
            assert(q.pending_goal == p.pending_goal);
            assert forall|id: Seq<char>| #[trigger]
                q.pending_expand.contains_key(id) implies is_given(
                id,
                "x"@,
                q.next_req as int,
            ) by {
                if id == new {
                    assert(p.next_req < q.next_req && id == own_id("x"@, p.next_req));
                } else {
                    assert(p.pending_expand.contains_key(id));
                    lemma_given_more(id, "x"@, p.next_req as int, q.next_req as int);
                }
            }
            assert forall|id: Seq<char>| #[trigger]
                q.pending_connect.contains_key(id) implies is_given(
                id,
                "c"@,
                q.next_req as int,
            ) by {
                lemma_given_more(id, "c"@, p.next_req as int, q.next_req as int);
            }
        }
    }
}

/// The proxy stays consistent when the server stops.
pub proof fn stopping_keeps_it_consistent(p: ProxyV)
    requires
        consistent(p),
    ensures
        consistent(server_gone(p).proxy),
{
    assert(server_gone(p).proxy.pending_connect == p.pending_connect);
}

/// While a session for a file is asked for, it is not asked for again.
pub proof fn session_is_asked_for_once(p: ProxyV, uri: Seq<char>)
    ensures
        session_ensured(session_ensured(p, uri).proxy, uri).actions.len() == 0,
        session_ensured(session_ensured(p, uri).proxy, uri).proxy == session_ensured(p, uri).proxy,
{
    let s = session_ensured(p, uri).proxy;
    if !connecting(p, uri) {
        let id = own_id("c"@, p.next_req);
        assert(s.pending_connect.contains_key(id) && s.pending_connect[id] == uri);
    }
}

/// The diagnostics as watchers see them.
pub open spec fn diags_seen(diags: Seq<DiagV>) -> Seq<DiagV> {
    diags.map_values(|d: DiagV| DiagV { message: without_ptrs(d.message), ..d })
}

/// The state as watchers see it: pointers are never shown.
pub open spec fn state_seen(s: StateV) -> StateV {
    StateV { diagnostics: diags_seen(s.diagnostics), ..s }
}

pub open spec fn broadcasts(actions: Seq<ActionV>) -> bool {
    exists|i: int| 0 <= i < actions.len() && #[trigger] actions[i] == ActionV::Broadcast
}

/// Whether watchers are told of the step, if there is anything to tell.
pub open spec fn tells(p: ProxyV, s: Step) -> bool {
    state_seen(p.state) == state_seen(s.proxy.state) || broadcasts(s.actions)
}

proof fn lemma_pushed(actions: Seq<ActionV>)
    ensures
        broadcasts(actions.push(ActionV::Broadcast)),
{
    assert(actions.push(ActionV::Broadcast)[actions.len() as int] == ActionV::Broadcast);
}

proof fn lemma_wave_tells(p: ProxyV)
    ensures
        p.cursor is Some ==> broadcasts(goals_requested(p).actions),
        p.cursor is None ==> goals_requested(p).proxy == p,
{
    if let Some(c) = p.cursor {
        let q = ProxyV { state: state_at(p, c), ..p };
        lemma_pushed(session_ensured(q, c.uri).actions);
        lemma_pushed(wave(c, p.sessions[c.uri], p.generation.wrapping_add(1)));
    }
}

/// Watchers are told of every change that a message of the client brings.
pub proof fn changes_by_the_client_are_told(p: ProxyV, v: JsonV)
    ensures
        tells(p, client_inspected(p, v)),
{
    if let Some(c) = cursor_named(v) {
        lemma_wave_tells(ProxyV { cursor: Some(c), ..p });
    }
}

/// Watchers are told of every change that a message of the server brings.
pub proof fn changes_by_the_server_are_told(p: ProxyV, v: Json)
    ensures
        tells(p, server_handled(p, v)),
{
    let id = str_or(field(v@, "id"@), Seq::empty());
    let result = member(v, "result"@);
    if is_own_response(v@) {
        if let Some((kind, tail)) = split_once(id.skip("infoview:"@.len() as int), ':') {
            let error = field(v@, "error"@);
            if error !is Null {
            } else if kind == "c"@ {
                let session = field(field(v@, "result"@), "sessionId"@);
                if p.pending_connect.contains_key(id) {
                    let uri = p.pending_connect[id];
                    let q = ProxyV { pending_connect: p.pending_connect.remove(id), ..p };
                    lemma_wave_tells(ProxyV { sessions: q.sessions.insert(uri, session), ..q });
                }
            } else if kind == "g"@ || kind == "t"@ || kind == "d"@ {
                let s = wave_answered(p, id, kind, number_or_zero(tail), result);
                if s.actions.len() > 0 && s.actions.last() == ActionV::Broadcast {
                    assert(s.actions[s.actions.len() - 1] == ActionV::Broadcast);
                }
            } else if kind == "x"@ {
                let s = expansion_answered(p, id, result);
                if s.actions.len() > 0 && s.actions.last() == ActionV::Broadcast {
                    assert(s.actions[s.actions.len() - 1] == ActionV::Broadcast);
                }
            }
        }
    } else {
        let processing = items_of(field(field(v@, "params"@), "processing"@)).len() > 0;
        lemma_wave_tells(ProxyV { state: StateV { processing, ..p.state }, ..p });
        lemma_pushed(shown_freed(p));
        assert(seq![ActionV::Broadcast][0] == ActionV::Broadcast);
    }
}

/// Watchers are told of every change that a command brings: there is none until
/// the children arrive.
pub proof fn changes_by_commands_are_told(p: ProxyV, v: JsonV)
    ensures
        tells(p, command_handled(p, v)),
{
    if let Some(n) = unsigned_of(field(v, "expand"@)) {
        let id = n as u32;
        let diags = p.state.diagnostics;
        let s = trace_expanded(p, id);
        if s.actions.len() > 0 {
            let node = node_of(diags, id)->0;
            let new = TraceV { lazy_ptr: None, ..node };
            let i = diag_pos(diags, id) as int;
            only_pointers_differ(diags[i].message, id, new);
            assert(diags_seen(with_node(diags, id, new)) =~= diags_seen(diags));
        }
    }
}

/// Watchers are told when the server stops.
pub proof fn stopping_is_told(p: ProxyV)
    ensures
        tells(p, server_gone(p)),
        !server_gone(p).proxy.state.server_alive,
{
    assert(server_gone(p).actions[0] == ActionV::Broadcast);
}

/// What belongs to an older wave changes nothing that is shown and is not
/// broadcast.
pub proof fn stale_answers_change_nothing(
    p: ProxyV,
    id: Seq<char>,
    kind: Seq<char>,
    generation: u64,
    result: Json,
)
    requires
        generation != p.generation,
    ensures
        wave_answered(p, id, kind, generation, result).proxy.state == p.state,
        !broadcasts(wave_answered(p, id, kind, generation, result).actions),
{
}

/// Once the proxy has asked again, what was asked for before changes nothing that
/// is shown any more.
pub proof fn asking_again_makes_older_answers_stale(
    p: ProxyV,
    id: Seq<char>,
    kind: Seq<char>,
    generation: u64,
    result: Json,
)
    requires
        p.cursor is Some,
        p.sessions.contains_key(p.cursor->0.uri),
        generation <= p.generation < u64::MAX,
    ensures
        ({
            let asked = goals_requested(p).proxy;
            let s = wave_answered(asked, id, kind, generation, result);
            s.proxy.state == asked.state && !broadcasts(s.actions)
        }),
{
    stale_answers_change_nothing(goals_requested(p).proxy, id, kind, generation, result);
}

/// Children that were fetched for diagnostics no longer shown change nothing
/// that is shown and are not broadcast.
pub proof fn stale_children_change_nothing(p: ProxyV, id: Seq<char>, result: Json)
    requires
        p.pending_expand.contains_key(id),
        p.pending_expand[id].generation != p.diag_generation,
    ensures
        expansion_answered(p, id, result).proxy.state == p.state,
        !broadcasts(expansion_answered(p, id, result).actions),
{
}

/// Once interactive diagnostics of a file have arrived, plain ones that are
/// published for it do not replace them.
pub proof fn plain_diagnostics_do_not_replace_interactive_ones(
    p: ProxyV,
    uri: Seq<char>,
    diags: Seq<DiagV>,
)
    requires
        p.diag_uri == Some(uri),
    ensures
        diags_published(p, uri, diags).proxy.state == p.state,
        diags_published(p, uri, diags).actions.len() == 0,
{
}

/// Plain diagnostics that are published for the cursor's file are shown until
/// interactive ones for that file arrive.
pub proof fn plain_diagnostics_are_shown_until_interactive_ones_arrive(
    p: ProxyV,
    uri: Seq<char>,
    diags: Seq<DiagV>,
)
    requires
        cursor_in(p, uri),
        p.diag_uri != Some(uri),
    ensures
        diags_published(p, uri, diags).proxy.state == (StateV { diagnostics: diags, ..p.state }),
        broadcasts(diags_published(p, uri, diags).actions),
{
    lemma_pushed(shown_freed(p));
}

/// Whether at most one request for a session for that file is pending.
pub open spec fn asked_at_most_once(p: ProxyV, uri: Seq<char>) -> bool {
    forall|a: Seq<char>, b: Seq<char>|
        #![trigger p.pending_connect[a], p.pending_connect[b]]
        p.pending_connect.contains_key(a) && p.pending_connect.contains_key(b)
            && p.pending_connect[a] == uri && p.pending_connect[b] == uri ==> a == b
}

/// Once a session for a file is asked for, exactly one request for it is
/// pending. It is sent if and only if none was pending before, and then it gets
/// the next id; all other requests stay as they are.
pub proof fn exactly_one_session_is_asked_for(p: ProxyV, uri: Seq<char>)
    requires
        asked_at_most_once(p, uri),
        !p.pending_connect.contains_key(own_id("c"@, p.next_req)),
    ensures
        ({
            let s = session_ensured(p, uri);
            let id = own_id("c"@, p.next_req);
            &&& connecting(s.proxy, uri)
            &&& asked_at_most_once(s.proxy, uri)
            &&& s.actions == (if connecting(p, uri) {
                Seq::empty()
            } else {
                seq![ActionV::Send(connect_request(id, uri))]
            })
            &&& p.pending_connect.submap_of(s.proxy.pending_connect)
            &&& s.proxy.pending_connect.remove(id) == p.pending_connect
        }),
{
    let s = session_ensured(p, uri).proxy;
    let id = own_id("c"@, p.next_req);
    if !connecting(p, uri) {
        assert(s.pending_connect.contains_key(id) && s.pending_connect[id] == uri);
        assert forall|a: Seq<char>, b: Seq<char>|
            #![trigger s.pending_connect[a], s.pending_connect[b]]
            s.pending_connect.contains_key(a) && s.pending_connect.contains_key(b)
                && s.pending_connect[a] == uri && s.pending_connect[b] == uri implies a == b by {
            if a != id {
                assert(p.pending_connect.contains_key(a) && p.pending_connect[a] == uri);
            }
            if b != id {
                assert(p.pending_connect.contains_key(b) && p.pending_connect[b] == uri);
            }
        }
    }
    assert(s.pending_connect.remove(id) =~= p.pending_connect);
}

/// Whatever the proxy knows, of the bodies of the server's messages all are
/// passed on in order and unchanged, but for exactly those that are JSON and
/// answer one of the proxy's own requests.
pub proof fn traffic_is_passed_through(p: ProxyV, bodies: Seq<Seq<u8>>)
    ensures
        stream_handled(p, bodies).passed == bodies.filter(
            |body: Seq<u8>|
                !(json_parsed(body) matches Some(j) && is_own_response(j)),
        ),
    decreases bodies.len(),
{
    reveal(Seq::filter);
    if bodies.len() > 0 {
        traffic_is_passed_through(p, bodies.drop_last());
    }
}

/// From the bytes that reach the client, it reads the bodies that the server
/// wrote, but for the answers to the proxy's own requests.
pub proof fn client_reads_what_the_server_wrote(p: ProxyV, bodies: Seq<Seq<u8>>)
    requires
        forall|i: int| 0 <= i < bodies.len() ==> (#[trigger] bodies[i]).len() <= usize::MAX,
    ensures
        bodies_in(frames(stream_handled(p, bodies_in(frames(bodies))).passed)) == bodies.filter(
            |body: Seq<u8>|
                !(json_parsed(body) matches Some(j) && is_own_response(j)),
        ),
{
    let passed = stream_handled(p, bodies).passed;
    written_messages_read_back(bodies);
    traffic_is_passed_through(p, bodies);
    lemma_passed_fit(p, bodies);
    written_messages_read_back(passed);
}

proof fn lemma_passed_fit(p: ProxyV, bodies: Seq<Seq<u8>>)
    requires
        forall|i: int| 0 <= i < bodies.len() ==> (#[trigger] bodies[i]).len() <= usize::MAX,
    ensures
        forall|i: int|
            0 <= i < stream_handled(p, bodies).passed.len() ==> (#[trigger] stream_handled(
                p,
                bodies,
            ).passed[i]).len() <= usize::MAX,
    decreases bodies.len(),
{
    if bodies.len() > 0 {
        let rest = bodies.drop_last();
        let last = bodies[bodies.len() - 1];
        assert forall|i: int| 0 <= i < rest.len() implies (#[trigger] rest[i]).len()
            <= usize::MAX by {
            assert(rest[i] == bodies[i]);
        }
        lemma_passed_fit(p, rest);
        let before = stream_handled(p, rest).passed;
        let now = stream_handled(p, bodies).passed;
        assert(now == before || now == before.push(last));
        assert forall|i: int| 0 <= i < now.len() implies (#[trigger] now[i]).len()
            <= usize::MAX by {
            if i < before.len() {
                assert(now[i] == before[i]);
            }
        }
    }
}

/// A diagnostic that stands elsewhere in a later answer is shown as before, trace
/// ids included.
pub proof fn diagnostics_survive_list_shifts(a: JsonV, i: int, b: JsonV, j: int)
    requires
        0 <= i < items_of(a).len(),
        0 <= j < items_of(b).len(),
        items_of(a)[i] == items_of(b)[j],
    ensures
        diags_answered(a)[i] == diags_answered(b)[j],
{
    trace_ids_survive_list_shifts(items_of(a)[i], i as nat, j as nat);
}

proof fn lemma_not_kept(refs: Seq<JsonV>, kept: Seq<Seq<char>>)
    ensures
        forall|x: JsonV| #[trigger]
            not_kept(refs, kept).contains(x) <==> refs.contains(x) && !kept.contains(json_text(x)),
    decreases refs.len(),
{
    if refs.len() > 0 {
        let rest = refs.drop_last();
        let last = refs.last();
        let before = not_kept(rest, kept);
        lemma_not_kept(rest, kept);
        assert forall|x: JsonV| #[trigger] not_kept(refs, kept).contains(x) <==> refs.contains(x)
            && !kept.contains(json_text(x)) by {
            assert(refs.contains(x) <==> rest.contains(x) || x == last) by {
                if refs.contains(x) {
                    let i = refs.index_of(x);
                    assert(refs[i] == x);
                    if i < rest.len() {
                        assert(rest[i] == x);
                    }
                }
                if rest.contains(x) {
                    let i = rest.index_of(x);
                    assert(refs[i] == x);
                }
                if x == last {
                    assert(refs[refs.len() - 1] == x);
                }
            }
            if !kept.contains(json_text(last)) {
                let after = before.push(last);
                if after.contains(x) {
                    let i = after.index_of(x);
                    assert(after[i] == x);
                    if i < before.len() {
                        assert(before[i] == x);
                    }
                }
                if before.contains(x) {
                    let i = before.index_of(x);
                    assert(after[i] == x);
                }
                if x == last {
                    assert(after[before.len() as int] == x);
                }
            }
        }
    }
}

/// Whether a reference is among those that one of the actions frees.
pub open spec fn is_freed(actions: Seq<ActionV>, uri: Seq<char>, session: JsonV, x: JsonV) -> bool {
    exists|i: int, refs: Seq<JsonV>|
        0 <= i < actions.len() && #[trigger] actions[i] == ActionV::Send(
            #[trigger] release(uri, session, refs),
        ) && refs.contains(x)
}

proof fn lemma_freed(p: ProxyV, uri: Seq<char>, refs: Seq<JsonV>, x: JsonV, actions: Seq<ActionV>)
    requires
        p.sessions.contains_key(uri),
        refs.contains(x),
        actions.len() > 0,
        released(p, uri, refs).is_prefix_of(actions),
    ensures
        is_freed(actions, uri, p.sessions[uri], x),
{
    let r = released(p, uri, refs);
    assert(refs.len() > 0);
    assert(r[0] == ActionV::Send(release(uri, p.sessions[uri], refs)));
    assert(actions.subrange(0, r.len() as int)[0] == actions[0]);
    assert(actions[0] == ActionV::Send(release(uri, p.sessions[uri], refs)));
}

/// Of every reference in an answer of a wave, while the file has its session,
/// either it is freed or a trace node that is shown still holds it.
pub proof fn references_are_freed_or_held(
    p: ProxyV,
    id: Seq<char>,
    kind: Seq<char>,
    generation: u64,
    result: Json,
    x: JsonV,
)
    requires
        p.pending_goal.contains_key(id),
        p.sessions.contains_key(p.pending_goal[id]),
        ptrs_in(result).contains(x),
    ensures
        ({
            let s = wave_answered(p, id, kind, generation, result);
            let uri = p.pending_goal[id];
            ||| is_freed(s.actions, uri, p.sessions[uri], x)
            ||| ptr_texts(lazy_ptrs(diags_traces(s.proxy.state.diagnostics))).contains(json_text(x))
        }),
{
    let uri = p.pending_goal[id];
    let q = ProxyV { pending_goal: p.pending_goal.remove(id), ..p };
    let refs = ptrs_in(result);
    let s = wave_answered(p, id, kind, generation, result);
    let kept = ptr_texts(lazy_ptrs(diags_traces(diags_answered(result@))));
    lemma_not_kept(refs, kept);
    if generation != p.generation || kind == "g"@ || kind == "t"@ {
        assert(refs.len() > 0);
        let r = released(q, uri, refs);
        assert(r =~= s.actions.subrange(0, r.len() as int));
        lemma_freed(q, uri, refs, x, s.actions);
    } else if !kept.contains(json_text(x)) {
        let free = not_kept(refs, kept);
        assert(free.contains(x));
        assert(free.len() > 0);
        let r = released(q, uri, free);
        assert(r =~= s.actions.subrange(0, r.len() as int));
        lemma_freed(q, uri, free, x, s.actions);
    }
}

/// Of every reference in an answer with children, and of the one by which they
/// were fetched, while the file has its session, either it is freed or one of
/// these children still holds it.
pub proof fn references_of_children_are_freed_or_held(
    p: ProxyV,
    id: Seq<char>,
    result: Json,
    x: JsonV,
)
    requires
        p.pending_expand.contains_key(id),
        p.sessions.contains_key(p.pending_expand[id].uri),
        ptrs_in(result).contains(x) || x == p.pending_expand[id].ptr,
    ensures
        ({
            let s = expansion_answered(p, id, result);
            let req = p.pending_expand[id];
            let children = children_segs(items_of(result@), req.node_id as u64);
            ||| is_freed(s.actions, req.uri, p.sessions[req.uri], x)
            ||| ptr_texts(lazy_ptrs(blocks_traces(children))).contains(json_text(x))
        }),
{
    let req = p.pending_expand[id];
    let q = ProxyV { pending_expand: p.pending_expand.remove(id), ..p };
    let refs = seq![req.ptr] + ptrs_in(result);
    let s = expansion_answered(p, id, result);
    let children = children_segs(items_of(result@), req.node_id as u64);
    let kept = ptr_texts(lazy_ptrs(blocks_traces(children)));
    lemma_not_kept(refs, kept);
    assert(refs.contains(x)) by {
        if x == req.ptr {
            assert(refs[0] == x);
        } else {
            let i = ptrs_in(result).index_of(x);
            assert(refs[i + 1] == x);
        }
    }
    if req.generation != p.diag_generation {
        let r = released(q, req.uri, refs);
        assert(r =~= s.actions.subrange(0, r.len() as int));
        lemma_freed(q, req.uri, refs, x, s.actions);
    } else if !kept.contains(json_text(x)) {
        let free = not_kept(refs, kept);
        assert(free.contains(x));
        assert(free.len() > 0);
        let r = released(q, req.uri, free);
        assert(r =~= s.actions.subrange(0, r.len() as int));
        lemma_freed(q, req.uri, free, x, s.actions);
    }
}

/// The references that are freed of an answer with diagnostics are none that a
/// trace node shown still holds.
pub proof fn held_references_are_not_freed(refs: Seq<JsonV>, kept: Seq<JsonV>, x: JsonV)
    requires
        kept.contains(x),
    ensures
        !not_kept(refs, ptr_texts(kept)).contains(x),
{
    let texts = ptr_texts(kept);
    lemma_not_kept(refs, texts);
    let i = kept.index_of(x);
    assert(texts[i] == json_text(x));
    assert(texts.contains(json_text(x)));
}

/// Where new diagnostics replace others, interactive ones that are answered or
/// plain ones that are published, the pointers that the others still held are
/// freed, while their file has its session.
pub proof fn pointers_of_replaced_diagnostics_are_freed(
    p: ProxyV,
    id: Seq<char>,
    result: Json,
    uri: Seq<char>,
    diags: Seq<DiagV>,
    x: JsonV,
)
    requires
        p.diag_uri is Some,
        p.sessions.contains_key(p.diag_uri->0),
        lazy_ptrs(diags_traces(p.state.diagnostics)).contains(x),
    ensures
        p.pending_goal.contains_key(id) ==> is_freed(
            wave_answered(p, id, "d"@, p.generation, result).actions,
            p.diag_uri->0,
            p.sessions[p.diag_uri->0],
            x,
        ),
        cursor_in(p, uri) && p.diag_uri != Some(uri) ==> is_freed(
            diags_published(p, uri, diags).actions,
            p.diag_uri->0,
            p.sessions[p.diag_uri->0],
            x,
        ),
{
    lemma_kinds();
    let shown = p.diag_uri->0;
    let of = p.pending_goal[id];
    let q = ProxyV { pending_goal: p.pending_goal.remove(id), ..p };
    let s = wave_answered(p, id, "d"@, p.generation, result);
    let kept = ptr_texts(lazy_ptrs(diags_traces(diags_answered(result@))));
    let first = released(q, of, not_kept(ptrs_in(result), kept));
    let dropped = lazy_ptrs(diags_traces(p.state.diagnostics));
    let freeing = ActionV::Send(release(shown, p.sessions[shown], dropped));
    assert(dropped.len() > 0);
    if p.pending_goal.contains_key(id) {
        assert(s.actions[first.len() as int] == freeing);
    }
    if cursor_in(p, uri) && p.diag_uri != Some(uri) {
        assert(diags_published(p, uri, diags).actions[0] == freeing);
    }
}

/// What there is at the cursor is shown once the server answers: the answer to
/// the request for the goals, the expected type or the diagnostics of the last
/// wave.
pub proof fn answers_at_the_cursor_are_shown(p: ProxyV, v: Json, kind: Seq<char>)
    requires
        p.cursor is Some,
        p.sessions.contains_key(p.cursor->0.uri),
        kind == "g"@ || kind == "t"@ || kind == "d"@,
        field(v@, "id"@) == JsonV::Str(own_id(kind, p.generation.wrapping_add(1))),
        field(v@, "method"@) !is Str,
        field(v@, "error"@) is Null,
    ensures
        ({
            let asked = goals_requested(p).proxy;
            let s = server_handled(asked, v);
            let result = field(v@, "result"@);
            &&& s.proxy.state == (if kind == "g"@ {
                StateV { goals: goals_answered(result), ..asked.state }
            } else if kind == "t"@ {
                StateV { term_goal: term_answered(result), ..asked.state }
            } else {
                StateV { diagnostics: diags_answered(result), ..asked.state }
            })
            &&& broadcasts(s.actions)
        }),
{
    lemma_kinds();
    let g = p.generation.wrapping_add(1);
    let asked = goals_requested(p).proxy;
    let id = own_id(kind, g);
    lemma_member(v, "result"@);
    assert(asked.pending_goal.contains_key(id));
    answers_reach_their_request(asked, v, kind, g);
    let s = server_handled(asked, v);
    assert(s.actions[s.actions.len() - 1] == ActionV::Broadcast);
}

pub proof fn lemma_diag_pos(diags: Seq<DiagV>, id: u32)
    ensures
        diag_pos(diags, id) <= diags.len(),
        forall|k: int|
            0 <= k < diag_pos(diags, id) ==> !has_trace((#[trigger] diags[k]).message, id),
        diag_pos(diags, id) < diags.len() ==> has_trace(
            diags[diag_pos(diags, id) as int].message,
            id,
        ),
    decreases diags.len(),
{
    if diags.len() > 0 && !has_trace(diags[0].message, id) {
        let rest = diags.drop_first();
        lemma_diag_pos(rest, id);
        assert forall|k: int| 0 <= k < diag_pos(diags, id) implies !has_trace(
            (#[trigger] diags[k]).message,
            id,
        ) by {
            if k > 0 {
                assert(diags[k] == rest[k - 1]);
            }
        }
    }
}

/// Where the trace node of an id in the diagnostics is replaced by another with
/// that id, the new one is found.
pub proof fn replaced_node_of_diagnostics_is_found(diags: Seq<DiagV>, id: u32, new: TraceV)
    requires
        node_of(diags, id) is Some,
        new.id == id,
    ensures
        node_of(with_node(diags, id, new), id) == Some(new),
{
    let i = diag_pos(diags, id) as int;
    let after = with_node(diags, id, new);
    lemma_diag_pos(diags, id);
    lemma_diag_pos(after, id);
    replaced_node_is_found(diags[i].message, id, new);
    let k = diag_pos(after, id) as int;
    assert(after[i].message == with_trace(diags[i].message, id, new));
    if k < i {
        assert(after[k] == diags[k]);
    }
    assert(k == i) by {
        if k > i {
            assert(!has_trace(after[i].message, id));
        }
    }
}

pub proof fn lemma_node_id(diags: Seq<DiagV>, id: u32)
    ensures
        node_of(diags, id) matches Some(node) ==> node.id == id,
{
    let i = diag_pos(diags, id) as int;
    if i < diags.len() {
        lemma_found(diags[i].message, id);
    }
}

/// While the children of a trace node are being fetched, they are not asked for
/// again.
pub proof fn children_are_asked_for_once(p: ProxyV, node_id: u32)
    requires
        trace_expanded(p, node_id).actions.len() > 0,
    ensures
        trace_expanded(trace_expanded(p, node_id).proxy, node_id).actions.len() == 0,
        trace_expanded(trace_expanded(p, node_id).proxy, node_id).proxy == trace_expanded(
            p,
            node_id,
        ).proxy,
{
    let diags = p.state.diagnostics;
    let node = node_of(diags, node_id)->0;
    lemma_node_id(diags, node_id);
    replaced_node_of_diagnostics_is_found(diags, node_id, TraceV { lazy_ptr: None, ..node });
}

/// Asking for the children of a trace node shows them once the server answers,
/// and frees the pointer by which they were fetched unless one of them holds it
/// again.
pub proof fn fetched_children_are_shown(p: ProxyV, node_id: u32, v: Json)
    requires
        trace_expanded(p, node_id).actions.len() > 0,
        field(v@, "id"@) == JsonV::Str(own_id("x"@, p.next_req)),
        field(v@, "method"@) !is Str,
        field(v@, "error"@) is Null,
    ensures
        ({
            let node = node_of(p.state.diagnostics, node_id)->0;
            let s = server_handled(trace_expanded(p, node_id).proxy, v);
            let children = children_segs(items_of(field(v@, "result"@)), node_id as u64);
            let ptr = node.lazy_ptr->0;
            let uri = p.diag_uri->0;
            &&& node_of(s.proxy.state.diagnostics, node_id) == Some(
                TraceV { children, truncated: false, lazy_ptr: None, ..node },
            )
            &&& broadcasts(s.actions)
            &&& is_freed(s.actions, uri, p.sessions[uri], ptr) || ptr_texts(
                lazy_ptrs(blocks_traces(children)),
            ).contains(json_text(ptr))
        }),
{
    lemma_kinds();
    let diags = p.state.diagnostics;
    let node = node_of(diags, node_id)->0;
    let asked = trace_expanded(p, node_id).proxy;
    let taken = TraceV { lazy_ptr: None, ..node };
    let id = own_id("x"@, p.next_req);
    let result = member(v, "result"@);
    lemma_member(v, "result"@);
    lemma_node_id(diags, node_id);
    replaced_node_of_diagnostics_is_found(diags, node_id, taken);
    answers_reach_their_request(asked, v, "x"@, p.next_req);
    let s = expansion_answered(asked, id, result);
    let children = children_segs(items_of(result@), node_id as u64);
    let new = TraceV { children, truncated: false, ..taken };
    replaced_node_of_diagnostics_is_found(asked.state.diagnostics, node_id, new);
    assert(s.actions[s.actions.len() - 1] == ActionV::Broadcast);
    references_of_children_are_freed_or_held(asked, id, result, node.lazy_ptr->0);
}

/// Children that are fetched are shown as if they had been there from the start.
pub proof fn fetched_children_are_like_strict_ones(tr: JsonV, seed: u64, list: Seq<JsonV>)
    requires
        array_of(field(field(tr, "children"@), "strict"@)) == Some(list),
    ensures
        trace_of(tr, seed).children == children_segs(list, trace_of(tr, seed).id as u64),
{
}

/// The command that a watcher sends for a trace node asks for its children.
pub proof fn commands_of_watchers_are_understood(p: ProxyV, node_id: u32)
    ensures
        command_handled(p, expand_command(node_id)) == trace_expanded(p, node_id),
{
    let m = Map::<Seq<char>, JsonV>::empty().insert("expand"@, JsonV::Unsigned(node_id as u64));
    assert(m.contains_key("expand"@));
    assert(node_id as u64 as u32 == node_id);
}

/// A proxy that serves the workspace root at a path listens on the socket that a
/// watcher started at that path looks for.
pub proof fn watcher_finds_the_proxy(p: ProxyV, v: JsonV, path: Seq<char>)
    requires
        field(v, "method"@) == JsonV::Str("initialize"@),
        field(field(v, "params"@), "rootUri"@) == JsonV::Str("file://"@ + path),
    ensures
        client_inspected(p, v).actions == seq![ActionV::StartSocket(path)],
{
    let uri = "file://"@ + path;
    assert(uri.subrange(0, "file://"@.len() as int) =~= "file://"@);
    assert(uri.skip("file://"@.len() as int) =~= path);
}

/// The socket of a proxy is among those that a watcher considers where none is
/// named after its own directory.
pub proof fn sockets_are_recognised(root: Seq<char>)
    ensures
        is_socket_name(socket_name(root)),
{
    reveal_strlit(".sock");
    let name = socket_name(root);
    hex_has_its_width(fnv1a_hash(encode_utf8(root)) as nat, 16);
    assert(name.skip(name.len() - 5) =~= ".sock"@);
}

/// Inserting a text in two steps leaves the cursor where inserting it at once
/// does.
pub proof fn inserting_in_steps(line: u64, character: u64, a: Seq<char>, b: Seq<char>)
    requires
        a.len() + b.len() <= u64::MAX,
    ensures
        ({
            let mid = advanced(line, character, a);
            advanced(line, character, a + b) == advanced(mid.0, mid.1, b)
        }),
{
    split_of_joined_texts(a, b, '\n');
    lemma_pieces_fit(a);
    lemma_pieces_fit(b);
    let x = split(a, '\n');
    let y = split(b, '\n');
    let z = split(a + b, '\n');
    assert(z.len() == x.len() + y.len() - 1);
    if y.len() == 1 {
        assert(z.last() == x.last() + y[0]);
    } else {
        assert(z.last() == y.last());
    }
    if x.len() == 1 {
        split_then_join(a, '\n');
        assert(x[0] == a);
    }
    if y.len() == 1 {
        split_then_join(b, '\n');
        assert(y[0] == b);
    }
}

proof fn lemma_pieces_fit(s: Seq<char>)
    ensures
        0 < split(s, '\n').len() <= s.len() + 1,
        split(s, '\n').last().len() + split(s, '\n').len() - 1 <= s.len(),
    decreases s.len(),
{
    if s.len() > 0 {
        lemma_pieces_fit(s.drop_last());
    }
}

} // verus!
