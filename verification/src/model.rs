//! What the proxy does with each message and command, as a function of what it
//! knows: what it knows afterwards, and what is to be done outside.

use crate::convert::{
    blocks_traces, children_segs, diag_of, found_trace, goal_of, has_trace, items_of, lazy_ptrs,
    pointers_of_equal_values, ptrs_in, str_or, term_goal_of, traces_in, unsigned_or, with_trace,
};
use crate::json::{
    canonical, canonical_of, field, json_parsed, json_text, lemma_member, member, signed_of, str_of,
    unsigned_of, Json, JsonV,
};
use crate::messages::{connect_request, document_position, keep_alive, own_id, release, rpc_request};
use crate::state::{no_state, DiagV, GoalV, SegV, StateV, TextSpanV, TraceV};
use crate::text::{parse_unsigned, split, split_once, strip_prefix};
use vstd::prelude::*;

verus! {

/// Lean server error code: the RPC session has expired.
pub const RPC_NEEDS_RECONNECT: i64 = -32900;

/// Where the cursor is.
pub struct CursorV {
    pub uri: Seq<char>,
    pub line: u64,
    pub character: u64,
}

/// A trace expansion that the server has not answered yet.
pub struct ExpandV {
    pub generation: u64,
    pub node_id: u32,
    pub uri: Seq<char>,
    pub ptr: JsonV,
}

/// What is to be done outside.
pub enum ActionV {
    Send(JsonV),
    Broadcast,
    StartSocket(Seq<char>),
}

/// What the proxy knows.
pub struct ProxyV {
    pub state: StateV,
    pub cursor: Option<CursorV>,
    pub plain_diags: Map<Seq<char>, Seq<DiagV>>,
    pub sessions: Map<Seq<char>, JsonV>,
    pub pending_connect: Map<Seq<char>, Seq<char>>,
    pub pending_goal: Map<Seq<char>, Seq<char>>,
    pub pending_expand: Map<Seq<char>, ExpandV>,
    pub generation: u64,
    pub diag_generation: u64,
    pub diag_uri: Option<Seq<char>>,
    pub next_req: u64,
}

/// What the proxy knows when it starts.
pub open spec fn started() -> ProxyV {
    ProxyV {
        state: StateV { server_alive: true, ..no_state() },
        cursor: None,
        plain_diags: Map::empty(),
        sessions: Map::empty(),
        pending_connect: Map::empty(),
        pending_goal: Map::empty(),
        pending_expand: Map::empty(),
        generation: 0,
        diag_generation: 0,
        diag_uri: None,
        next_req: 0,
    }
}

/// What becomes of the proxy, and what is to be done outside.
pub struct Step {
    pub proxy: ProxyV,
    pub actions: Seq<ActionV>,
}

pub open spec fn step(proxy: ProxyV, actions: Seq<ActionV>) -> Step {
    Step { proxy, actions }
}

/// Whether the cursor is in that file.
pub open spec fn cursor_in(p: ProxyV, uri: Seq<char>) -> bool {
    p.cursor matches Some(c) && c.uri == uri
}

/// Whether a session for that file was asked for and not answered yet.
pub open spec fn connecting(p: ProxyV, uri: Seq<char>) -> bool {
    exists|id: Seq<char>| #[trigger]
        p.pending_connect.contains_key(id) && p.pending_connect[id] == uri
}

/// Asks for a session for a file, unless that was done already.
pub open spec fn session_ensured(p: ProxyV, uri: Seq<char>) -> Step {
    let id = own_id("c"@, p.next_req);
    if connecting(p, uri) {
        step(p, Seq::empty())
    } else {
        step(
            ProxyV {
                pending_connect: p.pending_connect.insert(id, uri),
                next_req: p.next_req.wrapping_add(1),
                ..p
            },
            seq![ActionV::Send(connect_request(id, uri))],
        )
    }
}

/// Frees RpcPtr references of a file, where it still has a session.
pub open spec fn released(p: ProxyV, uri: Seq<char>, refs: Seq<JsonV>) -> Seq<ActionV> {
    if refs.len() == 0 || !p.sessions.contains_key(uri) {
        Seq::empty()
    } else {
        seq![ActionV::Send(release(uri, p.sessions[uri], refs))]
    }
}

/// The plain diagnostics of a file.
pub open spec fn plain_of(p: ProxyV, uri: Seq<char>) -> Seq<DiagV> {
    if p.plain_diags.contains_key(uri) {
        p.plain_diags[uri]
    } else {
        Seq::empty()
    }
}

/// The state with the cursor there. In another file than before, plain
/// diagnostics are shown until interactive ones for that file arrive.
pub open spec fn state_at(p: ProxyV, c: CursorV) -> StateV {
    StateV {
        line: c.line as u32,
        column: c.character as u32,
        uri: Some(c.uri),
        diagnostics: if p.state.uri == Some(c.uri) {
            p.state.diagnostics
        } else {
            plain_of(p, c.uri)
        },
        ..p.state
    }
}

/// The requests of one wave, and the ids by which they are known.
pub open spec fn wave(c: CursorV, session: JsonV, generation: u64) -> Seq<ActionV> {
    let at = document_position(c.uri, c.line, c.character);
    seq![
        ActionV::Send(
            rpc_request(
                own_id("g"@, generation),
                session,
                c.uri,
                c.line,
                c.character,
                "Lean.Widget.getInteractiveGoals"@,
                at,
            ),
        ),
        ActionV::Send(
            rpc_request(
                own_id("t"@, generation),
                session,
                c.uri,
                c.line,
                c.character,
                "Lean.Widget.getInteractiveTermGoal"@,
                at,
            ),
        ),
        ActionV::Send(
            rpc_request(
                own_id("d"@, generation),
                session,
                c.uri,
                c.line,
                c.character,
                "Lean.Widget.getInteractiveDiagnostics"@,
                JsonV::Object(Map::empty()),
            ),
        ),
    ]
}

/// Asks the server for what there is at the cursor.
pub open spec fn goals_requested(p: ProxyV) -> Step {
    match p.cursor {
        None => step(p, Seq::empty()),
        Some(c) => {
            let q = ProxyV { state: state_at(p, c), ..p };
            let g = p.generation.wrapping_add(1);
            if p.sessions.contains_key(c.uri) {
                step(
                    ProxyV {
                        generation: g,
                        pending_goal: p.pending_goal.insert(own_id("g"@, g), c.uri).insert(
                            own_id("t"@, g),
                            c.uri,
                        ).insert(own_id("d"@, g), c.uri),
                        ..q
                    },
                    wave(c, p.sessions[c.uri], g).push(ActionV::Broadcast),
                )
            } else {
                let s = session_ensured(q, c.uri);
                step(s.proxy, s.actions.push(ActionV::Broadcast))
            }
        },
    }
}

/// The texts of the pointers.
pub open spec fn ptr_texts(ptrs: Seq<JsonV>) -> Seq<Seq<char>> {
    ptrs.map_values(|p: JsonV| json_text(p))
}

/// The references without those whose text is among the ones that are kept.
pub open spec fn not_kept(refs: Seq<JsonV>, kept: Seq<Seq<char>>) -> Seq<JsonV>
    decreases refs.len(),
{
    if refs.len() == 0 {
        Seq::empty()
    } else if kept.contains(json_text(refs.last())) {
        not_kept(refs.drop_last(), kept)
    } else {
        not_kept(refs.drop_last(), kept).push(refs.last())
    }
}

/// Every trace node of the diagnostics (pre-order).
pub open spec fn diags_traces(diags: Seq<DiagV>) -> Seq<TraceV>
    decreases diags.len(),
{
    if diags.len() == 0 {
        Seq::empty()
    } else {
        diags_traces(diags.drop_last()) + traces_in(diags.last().message)
    }
}

/// How many diagnostics come before the first that holds a trace node of that id.
pub open spec fn diag_pos(diags: Seq<DiagV>, id: u32) -> nat
    decreases diags.len(),
{
    if diags.len() == 0 || has_trace(diags[0].message, id) {
        0
    } else {
        1 + diag_pos(diags.drop_first(), id)
    }
}

/// The first trace node of that id in the diagnostics.
pub open spec fn node_of(diags: Seq<DiagV>, id: u32) -> Option<TraceV> {
    let i = diag_pos(diags, id) as int;
    if i < diags.len() {
        found_trace(diags[i].message, id)
    } else {
        None
    }
}

/// The diagnostics with the first trace node of that id replaced.
pub open spec fn with_node(diags: Seq<DiagV>, id: u32, new: TraceV) -> Seq<DiagV> {
    let i = diag_pos(diags, id) as int;
    if i < diags.len() {
        diags.update(i, DiagV { message: with_trace(diags[i].message, id, new), ..diags[i] })
    } else {
        diags
    }
}

/// Whether a message answers one of the proxy's own requests. A request *from*
/// the server could in principle carry any id; only id-only messages
/// (responses) are taken as the proxy's own.
pub open spec fn is_own_response(v: JsonV) -> bool {
    &&& str_of(field(v, "id"@)) matches Some(id) && "infoview:"@.is_prefix_of(id)
    &&& str_of(field(v, "method"@)) is None
}

/// An error was answered. The request is not pending any more; where the
/// session has expired, a new one for the cursor's file is asked for.
pub open spec fn error_answered(p: ProxyV, id: Seq<char>, code: i64) -> Step {
    let q = ProxyV {
        pending_connect: p.pending_connect.remove(id),
        pending_goal: p.pending_goal.remove(id),
        pending_expand: p.pending_expand.remove(id),
        ..p
    };
    let freed = if p.pending_expand.contains_key(id) {
        released(q, p.pending_expand[id].uri, seq![p.pending_expand[id].ptr])
    } else {
        Seq::empty()
    };
    match p.cursor {
        Some(c) => if code == RPC_NEEDS_RECONNECT {
            let s = session_ensured(ProxyV { sessions: q.sessions.remove(c.uri), ..q }, c.uri);
            step(s.proxy, freed + s.actions)
        } else {
            step(q, freed)
        },
        None => step(q, freed),
    }
}

/// A session was granted, or not.
pub open spec fn session_answered(p: ProxyV, id: Seq<char>, session: JsonV) -> Step {
    if !p.pending_connect.contains_key(id) {
        step(p, Seq::empty())
    } else {
        let uri = p.pending_connect[id];
        let q = ProxyV { pending_connect: p.pending_connect.remove(id), ..p };
        let r = ProxyV { sessions: q.sessions.insert(uri, session), ..q };
        if session is Null {
            step(q, Seq::empty())
        } else if cursor_in(p, uri) {
            goals_requested(r)
        } else {
            step(r, Seq::empty())
        }
    }
}

/// The goals that `getInteractiveGoals` answered.
pub open spec fn goals_answered(result: JsonV) -> Option<Seq<GoalV>> {
    if result is Null {
        None
    } else {
        Some(items_of(field(result, "goals"@)).map_values(|g: JsonV| goal_of(g)))
    }
}

/// The expected type that `getInteractiveTermGoal` answered.
pub open spec fn term_answered(result: JsonV) -> Option<GoalV> {
    if result is Null {
        None
    } else {
        Some(term_goal_of(result))
    }
}

/// The diagnostics that `getInteractiveDiagnostics` answered.
pub open spec fn diags_answered(result: JsonV) -> Seq<DiagV> {
    Seq::new(items_of(result).len(), |i: int| diag_of(items_of(result)[i], i as nat))
}

/// Frees the pointers that the diagnostics shown still hold.
pub open spec fn shown_freed(p: ProxyV) -> Seq<ActionV> {
    match p.diag_uri {
        Some(uri) => released(p, uri, lazy_ptrs(diags_traces(p.state.diagnostics))),
        None => Seq::empty(),
    }
}

/// What was asked for at the cursor was answered. What belongs to an older
/// wave is dropped. Every reference received is freed, but for those to lazy
/// trace children; those that the diagnostics shown so far still held are
/// freed with them.
pub open spec fn wave_answered(
    p: ProxyV,
    id: Seq<char>,
    kind: Seq<char>,
    generation: u64,
    result: Json,
) -> Step {
    if !p.pending_goal.contains_key(id) {
        step(p, Seq::empty())
    } else {
        let uri = p.pending_goal[id];
        let q = ProxyV { pending_goal: p.pending_goal.remove(id), ..p };
        let refs = ptrs_in(result);
        if generation != p.generation {
            step(q, released(q, uri, refs))
        } else if kind == "g"@ {
            step(
                ProxyV { state: StateV { goals: goals_answered(result@), ..q.state }, ..q },
                released(q, uri, refs).push(ActionV::Broadcast),
            )
        } else if kind == "t"@ {
            step(
                ProxyV { state: StateV { term_goal: term_answered(result@), ..q.state }, ..q },
                released(q, uri, refs).push(ActionV::Broadcast),
            )
        } else {
            let diags = diags_answered(result@);
            let kept = ptr_texts(lazy_ptrs(diags_traces(diags)));
            step(
                ProxyV {
                    state: StateV { diagnostics: diags, ..q.state },
                    diag_uri: Some(uri),
                    diag_generation: generation,
                    ..q
                },
                (released(q, uri, not_kept(refs, kept)) + shown_freed(q)).push(
                    ActionV::Broadcast,
                ),
            )
        }
    }
}

/// The lazy children of a trace node were answered. They are shown, unless
/// other diagnostics are shown by now.
pub open spec fn expansion_answered(p: ProxyV, id: Seq<char>, result: Json) -> Step {
    if !p.pending_expand.contains_key(id) {
        step(p, Seq::empty())
    } else {
        let req = p.pending_expand[id];
        let q = ProxyV { pending_expand: p.pending_expand.remove(id), ..p };
        let refs = seq![req.ptr] + ptrs_in(result);
        let diags = q.state.diagnostics;
        let children = children_segs(items_of(result@), req.node_id as u64);
        let kept = ptr_texts(lazy_ptrs(blocks_traces(children)));
        if req.generation != p.diag_generation {
            step(q, released(q, req.uri, refs))
        } else {
            step(
                ProxyV {
                    state: StateV {
                        diagnostics: match node_of(diags, req.node_id) {
                            Some(node) => with_node(
                                diags,
                                req.node_id,
                                TraceV { children, truncated: false, ..node },
                            ),
                            None => diags,
                        },
                        ..q.state
                    },
                    ..q
                },
                released(q, req.uri, not_kept(refs, kept)).push(ActionV::Broadcast),
            )
        }
    }
}

/// The number at the end of an id; 0 where there is none.
pub open spec fn number_or_zero(s: Seq<char>) -> u64 {
    match parse_unsigned(s, u64::MAX as nat) {
        Some(n) => n as u64,
        None => 0,
    }
}

/// One of the proxy's own requests was answered.
pub open spec fn response_handled(p: ProxyV, v: Json) -> Step {
    let id = str_or(field(v@, "id"@), Seq::empty());
    let error = field(v@, "error"@);
    match split_once(id.skip("infoview:"@.len() as int), ':') {
        None => step(p, Seq::empty()),
        Some((kind, tail)) => if error !is Null {
            error_answered(
                p,
                id,
                match signed_of(field(error, "code"@)) {
                    Some(code) => code,
                    None => 0,
                },
            )
        } else if kind == "c"@ {
            session_answered(p, id, field(field(v@, "result"@), "sessionId"@))
        } else if kind == "g"@ || kind == "t"@ || kind == "d"@ {
            wave_answered(p, id, kind, number_or_zero(tail), member(v, "result"@))
        } else if kind == "x"@ {
            expansion_answered(p, id, member(v, "result"@))
        } else {
            step(p, Seq::empty())
        },
    }
}

/// A watcher asks for the lazy children of a trace node. They are fetched,
/// unless the node is unknown or a fetch is in flight already.
pub open spec fn trace_expanded(p: ProxyV, node_id: u32) -> Step {
    let diags = p.state.diagnostics;
    match (p.diag_uri, node_of(diags, node_id)) {
        (Some(uri), Some(node)) => match node.lazy_ptr {
            Some(ptr) => if p.sessions.contains_key(uri) {
                let id = own_id("x"@, p.next_req);
                let at = if cursor_in(p, uri) {
                    p.cursor->0
                } else {
                    CursorV { uri, line: 0, character: 0 }
                };
                step(
                    ProxyV {
                        state: StateV {
                            diagnostics: with_node(
                                diags,
                                node_id,
                                TraceV { lazy_ptr: None, ..node },
                            ),
                            ..p.state
                        },
                        pending_expand: p.pending_expand.insert(
                            id,
                            ExpandV { generation: p.diag_generation, node_id, uri, ptr },
                        ),
                        next_req: p.next_req.wrapping_add(1),
                        ..p
                    },
                    seq![
                        ActionV::Send(
                            rpc_request(
                                id,
                                p.sessions[uri],
                                at.uri,
                                at.line,
                                at.character,
                                "Lean.Widget.lazyTraceChildrenToInteractive"@,
                                ptr,
                            ),
                        ),
                    ],
                )
            } else {
                step(p, Seq::empty())
            },
            None => step(p, Seq::empty()),
        },
        _ => step(p, Seq::empty()),
    }
}

/// The position after inserting `text` at (line, character).
pub open spec fn advanced(line: u64, character: u64, text: Seq<char>) -> (u64, u64) {
    let lines = split(text, '\n');
    if lines.len() == 1 {
        (line, character.wrapping_add(text.len() as u64))
    } else {
        (line.wrapping_add((lines.len() - 1) as u64), lines.last().len() as u64)
    }
}

/// The cursor has moved.
pub open spec fn cursor_moved(p: ProxyV, c: CursorV) -> Step {
    goals_requested(ProxyV { cursor: Some(c), ..p })
}

/// A uri without the `file://` before it.
pub open spec fn without_scheme(uri: Seq<char>) -> Seq<char> {
    match strip_prefix(uri, "file://"@) {
        Some(path) => path,
        None => uri,
    }
}

/// The workspace root that an `initialize` request names.
pub open spec fn root_of(params: JsonV) -> Seq<char> {
    match (str_of(field(params, "rootUri"@)), str_of(field(params, "rootPath"@))) {
        (Some(uri), _) => without_scheme(uri),
        (None, Some(path)) => without_scheme(path),
        (None, None) => without_scheme("unknown"@),
    }
}

/// Where a change ends: its text stands from the start of the range on.
pub open spec fn change_end(uri: Seq<char>, change: JsonV) -> Option<CursorV> {
    let start = field(field(change, "range"@), "start"@);
    match (unsigned_of(field(start, "line"@)), unsigned_of(field(start, "character"@))) {
        (Some(line), Some(character)) => {
            let at = advanced(line, character, str_or(field(change, "text"@), ""@));
            Some(CursorV { uri, line: at.0, character: at.1 })
        },
        _ => None,
    }
}

/// Where a message of the client leaves the cursor, if it says so: at the
/// position that is highlighted, or at the end of the last change.
pub open spec fn cursor_named(v: JsonV) -> Option<CursorV> {
    let method = str_of(field(v, "method"@));
    let params = field(v, "params"@);
    let at = field(params, "position"@);
    let changes = items_of(field(params, "contentChanges"@));
    match str_of(field(field(params, "textDocument"@), "uri"@)) {
        None => None,
        Some(uri) => if method == Some("textDocument/documentHighlight"@) {
            match (unsigned_of(field(at, "line"@)), unsigned_of(field(at, "character"@))) {
                (Some(line), Some(character)) => Some(CursorV { uri, line, character }),
                _ => None,
            }
        } else if method == Some("textDocument/didChange"@) && changes.len() > 0 {
            change_end(uri, changes.last())
        } else {
            None
        },
    }
}

/// A message of the client went by.
pub open spec fn client_inspected(p: ProxyV, v: JsonV) -> Step {
    if str_of(field(v, "method"@)) == Some("initialize"@) {
        step(p, seq![ActionV::StartSocket(root_of(field(v, "params"@)))])
    } else {
        match cursor_named(v) {
            Some(c) => cursor_moved(p, c),
            None => step(p, Seq::empty()),
        }
    }
}

/// The diagnostic that a plain LSP diagnostic shows.
pub open spec fn plain_diag(d: JsonV) -> DiagV {
    let start = field(field(d, "range"@), "start"@);
    DiagV {
        line: unsigned_or(field(start, "line"@), 0) as u32,
        column: unsigned_or(field(start, "character"@), 0) as u32,
        severity: unsigned_or(field(d, "severity"@), 1) as u8,
        message: seq![
            SegV::Text(TextSpanV { text: str_or(field(d, "message"@), ""@), diff: None }),
        ],
    }
}

/// The diagnostics that `publishDiagnostics` names.
pub open spec fn plain_diags_of(params: JsonV) -> Seq<DiagV> {
    items_of(field(params, "diagnostics"@)).map_values(|d: JsonV| plain_diag(d))
}

/// Plain diagnostics of a file came in. They are shown only until interactive
/// ones for that file arrive; afterwards the next wave refreshes those without
/// flicker. Where they replace interactive ones of another file, the pointers
/// that these held are freed.
pub open spec fn diags_published(p: ProxyV, uri: Seq<char>, diags: Seq<DiagV>) -> Step {
    let q = ProxyV { plain_diags: p.plain_diags.insert(uri, diags), ..p };
    if cursor_in(p, uri) && p.diag_uri != Some(uri) {
        step(
            ProxyV { state: StateV { diagnostics: diags, ..q.state }, ..q },
            shown_freed(p).push(ActionV::Broadcast),
        )
    } else {
        step(q, Seq::empty())
    }
}

/// The server reports whether it still elaborates a file. Once it has
/// finished the cursor's file, everything at the cursor is refreshed.
pub open spec fn progress_reported(p: ProxyV, uri: Seq<char>, processing: bool) -> Step {
    let q = ProxyV { state: StateV { processing, ..p.state }, ..p };
    if !cursor_in(p, uri) {
        step(p, Seq::empty())
    } else if p.state.processing == processing {
        step(q, Seq::empty())
    } else if processing {
        step(q, seq![ActionV::Broadcast])
    } else {
        goals_requested(q)
    }
}

/// A message of the server went by.
pub open spec fn server_inspected(p: ProxyV, v: JsonV) -> Step {
    let method = str_of(field(v, "method"@));
    let params = field(v, "params"@);
    if method == Some("textDocument/publishDiagnostics"@) {
        match str_of(field(params, "uri"@)) {
            Some(uri) => diags_published(p, uri, plain_diags_of(params)),
            None => step(p, Seq::empty()),
        }
    } else if method == Some("$/lean/fileProgress"@) {
        match str_of(field(field(params, "textDocument"@), "uri"@)) {
            Some(uri) => progress_reported(
                p,
                uri,
                items_of(field(params, "processing"@)).len() > 0,
            ),
            None => step(p, Seq::empty()),
        }
    } else {
        step(p, Seq::empty())
    }
}

/// A message of the server came in.
pub open spec fn server_handled(p: ProxyV, v: Json) -> Step {
    if is_own_response(v@) {
        response_handled(p, v)
    } else {
        server_inspected(p, v@)
    }
}

/// Whether a message of the server is passed on to the client: all are but the
/// answers to the proxy's own requests.
pub open spec fn is_passed_on(body: Seq<u8>) -> bool {
    match json_parsed(body) {
        Some(j) => !is_own_response(j),
        None => true,
    }
}

/// The body of a message of the server came in.
pub open spec fn body_handled(p: ProxyV, body: Seq<u8>) -> Step {
    match json_parsed(body) {
        Some(j) => server_handled(p, canonical_of(j)),
        None => step(p, Seq::empty()),
    }
}

/// What becomes of a stream of messages of the server.
pub struct Stream {
    pub proxy: ProxyV,
    /// The bodies that are passed on to the client, in order.
    pub passed: Seq<Seq<u8>>,
}

/// The bodies of messages of the server came in, one after the other.
pub open spec fn stream_handled(p: ProxyV, bodies: Seq<Seq<u8>>) -> Stream
    decreases bodies.len(),
{
    if bodies.len() == 0 {
        Stream { proxy: p, passed: Seq::empty() }
    } else {
        let before = stream_handled(p, bodies.drop_last());
        Stream {
            proxy: body_handled(before.proxy, bodies.last()).proxy,
            passed: if is_passed_on(bodies.last()) {
                before.passed.push(bodies.last())
            } else {
                before.passed
            },
        }
    }
}

/// A watcher sent a command.
pub open spec fn command_handled(p: ProxyV, v: JsonV) -> Step {
    match unsigned_of(field(v, "expand"@)) {
        Some(n) => trace_expanded(p, n as u32),
        None => step(p, Seq::empty()),
    }
}

/// The server is gone.
pub open spec fn server_gone(p: ProxyV) -> Step {
    step(
        ProxyV { state: StateV { server_alive: false, ..p.state }, ..p },
        seq![ActionV::Broadcast],
    )
}

/// One keep-alive for each of these files.
pub open spec fn keep_alives_for(p: ProxyV, uris: Seq<Seq<char>>) -> Seq<JsonV> {
    uris.map_values(|uri: Seq<char>| keep_alive(uri, p.sessions[uri]))
}

/// What the proxy does with a message of the server is told by what the message
/// says, once its members are in order.
pub proof fn equal_messages_are_handled_alike(p: ProxyV, a: Json, b: Json)
    requires
        canonical(a),
        canonical(b),
        a@ == b@,
    ensures
        server_handled(p, a) == server_handled(p, b),
{
    lemma_member(a, "result"@);
    lemma_member(b, "result"@);
    pointers_of_equal_values(member(a, "result"@), member(b, "result"@));
}

} // verus!
