//! What the proxy does on the messages between client and server.

use crate::json::{canonical, canonical_of, field, json_parsed, Json, JsonV};
use crate::laws::conversion::pointers_of_nodes;
use crate::laws::lookup::{nodes_of_diagnostics, nodes_shown};
use crate::laws::messages::{
    calls, calls_name_their_arguments, keep_alives_name_the_session, keeps_alive, names_place,
    places_name_file_and_position,
};
use crate::laws::proxy::{answers_reach_their_request, lemma_kinds, requests_are_not_ours};
use crate::laws::steps::{
    asks_once, frees_exactly, pointers_held, references_are_freed_at_once, sessions_are_asked_for,
};
use crate::laws::text::cutting_at_the_first;
use crate::messages::{document_position, own_id};
use crate::model::{
    advanced, body_handled, client_inspected, cursor_in, equal_messages_are_handled_alike,
    goals_requested, is_own_response, is_passed_on, keep_alives_for, plain_diag, response_handled,
    server_gone, server_handled, server_inspected, session_ensured, shown_freed, started, state_at,
    stream_handled, ActionV, CursorV, ProxyV,
};
use crate::state::StateV;
use crate::text::{split, split_once};
use vstd::prelude::*;

verus! {

/// The state shows where the cursor is. In the file that was shown before, the
/// diagnostics stay; in another, the plain ones of that file are shown, if any
/// are known. Nothing else changes.
pub proof fn state_follows_the_cursor(p: ProxyV)
    requires
        p.cursor is Some,
    ensures
        ({
            let s = goals_requested(p).proxy.state;
            let c = p.cursor->0;
            &&& s.uri == Some(c.uri)
            &&& s.line == c.line % 0x1_0000_0000
            &&& s.column == c.character % 0x1_0000_0000
            &&& p.state.uri == Some(c.uri) ==> s.diagnostics == p.state.diagnostics
            &&& p.state.uri != Some(c.uri) && p.plain_diags.contains_key(c.uri) ==> s.diagnostics
                == p.plain_diags[c.uri]
            &&& p.state.uri != Some(c.uri) && !p.plain_diags.contains_key(c.uri)
                ==> s.diagnostics.len() == 0
            &&& s.goals == p.state.goals
            &&& s.term_goal == p.state.term_goal
            &&& s.processing == p.state.processing
            &&& s.server_alive == p.state.server_alive
        }),
{
    let line = p.cursor->0.line;
    let character = p.cursor->0.character;
    assert(line as u32 == line % 0x1_0000_0000) by (bit_vector);
    assert(character as u32 == character % 0x1_0000_0000) by (bit_vector);
}

/// Where the cursor's file has a session, three calls go out at the cursor, under
/// ids of a new wave: for the goals and the expected type there, and for all
/// diagnostics of the file. All three are pending for the file; then watchers are
/// told. Nothing else that is known changes but what is shown.
pub proof fn three_calls_are_made_at_the_cursor(p: ProxyV, id: Seq<char>)
    requires
        p.cursor is Some,
        p.sessions.contains_key(p.cursor->0.uri),
    ensures
        ({
            let s = goals_requested(p);
            let c = p.cursor->0;
            let session = p.sessions[c.uri];
            let g = p.generation.wrapping_add(1);
            let goals = s.actions[0]->Send_0;
            let term = s.actions[1]->Send_0;
            let diags = s.actions[2]->Send_0;
            let goals_at = field(field(goals, "params"@), "params"@);
            let term_at = field(field(term, "params"@), "params"@);
            let all = field(field(diags, "params"@), "params"@);
            &&& s.actions.len() == 4
            &&& s.actions[0] is Send && s.actions[1] is Send && s.actions[2] is Send
            &&& s.actions[3] == ActionV::Broadcast
            &&& calls(
                goals,
                own_id("g"@, g),
                session,
                c.uri,
                c.line,
                c.character,
                "Lean.Widget.getInteractiveGoals"@,
                goals_at,
            )
            &&& names_place(goals_at, c.uri, c.line, c.character)
            &&& calls(
                term,
                own_id("t"@, g),
                session,
                c.uri,
                c.line,
                c.character,
                "Lean.Widget.getInteractiveTermGoal"@,
                term_at,
            )
            &&& names_place(term_at, c.uri, c.line, c.character)
            &&& calls(
                diags,
                own_id("d"@, g),
                session,
                c.uri,
                c.line,
                c.character,
                "Lean.Widget.getInteractiveDiagnostics"@,
                all,
            )
            &&& all is Object
            &&& all->Object_0.dom() == Set::<Seq<char>>::empty()
            &&& s.proxy.generation == g
            &&& s.proxy == (ProxyV {
                state: s.proxy.state,
                generation: g,
                pending_goal: s.proxy.pending_goal,
                ..p
            })
            &&& id == own_id("g"@, g) || id == own_id("t"@, g) || id == own_id("d"@, g)
                ==> s.proxy.pending_goal.contains_key(id) && s.proxy.pending_goal[id] == c.uri
            &&& id != own_id("g"@, g) && id != own_id("t"@, g) && id != own_id("d"@, g) ==> (
            s.proxy.pending_goal.contains_key(id) <==> p.pending_goal.contains_key(id))
                && s.proxy.pending_goal[id] == p.pending_goal[id]
        }),
{
    lemma_kinds();
    let c = p.cursor->0;
    let session = p.sessions[c.uri];
    let g = p.generation.wrapping_add(1);
    let at = document_position(c.uri, c.line, c.character);
    places_name_file_and_position(c.uri, c.line, c.character);
    calls_name_their_arguments(
        own_id("g"@, g),
        session,
        c.uri,
        c.line,
        c.character,
        "Lean.Widget.getInteractiveGoals"@,
        at,
    );
    calls_name_their_arguments(
        own_id("t"@, g),
        session,
        c.uri,
        c.line,
        c.character,
        "Lean.Widget.getInteractiveTermGoal"@,
        at,
    );
    calls_name_their_arguments(
        own_id("d"@, g),
        session,
        c.uri,
        c.line,
        c.character,
        "Lean.Widget.getInteractiveDiagnostics"@,
        JsonV::Object(Map::empty()),
    );
    assert(Map::<Seq<char>, JsonV>::empty().dom() =~= Set::empty());
}

/// Where the cursor's file has no session, one is asked for; then watchers are
/// told. Where there is no cursor, nothing is done.
pub proof fn without_session_one_is_asked_for(p: ProxyV)
    ensures
        ({
            let s = goals_requested(p);
            &&& p.cursor is None ==> s.proxy == p && s.actions.len() == 0
            &&& p.cursor is Some && !p.sessions.contains_key(p.cursor->0.uri) ==> {
                &&& s.actions.len() > 0
                &&& s.actions.last() == ActionV::Broadcast
                &&& asks_once(
                    ProxyV { state: s.proxy.state, ..p },
                    s.proxy,
                    s.actions.drop_last(),
                    p.cursor->0.uri,
                )
            }
        }),
{
    let s = goals_requested(p);
    if let Some(c) = p.cursor {
        if !p.sessions.contains_key(c.uri) {
            let q = ProxyV { state: state_at(p, c), ..p };
            sessions_are_asked_for(q, c.uri);
            assert(s.actions.drop_last() =~= session_ensured(q, c.uri).actions);
        }
    }
}

/// A session that is granted is the one of the file that it was asked for. Where
/// the cursor is there, what there is at the cursor is asked for at once. Where
/// none is granted, the request has ended and that is all; an answer that no
/// request waits for does nothing.
pub proof fn sessions_that_are_granted_are_used(p: ProxyV, v: Json, n: u64)
    requires
        field(v@, "id"@) == JsonV::Str(own_id("c"@, n)),
        field(v@, "method"@) !is Str,
        field(v@, "error"@) is Null,
    ensures
        ({
            let s = server_handled(p, v);
            let id = own_id("c"@, n);
            let session = field(field(v@, "result"@), "sessionId"@);
            let uri = p.pending_connect[id];
            let q = ProxyV { pending_connect: p.pending_connect.remove(id), ..p };
            let granted = ProxyV { sessions: p.sessions.insert(uri, session), ..q };
            &&& !p.pending_connect.contains_key(id) ==> s.proxy == p && s.actions.len() == 0
            &&& p.pending_connect.contains_key(id) && session is Null ==> s.proxy == q
                && s.actions.len() == 0
            &&& p.pending_connect.contains_key(id) && session !is Null && (p.cursor is Some
                && p.cursor->0.uri == uri) ==> s == goals_requested(granted)
            &&& p.pending_connect.contains_key(id) && session !is Null && !(p.cursor is Some
                && p.cursor->0.uri == uri) ==> s.proxy == granted && s.actions.len() == 0
        }),
{
    lemma_kinds();
    answers_reach_their_request(p, v, "c"@, n);
}

proof fn lemma_methods()
    ensures
        "initialize"@.len() == 10,
        "textDocument/documentHighlight"@.len() == 30,
        "textDocument/didChange"@.len() == 22,
        "textDocument/publishDiagnostics"@.len() == 31,
        "$/lean/fileProgress"@.len() == 19,
{
    reveal_strlit("initialize");
    reveal_strlit("textDocument/documentHighlight");
    reveal_strlit("textDocument/didChange");
    reveal_strlit("textDocument/publishDiagnostics");
    reveal_strlit("$/lean/fileProgress");
}

/// A `documentHighlight` of the client moves the cursor to the position that it
/// names, and what there is at the cursor is asked for.
pub proof fn highlights_move_the_cursor(
    p: ProxyV,
    v: JsonV,
    uri: Seq<char>,
    line: u64,
    character: u64,
)
    requires
        field(v, "method"@) == JsonV::Str("textDocument/documentHighlight"@),
        field(field(field(v, "params"@), "textDocument"@), "uri"@) == JsonV::Str(uri),
        field(field(field(v, "params"@), "position"@), "line"@) == JsonV::Unsigned(line),
        field(field(field(v, "params"@), "position"@), "character"@) == JsonV::Unsigned(character),
    ensures
        client_inspected(p, v) == goals_requested(
            ProxyV { cursor: Some(CursorV { uri, line, character }), ..p },
        ),
{
    lemma_methods();
}

/// A `didChange` of the client moves the cursor to where the text of its last
/// change ends, counted from the start of the range that it replaces.
pub proof fn changes_move_the_cursor(
    p: ProxyV,
    v: JsonV,
    uri: Seq<char>,
    changes: Seq<JsonV>,
    line: u64,
    character: u64,
    text: Seq<char>,
)
    requires
        field(v, "method"@) == JsonV::Str("textDocument/didChange"@),
        field(field(field(v, "params"@), "textDocument"@), "uri"@) == JsonV::Str(uri),
        field(field(v, "params"@), "contentChanges"@) == JsonV::Array(changes),
        changes.len() > 0,
        field(field(field(changes.last(), "range"@), "start"@), "line"@) == JsonV::Unsigned(line),
        field(field(field(changes.last(), "range"@), "start"@), "character"@) == JsonV::Unsigned(
            character,
        ),
        field(changes.last(), "text"@) == JsonV::Str(text) || (field(changes.last(), "text"@)
            !is Str && text.len() == 0),
    ensures
        ({
            let (to_line, to_character) = advanced(line, character, text);
            client_inspected(p, v) == goals_requested(
                ProxyV {
                    cursor: Some(CursorV { uri, line: to_line, character: to_character }),
                    ..p
                },
            )
        }),
{
    lemma_methods();
    reveal_strlit("");
    if text.len() == 0 {
        assert(text =~= ""@);
    }
}

/// Inserting nothing leaves the cursor where it is, a newline takes it to the
/// start of the next line, and any other character one column on.
pub proof fn inserting_one_character(line: u64, character: u64, c: char)
    requires
        line < u64::MAX,
        character < u64::MAX,
    ensures
        advanced(line, character, Seq::empty()) == (line, character),
        c == '\n' ==> advanced(line, character, seq![c]) == ((line + 1) as u64, 0u64),
        c != '\n' ==> advanced(line, character, seq![c]) == (line, (character + 1) as u64),
{
    reveal_with_fuel(split, 2);
    assert(seq![c].drop_last() =~= Seq::empty());
}

/// An `initialize` of the client says where to listen for watchers: at the root
/// that its `rootUri` names, else its `rootPath`, without `file://` before it.
/// Nothing else is done.
pub proof fn initialize_starts_the_socket(p: ProxyV, v: JsonV, path: Seq<char>)
    requires
        field(v, "method"@) == JsonV::Str("initialize"@),
    ensures
        ({
            let s = client_inspected(p, v);
            let uri = field(field(v, "params"@), "rootUri"@);
            let old = field(field(v, "params"@), "rootPath"@);
            &&& s.proxy == p
            &&& s.actions.len() == 1
            &&& uri == JsonV::Str("file://"@ + path) || (uri !is Str && old == JsonV::Str(
                "file://"@ + path,
            )) ==> s.actions[0] == ActionV::StartSocket(path)
            &&& !"file://"@.is_prefix_of(path) && (uri == JsonV::Str(path) || (uri !is Str && old
                == JsonV::Str(path))) ==> s.actions[0] == ActionV::StartSocket(path)
            &&& uri !is Str && old !is Str ==> s.actions[0] == ActionV::StartSocket("unknown"@)
        }),
{
    let uri = "file://"@ + path;
    assert(uri.subrange(0, "file://"@.len() as int) =~= "file://"@);
    assert(uri.skip("file://"@.len() as int) =~= path);
    reveal_strlit("unknown");
    reveal_strlit("file://");
    assert("unknown"@[0] == 'u' && "file://"@[0] == 'f');
    assert(!"file://"@.is_prefix_of("unknown"@));
}

/// Every other message of the client is only passed on: one of another method,
/// one that names no file, and one that names no position.
pub proof fn other_client_messages_are_only_passed_on(p: ProxyV, v: JsonV)
    requires
        ({
            let method = field(v, "method"@);
            let params = field(v, "params"@);
            let at = field(params, "position"@);
            let changes = field(params, "contentChanges"@);
            let start = field(field(changes->Array_0.last(), "range"@), "start"@);
            &&& method != JsonV::Str("initialize"@)
            &&& {
                ||| field(field(params, "textDocument"@), "uri"@) !is Str
                ||| method != JsonV::Str("textDocument/documentHighlight"@) && method
                    != JsonV::Str("textDocument/didChange"@)
                ||| method == JsonV::Str("textDocument/documentHighlight"@) && (field(at, "line"@)
                    !is Unsigned || field(at, "character"@) !is Unsigned)
                ||| method == JsonV::Str("textDocument/didChange"@) && (changes !is Array
                    || changes->Array_0.len() == 0 || field(start, "line"@) !is Unsigned || field(
                    start,
                    "character"@,
                ) !is Unsigned)
            }
        }),
    ensures
        client_inspected(p, v).proxy == p,
        client_inspected(p, v).actions.len() == 0,
{
    lemma_methods();
}

/// A plain diagnostic shows its position, its severity and its message as one
/// text; what is missing is the beginning of the file, an error, and no text.
pub proof fn plain_diagnostics_are_kept(d: JsonV, n: u64, s: Seq<char>)
    ensures
        ({
            let start = field(field(d, "range"@), "start"@);
            let shown = plain_diag(d);
            let text = shown.message[0]->Text_0;
            &&& field(start, "line"@) == JsonV::Unsigned(n) ==> shown.line == n % 0x1_0000_0000
            &&& field(start, "line"@) !is Unsigned ==> shown.line == 0
            &&& field(start, "character"@) == JsonV::Unsigned(n) ==> shown.column == n
                % 0x1_0000_0000
            &&& field(start, "character"@) !is Unsigned ==> shown.column == 0
            &&& field(d, "severity"@) == JsonV::Unsigned(n) ==> shown.severity == n % 0x100
            &&& field(d, "severity"@) !is Unsigned ==> shown.severity == 1
            &&& shown.message.len() == 1
            &&& shown.message[0] is Text
            &&& text.diff is None
            &&& field(d, "message"@) == JsonV::Str(s) ==> text.text == s
            &&& field(d, "message"@) !is Str ==> text.text.len() == 0
        }),
{
    reveal_strlit("");
    assert(n as u32 == n % 0x1_0000_0000) by (bit_vector);
    assert(n as u8 == n % 0x100) by (bit_vector);
}

/// A `publishDiagnostics` of the server says what the plain diagnostics of a file
/// are from now on, one for each that it names, in order; those of other files
/// stay.
pub proof fn published_diagnostics_are_remembered(
    p: ProxyV,
    v: Json,
    uri: Seq<char>,
    items: Seq<JsonV>,
    i: int,
    other: Seq<char>,
)
    requires
        field(v@, "method"@) == JsonV::Str("textDocument/publishDiagnostics"@),
        field(field(v@, "params"@), "uri"@) == JsonV::Str(uri),
        field(field(v@, "params"@), "diagnostics"@) == JsonV::Array(items) || (field(
            field(v@, "params"@),
            "diagnostics"@,
        ) !is Array && items.len() == 0),
    ensures
        ({
            let q = server_handled(p, v).proxy;
            &&& q.plain_diags.contains_key(uri)
            &&& q.plain_diags[uri].len() == items.len()
            &&& 0 <= i < items.len() ==> q.plain_diags[uri][i] == plain_diag(items[i])
            &&& other != uri ==> (q.plain_diags.contains_key(other) <==> p.plain_diags.contains_key(
                other,
            )) && q.plain_diags[other] == p.plain_diags[other]
            &&& q == (ProxyV {
                plain_diags: q.plain_diags,
                state: StateV { diagnostics: q.state.diagnostics, ..p.state },
                ..p
            })
        }),
{
    requests_are_not_ours(v@);
}

/// Plain diagnostics that are published are shown exactly where the cursor is in
/// their file and no interactive ones of it are shown. Then the pointers of the
/// diagnostics that they replace are freed, and watchers are told.
pub proof fn published_diagnostics_are_shown_at_the_cursor(p: ProxyV, v: Json, uri: Seq<char>)
    requires
        field(v@, "method"@) == JsonV::Str("textDocument/publishDiagnostics"@),
        field(field(v@, "params"@), "uri"@) == JsonV::Str(uri),
    ensures
        ({
            let s = server_handled(p, v);
            let here = p.cursor is Some && p.cursor->0.uri == uri;
            &&& here && p.diag_uri != Some(uri) ==> {
                &&& s.proxy.state.diagnostics == s.proxy.plain_diags[uri]
                &&& s.actions.len() > 0
                &&& s.actions.last() == ActionV::Broadcast
                &&& p.diag_uri is None ==> s.actions.len() == 1
                &&& p.diag_uri matches Some(shown) ==> frees_exactly(
                    s.actions.drop_last(),
                    p,
                    shown,
                    pointers_held(p.state.diagnostics),
                )
            }
            &&& !here || p.diag_uri == Some(uri) ==> s.proxy.state.diagnostics
                == p.state.diagnostics && s.actions.len() == 0
        }),
{
    requests_are_not_ours(v@);
    let s = server_handled(p, v);
    nodes_of_diagnostics(p.state.diagnostics);
    pointers_of_nodes(nodes_shown(p.state.diagnostics));
    if let Some(shown) = p.diag_uri {
        references_are_freed_at_once(p, shown, pointers_held(p.state.diagnostics));
        if cursor_in(p, uri) && p.diag_uri != Some(uri) {
            assert(s.actions.drop_last() =~= shown_freed(p));
        }
    }
}

/// A `fileProgress` of the server says whether it still elaborates a file: it
/// does while it names anything. Of another file than the cursor's it says
/// nothing; of the cursor's, the state shows it. Watchers are told when it
/// begins; when it ends, what there is at the cursor is asked for again.
pub proof fn progress_is_shown(p: ProxyV, v: Json, uri: Seq<char>, items: Seq<JsonV>)
    requires
        field(v@, "method"@) == JsonV::Str("$/lean/fileProgress"@),
        field(field(field(v@, "params"@), "textDocument"@), "uri"@) == JsonV::Str(uri),
        field(field(v@, "params"@), "processing"@) == JsonV::Array(items) || (field(
            field(v@, "params"@),
            "processing"@,
        ) !is Array && items.len() == 0),
    ensures
        ({
            let s = server_handled(p, v);
            let processing = items.len() > 0;
            let q = ProxyV { state: StateV { processing, ..p.state }, ..p };
            let here = p.cursor is Some && p.cursor->0.uri == uri;
            &&& !here ==> s.proxy == p && s.actions.len() == 0
            &&& here && p.state.processing == processing ==> s.proxy == p && s.actions.len() == 0
            &&& here && !p.state.processing && processing ==> s.proxy == q && s.actions == seq![
                ActionV::Broadcast,
            ]
            &&& here && p.state.processing && !processing ==> s == goals_requested(q)
        }),
{
    lemma_methods();
    requests_are_not_ours(v@);
}

/// Every other message of the server that answers none of the proxy's requests is
/// only passed on: one of another method, and one that names no file.
pub proof fn other_server_messages_are_only_passed_on(p: ProxyV, v: Json)
    requires
        ({
            let method = field(v@, "method"@);
            let params = field(v@, "params"@);
            &&& method is Str
            &&& {
                ||| method != JsonV::Str("textDocument/publishDiagnostics"@) && method
                    != JsonV::Str("$/lean/fileProgress"@)
                ||| method == JsonV::Str("textDocument/publishDiagnostics"@) && field(
                    params,
                    "uri"@,
                ) !is Str
                ||| method == JsonV::Str("$/lean/fileProgress"@) && field(
                    field(params, "textDocument"@),
                    "uri"@,
                ) !is Str
            }
        }),
    ensures
        server_handled(p, v).proxy == p,
        server_handled(p, v).actions.len() == 0,
{
    lemma_methods();
    requests_are_not_ours(v@);
}

/// What answers a request of the client is only passed on.
pub proof fn answers_to_the_client_are_only_passed_on(p: ProxyV, v: Json, id: Seq<char>)
    requires
        field(v@, "id"@) !is Str || (field(v@, "id"@) == JsonV::Str(id)
            && !"infoview:"@.is_prefix_of(id)),
        field(v@, "method"@) !is Str,
    ensures
        server_handled(p, v).proxy == p,
        server_handled(p, v).actions.len() == 0,
{
}

/// An answer under an id of the proxy's own that no request of its can have does
/// nothing: one without a kind, and one of another kind that is no error.
pub proof fn answers_of_no_kind_do_nothing(p: ProxyV, v: Json, kind: Seq<char>, tail: Seq<char>)
    requires
        field(v@, "method"@) !is Str,
        !kind.contains(':'),
        ({
            ||| field(v@, "id"@) == JsonV::Str("infoview:"@ + kind)
            ||| field(v@, "id"@) == JsonV::Str("infoview:"@ + (kind + seq![':'] + tail)) && field(
                v@,
                "error"@,
            ) is Null && kind != "c"@ && kind != "g"@ && kind != "t"@ && kind != "d"@ && kind
                != "x"@
        }),
    ensures
        server_handled(p, v).proxy == p,
        server_handled(p, v).actions.len() == 0,
{
    let prefix = "infoview:"@;
    let rest = kind + seq![':'] + tail;
    let n = prefix.len() as int;
    assert((prefix + kind).skip(n) =~= kind);
    assert((prefix + rest).skip(n) =~= rest);
    assert((prefix + kind).subrange(0, n) =~= prefix);
    assert((prefix + rest).subrange(0, n) =~= prefix);
    cutting_at_the_first(kind, ':');
    cutting_at_the_first(rest, ':');
    assert(rest[kind.len() as int] == ':');
    let cut = split_once(rest, ':');
    assert(rest.contains(':'));
    let (a, b) = cut->0;
    assert(a =~= kind) by {
        if a.len() < kind.len() {
            assert(kind[a.len() as int] == rest[a.len() as int]);
            assert(kind.contains(':'));
        }
        if kind.len() < a.len() {
            assert(a[kind.len() as int] == rest[kind.len() as int]);
            assert(a.contains(':'));
        }
        assert(forall|i: int| 0 <= i < a.len() ==> #[trigger] a[i] == rest[i]);
    }
}

/// A body of the server that is JSON is handled as what it says, in whatever
/// order its members stand; one that is not is only passed on.
pub proof fn bodies_are_handled_as_what_they_say(p: ProxyV, body: Seq<u8>, v: Json)
    requires
        canonical(v),
    ensures
        json_parsed(body) == Some(v@) ==> body_handled(p, body) == server_handled(p, v),
        json_parsed(body) is None ==> body_handled(p, body).proxy == p && body_handled(
            p,
            body,
        ).actions.len() == 0,
{
    if json_parsed(body) == Some(v@) {
        equal_messages_are_handled_alike(p, v, canonical_of(v@));
    }
}

/// A stream of bodies is handled one after the other.
pub proof fn streams_are_handled_in_order(p: ProxyV, bodies: Seq<Seq<u8>>, body: Seq<u8>)
    ensures
        stream_handled(p, Seq::empty()).proxy == p,
        stream_handled(p, bodies.push(body)).proxy == body_handled(
            stream_handled(p, bodies).proxy,
            body,
        ).proxy,
{
    assert(bodies.push(body).drop_last() =~= bodies);
}

/// Messages of the server are handled as answers to the proxy's own requests where
/// they are such, and are inspected else. Of a message without a method there is
/// nothing to inspect.
pub proof fn server_messages_are_told_apart(p: ProxyV, v: Json)
    ensures
        is_own_response(v@) ==> server_handled(p, v) == response_handled(p, v),
        !is_own_response(v@) ==> server_handled(p, v) == server_inspected(p, v@),
        field(v@, "method"@) is Str ==> server_handled(p, v) == server_inspected(p, v@),
        field(v@, "method"@) !is Str ==> server_inspected(p, v@).proxy == p && server_inspected(
            p,
            v@,
        ).actions.len() == 0,
{
}

/// When the server is gone the state says so, and nothing else changes; watchers
/// are told, once.
pub proof fn the_end_of_the_server_is_shown(p: ProxyV)
    ensures
        ({
            let s = server_gone(p);
            &&& s.actions == seq![ActionV::Broadcast]
            &&& !s.proxy.state.server_alive
            &&& s.proxy == (ProxyV { state: s.proxy.state, ..p })
            &&& s.proxy.state == (StateV {
                server_alive: s.proxy.state.server_alive,
                ..p.state
            })
        }),
{
}

/// Each file gets one message that keeps its session from expiring.
pub proof fn each_session_is_kept_alive(p: ProxyV, uris: Seq<Seq<char>>, i: int)
    requires
        0 <= i < uris.len(),
    ensures
        keep_alives_for(p, uris).len() == uris.len(),
        keeps_alive(keep_alives_for(p, uris)[i], uris[i], p.sessions[uris[i]]),
{
    keep_alives_name_the_session(uris[i], p.sessions[uris[i]]);
}

/// At the start the server runs, and nothing else is known, shown or asked for.
pub proof fn nothing_is_known_at_the_start(x: Seq<char>)
    ensures
        ({
            let p = started();
            &&& p.state.server_alive
            &&& !p.state.processing
            &&& p.state.uri is None
            &&& p.state.line == 0
            &&& p.state.column == 0
            &&& p.state.goals is None
            &&& p.state.term_goal is None
            &&& p.state.diagnostics.len() == 0
            &&& p.cursor is None
            &&& p.diag_uri is None
            &&& !p.plain_diags.contains_key(x)
            &&& !p.sessions.contains_key(x)
            &&& !p.pending_connect.contains_key(x)
            &&& !p.pending_goal.contains_key(x)
            &&& !p.pending_expand.contains_key(x)
        }),
{
}

/// The answers to the proxy's own requests are told by their id, which is a text
/// with the proxy's prefix, and by having no method. All other bodies are passed
/// on to the client, those that are no JSON among them; these alone are not.
pub proof fn only_own_answers_are_held_back(v: JsonV, id: Seq<char>, body: Seq<u8>)
    ensures
        field(v, "id"@) == JsonV::Str("infoview:"@ + id) && field(v, "method"@) !is Str
            ==> is_own_response(v),
        field(v, "id"@) == JsonV::Str(id) && !"infoview:"@.is_prefix_of(id) ==> !is_own_response(v),
        field(v, "id"@) !is Str ==> !is_own_response(v),
        field(v, "method"@) is Str ==> !is_own_response(v),
        json_parsed(body) is None ==> is_passed_on(body),
        json_parsed(body) == Some(v) ==> is_passed_on(body) == !is_own_response(v),
{
    let whole = "infoview:"@ + id;
    assert(whole.subrange(0, "infoview:"@.len() as int) =~= "infoview:"@);
}

} // verus!
