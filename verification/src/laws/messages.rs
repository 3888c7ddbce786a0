//! What the messages that the proxy sends say, member by member.

use crate::json::{field, JsonV};
use crate::messages::{connect_request, document_position, keep_alive, release, rpc_request};
use vstd::prelude::*;

verus! {

/// The names of members differ from each other where they stand side by side.
pub proof fn lemma_member_names()
    ensures
        "jsonrpc"@.len() == 7,
        "id"@.len() == 2,
        "method"@.len() == 6,
        "params"@.len() == 6,
        "method"@ != "params"@,
        "uri"@.len() == 3,
        "sessionId"@.len() == 9,
        "refs"@.len() == 4,
        "textDocument"@.len() == 12,
        "position"@.len() == 8,
        "line"@.len() == 4,
        "character"@.len() == 9,
{
    reveal_strlit("jsonrpc");
    reveal_strlit("id");
    reveal_strlit("method");
    reveal_strlit("params");
    reveal_strlit("uri");
    reveal_strlit("sessionId");
    reveal_strlit("refs");
    reveal_strlit("textDocument");
    reveal_strlit("position");
    reveal_strlit("line");
    reveal_strlit("character");
    assert("method"@[0] == 'm' && "params"@[0] == 'p');
}

/// Whether a message is a JSON-RPC request with that id and method, and says
/// nothing besides its parameters.
pub open spec fn is_request(m: JsonV, id: Seq<char>, method: Seq<char>) -> bool {
    &&& m is Object
    &&& m->Object_0.dom() == set!["jsonrpc"@, "id"@, "method"@, "params"@]
    &&& field(m, "jsonrpc"@) == JsonV::Str("2.0"@)
    &&& field(m, "id"@) == JsonV::Str(id)
    &&& field(m, "method"@) == JsonV::Str(method)
}

/// Whether a message is a JSON-RPC notification of that method, and says nothing
/// besides its parameters.
pub open spec fn is_notification(m: JsonV, method: Seq<char>) -> bool {
    &&& m is Object
    &&& m->Object_0.dom() == set!["jsonrpc"@, "method"@, "params"@]
    &&& field(m, "jsonrpc"@) == JsonV::Str("2.0"@)
    &&& field(m, "method"@) == JsonV::Str(method)
}

/// Whether a value names a file.
pub open spec fn names_file(j: JsonV, uri: Seq<char>) -> bool {
    &&& j is Object
    &&& j->Object_0.dom() == set!["uri"@]
    &&& field(j, "uri"@) == JsonV::Str(uri)
}

/// Whether a value names a position.
pub open spec fn names_position(j: JsonV, line: u64, character: u64) -> bool {
    &&& j is Object
    &&& j->Object_0.dom() == set!["line"@, "character"@]
    &&& field(j, "line"@) == JsonV::Unsigned(line)
    &&& field(j, "character"@) == JsonV::Unsigned(character)
}

/// Whether a message asks for a session for that file.
pub open spec fn asks_for_session(m: JsonV, id: Seq<char>, uri: Seq<char>) -> bool {
    is_request(m, id, "$/lean/rpc/connect"@) && names_file(field(m, "params"@), uri)
}

/// Whether a message frees these references of the session of that file.
pub open spec fn frees(m: JsonV, uri: Seq<char>, session: JsonV, refs: Seq<JsonV>) -> bool {
    let params = field(m, "params"@);
    &&& is_notification(m, "$/lean/rpc/release"@)
    &&& params is Object
    &&& params->Object_0.dom() == set!["uri"@, "sessionId"@, "refs"@]
    &&& field(params, "uri"@) == JsonV::Str(uri)
    &&& field(params, "sessionId"@) == session
    &&& field(params, "refs"@) == JsonV::Array(refs)
}

/// Whether a message keeps the session of that file from expiring.
pub open spec fn keeps_alive(m: JsonV, uri: Seq<char>, session: JsonV) -> bool {
    let params = field(m, "params"@);
    &&& is_notification(m, "$/lean/rpc/keepAlive"@)
    &&& params is Object
    &&& params->Object_0.dom() == set!["uri"@, "sessionId"@]
    &&& field(params, "uri"@) == JsonV::Str(uri)
    &&& field(params, "sessionId"@) == session
}

/// Whether a message calls that method of the session at that position, with
/// that argument.
pub open spec fn calls(
    m: JsonV,
    id: Seq<char>,
    session: JsonV,
    uri: Seq<char>,
    line: u64,
    character: u64,
    method: Seq<char>,
    argument: JsonV,
) -> bool {
    let params = field(m, "params"@);
    &&& is_request(m, id, "$/lean/rpc/call"@)
    &&& params is Object
    &&& params->Object_0.dom() == set![
        "method"@,
        "params"@,
        "sessionId"@,
        "textDocument"@,
        "position"@,
    ]
    &&& field(params, "method"@) == JsonV::Str(method)
    &&& field(params, "params"@) == argument
    &&& field(params, "sessionId"@) == session
    &&& names_file(field(params, "textDocument"@), uri)
    &&& names_position(field(params, "position"@), line, character)
}

/// Whether a value names a position of a file.
pub open spec fn names_place(j: JsonV, uri: Seq<char>, line: u64, character: u64) -> bool {
    &&& j is Object
    &&& j->Object_0.dom() == set!["textDocument"@, "position"@]
    &&& names_file(field(j, "textDocument"@), uri)
    &&& names_position(field(j, "position"@), line, character)
}

/// The request for a session is a `$/lean/rpc/connect` that names the file.
pub proof fn session_requests_name_the_file(id: Seq<char>, uri: Seq<char>)
    ensures
        asks_for_session(connect_request(id, uri), id, uri),
{
    lemma_member_names();
    let m = connect_request(id, uri);
    assert(m->Object_0.dom() =~= set!["jsonrpc"@, "id"@, "method"@, "params"@]);
    assert(field(m, "params"@)->Object_0.dom() =~= set!["uri"@]);
}

/// References are freed by a `$/lean/rpc/release` that names the file and its
/// session, and all of the references in order.
pub proof fn releases_name_the_references(uri: Seq<char>, session: JsonV, refs: Seq<JsonV>)
    ensures
        frees(release(uri, session, refs), uri, session, refs),
{
    lemma_member_names();
    let m = release(uri, session, refs);
    assert(m->Object_0.dom() =~= set!["jsonrpc"@, "method"@, "params"@]);
    assert(field(m, "params"@)->Object_0.dom() =~= set!["uri"@, "sessionId"@, "refs"@]);
}

/// A session is kept from expiring by a `$/lean/rpc/keepAlive` that names the
/// file and its session.
pub proof fn keep_alives_name_the_session(uri: Seq<char>, session: JsonV)
    ensures
        keeps_alive(keep_alive(uri, session), uri, session),
{
    lemma_member_names();
    let m = keep_alive(uri, session);
    assert(m->Object_0.dom() =~= set!["jsonrpc"@, "method"@, "params"@]);
    assert(field(m, "params"@)->Object_0.dom() =~= set!["uri"@, "sessionId"@]);
}

/// A call is a `$/lean/rpc/call` that names the method, its argument, the
/// session, the file and the position.
pub proof fn calls_name_their_arguments(
    id: Seq<char>,
    session: JsonV,
    uri: Seq<char>,
    line: u64,
    character: u64,
    method: Seq<char>,
    argument: JsonV,
)
    ensures
        calls(
            rpc_request(id, session, uri, line, character, method, argument),
            id,
            session,
            uri,
            line,
            character,
            method,
            argument,
        ),
{
    lemma_member_names();
    let m = rpc_request(id, session, uri, line, character, method, argument);
    let params = field(m, "params"@);
    assert(m->Object_0.dom() =~= set!["jsonrpc"@, "id"@, "method"@, "params"@]);
    assert(params->Object_0.dom() =~= set![
        "method"@,
        "params"@,
        "sessionId"@,
        "textDocument"@,
        "position"@,
    ]);
    assert(field(params, "textDocument"@)->Object_0.dom() =~= set!["uri"@]);
    assert(field(params, "position"@)->Object_0.dom() =~= set!["line"@, "character"@]);
}

/// A position of a file is named by the file and the position.
pub proof fn places_name_file_and_position(uri: Seq<char>, line: u64, character: u64)
    ensures
        names_place(document_position(uri, line, character), uri, line, character),
{
    lemma_member_names();
    let j = document_position(uri, line, character);
    assert(j->Object_0.dom() =~= set!["textDocument"@, "position"@]);
    assert(field(j, "textDocument"@)->Object_0.dom() =~= set!["uri"@]);
    assert(field(j, "position"@)->Object_0.dom() =~= set!["line"@, "character"@]);
}

} // verus!
