//! The messages that the proxy itself sends to the Lean server.

use crate::json::{items_view, json_text, print_json, put, text_json, Json, JsonV, Member};
use crate::rpc::{frame, write_message};
use crate::text::{decimal, decimal_text};
use vstd::prelude::*;
use vstd::utf8::encode_utf8;

verus! {

/// The id of one of the proxy's own requests.
pub open spec fn own_id(kind: Seq<char>, n: u64) -> Seq<char> {
    "infoview:"@ + kind + ":"@ + decimal(n as nat)
}

pub fn own_id_text(kind: &str, n: u64) -> (r: String)
    ensures
        r@ == own_id(kind@, n),
{
    let mut id = "infoview:".to_owned();
    id.append(kind);
    id.append(":");
    let digits = decimal_text(n);
    id.append(digits.as_str());
    id
}

/// `{ "uri": uri }`
pub open spec fn uri_object(uri: Seq<char>) -> JsonV {
    JsonV::Object(Map::empty().insert("uri"@, JsonV::Str(uri)))
}

fn uri_json(uri: &str) -> (r: Json)
    ensures
        r@ == uri_object(uri@),
{
    let mut m: Vec<Member> = Vec::new();
    put(&mut m, "uri", text_json(uri));
    Json::Object(m)
}

/// `{ "line": line, "character": character }`
pub open spec fn position_object(line: u64, character: u64) -> JsonV {
    JsonV::Object(
        Map::empty().insert("line"@, JsonV::Unsigned(line)).insert(
            "character"@,
            JsonV::Unsigned(character),
        ),
    )
}

fn position_json(line: u64, character: u64) -> (r: Json)
    ensures
        r@ == position_object(line, character),
{
    let mut m: Vec<Member> = Vec::new();
    put(&mut m, "line", Json::Unsigned(line));
    put(&mut m, "character", Json::Unsigned(character));
    Json::Object(m)
}

/// A request with that id.
pub open spec fn request(id: Seq<char>, method: Seq<char>, params: JsonV) -> JsonV {
    JsonV::Object(
        Map::empty().insert("jsonrpc"@, JsonV::Str("2.0"@)).insert("id"@, JsonV::Str(id)).insert(
            "method"@,
            JsonV::Str(method),
        ).insert("params"@, params),
    )
}

fn request_json(id: &str, method: &str, params: Json) -> (r: Json)
    ensures
        r@ == request(id@, method@, params@),
{
    let mut m: Vec<Member> = Vec::new();
    put(&mut m, "jsonrpc", text_json("2.0"));
    put(&mut m, "id", text_json(id));
    put(&mut m, "method", text_json(method));
    put(&mut m, "params", params);
    Json::Object(m)
}

/// A notification.
pub open spec fn notification(method: Seq<char>, params: JsonV) -> JsonV {
    JsonV::Object(
        Map::empty().insert("jsonrpc"@, JsonV::Str("2.0"@)).insert(
            "method"@,
            JsonV::Str(method),
        ).insert("params"@, params),
    )
}

fn notification_json(method: &str, params: Json) -> (r: Json)
    ensures
        r@ == notification(method@, params@),
{
    let mut m: Vec<Member> = Vec::new();
    put(&mut m, "jsonrpc", text_json("2.0"));
    put(&mut m, "method", text_json(method));
    put(&mut m, "params", params);
    Json::Object(m)
}

/// Asks for an RPC session for a file.
pub open spec fn connect_request(id: Seq<char>, uri: Seq<char>) -> JsonV {
    request(id, "$/lean/rpc/connect"@, uri_object(uri))
}

pub fn connect_json(id: &str, uri: &str) -> (r: Json)
    ensures
        r@ == connect_request(id@, uri@),
{
    request_json(id, "$/lean/rpc/connect", uri_json(uri))
}

/// Keeps the RPC session of a file from expiring.
pub open spec fn keep_alive(uri: Seq<char>, session: JsonV) -> JsonV {
    notification(
        "$/lean/rpc/keepAlive"@,
        JsonV::Object(
            Map::empty().insert("uri"@, JsonV::Str(uri)).insert("sessionId"@, session),
        ),
    )
}

pub fn keep_alive_json(uri: &str, session: Json) -> (r: Json)
    ensures
        r@ == keep_alive(uri@, session@),
{
    let mut m: Vec<Member> = Vec::new();
    put(&mut m, "uri", text_json(uri));
    put(&mut m, "sessionId", session);
    notification_json("$/lean/rpc/keepAlive", Json::Object(m))
}

/// Frees RpcPtr references of a session.
pub open spec fn release(uri: Seq<char>, session: JsonV, refs: Seq<JsonV>) -> JsonV {
    notification(
        "$/lean/rpc/release"@,
        JsonV::Object(
            Map::empty().insert("uri"@, JsonV::Str(uri)).insert("sessionId"@, session).insert(
                "refs"@,
                JsonV::Array(refs),
            ),
        ),
    )
}

pub fn release_json(uri: &str, session: Json, refs: Vec<Json>) -> (r: Json)
    ensures
        r@ == release(uri@, session@, items_view(refs@)),
{
    let mut m: Vec<Member> = Vec::new();
    put(&mut m, "uri", text_json(uri));
    put(&mut m, "sessionId", session);
    put(&mut m, "refs", Json::Array(refs));
    notification_json("$/lean/rpc/release", Json::Object(m))
}

/// `{ "textDocument": { "uri": … }, "position": … }`
pub open spec fn document_position(uri: Seq<char>, line: u64, character: u64) -> JsonV {
    JsonV::Object(
        Map::empty().insert("textDocument"@, uri_object(uri)).insert(
            "position"@,
            position_object(line, character),
        ),
    )
}

pub fn document_position_json(uri: &str, line: u64, character: u64) -> (r: Json)
    ensures
        r@ == document_position(uri@, line, character),
{
    let mut m: Vec<Member> = Vec::new();
    put(&mut m, "textDocument", uri_json(uri));
    put(&mut m, "position", position_json(line, character));
    Json::Object(m)
}

/// Calls a method of an RPC session at a position of its file.
pub open spec fn rpc_request(
    id: Seq<char>,
    session: JsonV,
    uri: Seq<char>,
    line: u64,
    character: u64,
    method: Seq<char>,
    params: JsonV,
) -> JsonV {
    request(
        id,
        "$/lean/rpc/call"@,
        JsonV::Object(
            Map::empty().insert("method"@, JsonV::Str(method)).insert("params"@, params).insert(
                "sessionId"@,
                session,
            ).insert("textDocument"@, uri_object(uri)).insert(
                "position"@,
                position_object(line, character),
            ),
        ),
    )
}

pub fn rpc_call(
    id: &str,
    session: Json,
    uri: &str,
    line: u64,
    character: u64,
    method: &str,
    params: Json,
) -> (r: Json)
    ensures
        r@ == rpc_request(id@, session@, uri@, line, character, method@, params@),
{
    let mut m: Vec<Member> = Vec::new();
    put(&mut m, "method", text_json(method));
    put(&mut m, "params", params);
    put(&mut m, "sessionId", session);
    put(&mut m, "textDocument", uri_json(uri));
    put(&mut m, "position", position_json(line, character));
    request_json(id, "$/lean/rpc/call", Json::Object(m))
}

/// The bytes that send a message to the server.
pub fn send_to_server(msg: &Json) -> (r: Vec<u8>)
    ensures
        r@ == frame(encode_utf8(json_text(msg@))),
{
    let text = print_json(msg);
    write_message(text.as_str().as_bytes())
}

} // verus!
