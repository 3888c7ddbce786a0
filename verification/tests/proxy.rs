use zed_lean4_companion::json::{parse_json, print_json, Json};
use zed_lean4_companion::proxy::{advance, Action, Proxy};
use zed_lean4_companion::rpc::{read_message, write_message};
use zed_lean4_companion::state::{socket_path_for_root, MsgSeg, TraceNode};
use zed_lean4_companion::watch::{expand_line, find_socket, Found, SocketFile};

const URI: &str = "file:///p/A.lean";

/// What is asked for outside, in a form that can be compared.
fn shown(actions: Vec<Action>) -> Vec<String> {
    actions
        .iter()
        .map(|a| match a {
            Action::Send(msg) => print_json(msg),
            Action::Broadcast => "broadcast".to_string(),
            Action::StartSocket(root) => format!("socket {root}"),
        })
        .collect()
}

fn client(p: &mut Proxy, text: &str) -> Vec<String> {
    let mut out = Vec::new();
    p.on_client_message(text.as_bytes(), &mut out);
    shown(out)
}

/// A message of the server that is passed on.
fn server(p: &mut Proxy, text: &str) -> Vec<String> {
    let mut out = Vec::new();
    assert!(p.on_server_message(text.as_bytes(), &mut out), "withheld: {text}");
    shown(out)
}

/// A message of the server that is not passed on.
fn answer(p: &mut Proxy, text: &str) -> Vec<String> {
    let mut out = Vec::new();
    assert!(!p.on_server_message(text.as_bytes(), &mut out), "passed on: {text}");
    shown(out)
}

fn command(p: &mut Proxy, line: &str) -> Vec<String> {
    let mut out = Vec::new();
    p.on_command(line, &mut out);
    shown(out)
}

fn highlight(uri: &str, line: u64, character: u64) -> String {
    format!(
        r#"{{"id": 2, "method": "textDocument/documentHighlight", "params": {{
            "textDocument": {{"uri": "{uri}"}},
            "position": {{"line": {line}, "character": {character}}}}}}}"#
    )
}

fn connect(n: u64, uri: &str) -> String {
    format!(
        r#"{{"id":"infoview:c:{n}","jsonrpc":"2.0","method":"$/lean/rpc/connect","params":{{"uri":"{uri}"}}}}"#
    )
}

fn call(id: &str, method: &str, params: &str, line: u64, character: u64) -> String {
    format!(
        r#"{{"id":"{id}","jsonrpc":"2.0","method":"$/lean/rpc/call","params":{{"method":"{method}","params":{params},"position":{{"character":{character},"line":{line}}},"sessionId":"s1","textDocument":{{"uri":"{URI}"}}}}}}"#
    )
}

fn release(refs: &str) -> String {
    format!(
        r#"{{"jsonrpc":"2.0","method":"$/lean/rpc/release","params":{{"refs":{refs},"sessionId":"s1","uri":"{URI}"}}}}"#
    )
}

fn wave(generation: u64, line: u64, character: u64) -> Vec<String> {
    let at = format!(
        r#"{{"position":{{"character":{character},"line":{line}}},"textDocument":{{"uri":"{URI}"}}}}"#
    );
    let id = |kind: &str| format!("infoview:{kind}:{generation}");
    vec![
        call(&id("g"), "Lean.Widget.getInteractiveGoals", &at, line, character),
        call(&id("t"), "Lean.Widget.getInteractiveTermGoal", &at, line, character),
        call(&id("d"), "Lean.Widget.getInteractiveDiagnostics", "{}", line, character),
        "broadcast".to_string(),
    ]
}

/// A proxy with the cursor in a file that has a session.
fn connected() -> Proxy {
    let mut p = Proxy::new();
    assert_eq!(
        client(&mut p, &highlight(URI, 1, 2)),
        [connect(0, URI), "broadcast".to_string()]
    );
    assert_eq!(
        answer(&mut p, r#"{"id": "infoview:c:0", "result": {"sessionId": "s1"}}"#),
        wave(1, 1, 2)
    );
    p
}

fn node(p: &Proxy) -> &TraceNode {
    match &p.state().diagnostics[0].message[0] {
        MsgSeg::Trace(node) => node,
        seg => panic!("no trace node: {seg:?}"),
    }
}

/// A proxy that shows a trace node with lazy children.
fn with_lazy_node() -> Proxy {
    let mut p = connected();
    assert_eq!(
        answer(
            &mut p,
            r#"{"id": "infoview:d:1", "result": [{"range": {"start": {"line": 3, "character": 5}},
                "extra": {"p": "9"}, "message": {"tag": [{"trace": {"cls": "Meta.synthInstance",
                "children": {"lazy": {"p": "7"}}}}, {"text": ""}]}}]}"#
        ),
        [release(r#"[{"p":"9"}]"#), "broadcast".to_string()]
    );
    assert_eq!(node(&p).id, 4067612003);
    assert!(node(&p).truncated);
    p
}

#[test]
fn the_position_moves_over_inserted_text() {
    assert_eq!(advance(1, 2, ""), (1, 2));
    assert_eq!(advance(1, 2, "⊢x"), (1, 4));
    assert_eq!(advance(1, 2, "a\n"), (2, 0));
    assert_eq!(advance(1, 2, "a\nbc\n  d"), (3, 3));
    assert_eq!(advance(u64::MAX, 0, "\n"), (0, 0));
}

#[test]
fn inserting_in_steps_comes_to_the_same() {
    for (a, b) in [("", "x"), ("a", "b"), ("a\nb", "c"), ("a", "\nb"), ("a\n", "\n")] {
        let (line, character) = advance(4, 7, a);
        assert_eq!(advance(line, character, b), advance(4, 7, &format!("{a}{b}")));
    }
}

#[test]
fn the_socket_is_opened_for_the_root() {
    let mut p = Proxy::new();
    let init = |params: &str| format!(r#"{{"id": 1, "method": "initialize", "params": {params}}}"#);
    assert_eq!(
        client(&mut p, &init(r#"{"rootUri": "file:///a/b", "rootPath": "/x"}"#)),
        ["socket /a/b"]
    );
    assert_eq!(client(&mut p, &init(r#"{"rootUri": null, "rootPath": "/x"}"#)), ["socket /x"]);
    assert_eq!(client(&mut p, &init("{}")), ["socket unknown"]);
    assert!(p.state().server_alive);
    assert_eq!(p.state().uri, None);
}

#[test]
fn messages_are_passed_on() {
    let mut p = connected();
    for text in [
        "not json",
        r#"{"id": 1, "result": {}}"#,
        r#"{"id": "other:c:0", "result": {}}"#,
        r#"{"id": "infoview:c:0", "method": "workspace/configuration"}"#,
        r#"{"method": "window/logMessage", "params": {}}"#,
    ] {
        assert_eq!(server(&mut p, text), Vec::<String>::new());
    }
    assert_eq!(client(&mut p, "not json"), Vec::<String>::new());
    assert_eq!(client(&mut p, r#"{"method": "exit"}"#), Vec::<String>::new());
}

#[test]
fn own_responses_are_withheld() {
    let mut p = connected();
    for text in [
        r#"{"id": "infoview:"}"#,
        r#"{"id": "infoview:c"}"#,
        r#"{"id": "infoview:c:77", "result": {"sessionId": "s"}}"#,
        r#"{"id": "infoview:z:1", "result": {}}"#,
        r#"{"id": "infoview:g:99", "result": null, "method": 1}"#,
    ] {
        assert_eq!(answer(&mut p, text), Vec::<String>::new());
    }
}

#[test]
fn a_session_is_asked_for_once() {
    let mut p = Proxy::new();
    assert_eq!(
        client(&mut p, &highlight(URI, 1, 2)),
        [connect(0, URI), "broadcast".to_string()]
    );
    assert_eq!(client(&mut p, &highlight(URI, 4, 0)), ["broadcast"]);
    let other = "file:///p/B.lean";
    assert_eq!(
        client(&mut p, &highlight(other, 0, 0)),
        [connect(1, other), "broadcast".to_string()]
    );
    // The cursor is elsewhere by now.
    assert_eq!(
        answer(&mut p, r#"{"id": "infoview:c:0", "result": {"sessionId": "s1"}}"#),
        Vec::<String>::new()
    );
    assert_eq!(client(&mut p, &highlight(URI, 5, 6)), wave(1, 5, 6));
}

#[test]
fn a_session_that_is_not_granted_can_be_asked_for_again() {
    let mut p = Proxy::new();
    client(&mut p, &highlight(URI, 1, 2));
    assert_eq!(answer(&mut p, r#"{"id": "infoview:c:0", "result": {}}"#), Vec::<String>::new());
    assert_eq!(
        client(&mut p, &highlight(URI, 1, 2)),
        [connect(1, URI), "broadcast".to_string()]
    );
}

#[test]
fn goals_come_out_end_to_end() {
    let mut p = connected();
    let actions = answer(
        &mut p,
        r#"{"jsonrpc": "2.0", "id": "infoview:g:1", "result": {"goals": [
            {"type": {"tag": [{"info": {"p": "5"}}, {"text": "1 + 1 = 2"}]}, "mvarId": {"p": "6"}}]}}"#,
    );
    assert_eq!(
        actions,
        [release(r#"[{"p":"6"},{"p":"5"}]"#), "broadcast".to_string()]
    );
    let state = p.state();
    assert_eq!(state.uri.as_deref(), Some(URI));
    assert_eq!((state.line, state.column), (1, 2));
    let goals = state.goals.as_ref().unwrap();
    assert_eq!(goals.len(), 1);
    assert_eq!(goals[0].target[0].text, "1 + 1 = 2");
}

#[test]
fn no_goals_and_no_proof_differ() {
    let mut p = connected();
    assert_eq!(answer(&mut p, r#"{"id": "infoview:g:1", "result": {"goals": []}}"#), ["broadcast"]);
    assert_eq!(p.state().goals, Some(Vec::new()));
    assert_eq!(client(&mut p, &highlight(URI, 2, 0)), wave(2, 2, 0));
    assert_eq!(answer(&mut p, r#"{"id": "infoview:g:2", "result": null}"#), ["broadcast"]);
    assert_eq!(p.state().goals, None);
}

#[test]
fn the_expected_type_comes_out() {
    let mut p = connected();
    assert_eq!(
        answer(&mut p, r#"{"id": "infoview:t:1", "result": {"type": {"text": "Nat"}}}"#),
        ["broadcast"]
    );
    assert_eq!(p.state().term_goal.as_ref().unwrap().target[0].text, "Nat");
}

#[test]
fn stale_answers_change_nothing() {
    let mut p = connected();
    assert_eq!(client(&mut p, &highlight(URI, 2, 0)), wave(2, 2, 0));
    let before = p.state().clone();
    assert_eq!(
        answer(&mut p, r#"{"id": "infoview:g:1", "result": {"goals": [], "x": {"p": "1"}}}"#),
        [release(r#"[{"p":"1"}]"#)]
    );
    assert_eq!(*p.state(), before);
    // An answer counts once.
    assert_eq!(
        answer(&mut p, r#"{"id": "infoview:g:1", "result": {"x": {"p": "1"}}}"#),
        Vec::<String>::new()
    );
}

#[test]
fn typing_moves_the_cursor() {
    let mut p = connected();
    let change = |changes: &str| {
        format!(
            r#"{{"method": "textDocument/didChange", "params": {{
                "textDocument": {{"uri": "{URI}"}}, "contentChanges": {changes}}}}}"#
        )
    };
    let range = r#""range": {"start": {"line": 0, "character": 0}, "end": {"line": 3, "character": 4}}"#;
    assert_eq!(
        client(&mut p, &change(&format!(r#"[{{}}, {{{range}, "text": "a\nbc"}}]"#))),
        wave(2, 1, 2)
    );
    assert_eq!(client(&mut p, &change(&format!("[{{{range}}}]"))), wave(3, 0, 0));
    // Replacing characters 2 to 5 by one leaves the cursor after it.
    let range = r#""range": {"start": {"line": 0, "character": 2}, "end": {"line": 0, "character": 5}}"#;
    assert_eq!(
        client(&mut p, &change(&format!(r#"[{{{range}, "text": "x"}}]"#))),
        wave(4, 0, 3)
    );
    // A pure insertion.
    let range = r#""range": {"start": {"line": 7, "character": 2}, "end": {"line": 7, "character": 2}}"#;
    assert_eq!(
        client(&mut p, &change(&format!(r#"[{{{range}, "text": "xy"}}]"#))),
        wave(5, 7, 4)
    );
    assert_eq!(client(&mut p, &change("[]")), Vec::<String>::new());
    assert_eq!(client(&mut p, &change(r#"[{"text": "whole file"}]"#)), Vec::<String>::new());
    assert_eq!(client(&mut p, &change("null")), Vec::<String>::new());
}

#[test]
fn a_position_is_needed() {
    let mut p = Proxy::new();
    for params in [
        r#"{"textDocument": {"uri": "u"}}"#,
        r#"{"position": {"line": 1, "character": 2}}"#,
        r#"{"textDocument": {"uri": "u"}, "position": {"line": -1, "character": 2}}"#,
    ] {
        let text = format!(r#"{{"method": "textDocument/documentHighlight", "params": {params}}}"#);
        assert_eq!(client(&mut p, &text), Vec::<String>::new());
    }
    assert_eq!(p.state().uri, None);
}

fn publish(uri: &str, text: &str) -> String {
    format!(
        r#"{{"method": "textDocument/publishDiagnostics", "params": {{"uri": "{uri}", "diagnostics": [
            {{"range": {{"start": {{"line": 8, "character": 9}}}}, "severity": 3, "message": "{text}"}}]}}}}"#
    )
}

#[test]
fn plain_diagnostics_are_shown_until_interactive_ones_arrive() {
    let mut p = connected();
    assert_eq!(server(&mut p, &publish(URI, "plain")), ["broadcast"]);
    let d = &p.state().diagnostics[0];
    assert_eq!((d.line, d.column, d.severity), (8, 9, 3));
    assert!(matches!(&d.message[0], MsgSeg::Text(s) if s.text == "plain" && s.diff.is_none()));
    // Those of another file are kept for when the cursor goes there.
    let other = "file:///p/B.lean";
    assert_eq!(server(&mut p, &publish(other, "elsewhere")), Vec::<String>::new());
    assert_eq!(
        answer(&mut p, r#"{"id": "infoview:d:1", "result": [{"message": {"text": "interactive"}}]}"#),
        ["broadcast"]
    );
    assert_eq!(server(&mut p, &publish(URI, "newer")), Vec::<String>::new());
    assert!(matches!(&p.state().diagnostics[0].message[0], MsgSeg::Text(s) if s.text == "interactive"));
    client(&mut p, &highlight(other, 0, 0));
    assert!(matches!(&p.state().diagnostics[0].message[0], MsgSeg::Text(s) if s.text == "elsewhere"));
    // Interactive ones have arrived for the first file only.
    assert_eq!(server(&mut p, &publish(other, "again")), ["broadcast"]);
    assert!(matches!(&p.state().diagnostics[0].message[0], MsgSeg::Text(s) if s.text == "again"));
    client(&mut p, &highlight("file:///p/C.lean", 0, 0));
    assert!(p.state().diagnostics.is_empty());
}

#[test]
fn the_server_is_passed_through() {
    let bodies = [
        r#"{"id": 1, "result": {}}"#,
        r#"{"id": "infoview:g:1", "result": {"goals": []}}"#,
        "not json",
        r#"{"id": "infoview:t:1", "result": null}"#,
        r#"{"method": "window/logMessage", "params": {}}"#,
        r#"{"id": "infoview:z", "method": "workspace/configuration"}"#,
    ];
    for mut p in [Proxy::new(), connected()] {
        let mut stream = Vec::new();
        for body in bodies {
            if p.on_server_message(body.as_bytes(), &mut Vec::new()) {
                stream.extend(write_message(body.as_bytes()));
            }
        }
        let mut read = Vec::new();
        let mut at = 0;
        while let Ok(Some((body, used))) = read_message(&stream[at..]) {
            read.push(String::from_utf8(body).unwrap());
            at += used;
        }
        assert_eq!(at, stream.len());
        assert_eq!(read, [bodies[0], bodies[2], bodies[4], bodies[5]]);
    }
}

#[test]
fn one_request_for_a_session_is_pending() {
    let mut p = Proxy::new();
    let mut out = Vec::new();
    p.ensure_session(URI, &mut out);
    p.ensure_session(URI, &mut out);
    p.ensure_session("file:///p/B.lean", &mut out);
    assert_eq!(shown(out), [connect(0, URI), connect(1, "file:///p/B.lean")]);
}

fn progress(uri: &str, processing: &str) -> String {
    format!(
        r#"{{"method": "$/lean/fileProgress", "params": {{
            "textDocument": {{"uri": "{uri}"}}, "processing": {processing}}}}}"#
    )
}

#[test]
fn everything_is_refreshed_once_elaboration_is_done() {
    let mut p = connected();
    assert_eq!(server(&mut p, &progress(URI, "[]")), Vec::<String>::new());
    assert_eq!(server(&mut p, &progress(URI, "[{}]")), ["broadcast"]);
    assert!(p.state().processing);
    assert_eq!(server(&mut p, &progress(URI, "[{}]")), Vec::<String>::new());
    assert_eq!(server(&mut p, &progress("file:///p/B.lean", "[]")), Vec::<String>::new());
    assert!(p.state().processing);
    assert_eq!(server(&mut p, &progress(URI, "[]")), wave(2, 1, 2));
    assert!(!p.state().processing);
}

#[test]
fn an_expired_session_is_asked_for_again() {
    let mut p = connected();
    assert_eq!(
        answer(&mut p, r#"{"id": "infoview:g:1", "error": {"code": -32900, "message": "expired"}}"#),
        [connect(1, URI)]
    );
    assert_eq!(
        answer(&mut p, r#"{"id": "infoview:t:1", "error": {"code": -32900}}"#),
        Vec::<String>::new()
    );
    assert_eq!(
        answer(&mut p, r#"{"id": "infoview:c:1", "result": {"sessionId": "s1"}}"#),
        wave(2, 1, 2)
    );
}

#[test]
fn other_errors_only_end_the_request() {
    let mut p = connected();
    assert_eq!(
        answer(&mut p, r#"{"id": "infoview:g:1", "error": {"code": -32801}}"#),
        Vec::<String>::new()
    );
    assert_eq!(
        answer(&mut p, r#"{"id": "infoview:g:1", "result": {"goals": []}}"#),
        Vec::<String>::new()
    );
    assert_eq!(p.state().goals, None);
}

fn expand(n: u64) -> String {
    call(
        &format!("infoview:x:{n}"),
        "Lean.Widget.lazyTraceChildrenToInteractive",
        r#"{"p":"7"}"#,
        1,
        2,
    )
}

#[test]
fn children_are_fetched_on_demand() {
    let mut p = with_lazy_node();
    assert_eq!(command(&mut p, &expand_line(4067612003)), [expand(1)]);
    // A fetch is in flight.
    assert_eq!(command(&mut p, &expand_line(4067612003)), Vec::<String>::new());
    assert!(node(&p).truncated);
    assert_eq!(
        answer(
            &mut p,
            r#"{"id": "infoview:x:1", "result": [{"tag": [{"trace": {"children":
                {"lazy": {"p": "8"}}, "ref": {"p": "10"}}}, {"text": ""}]}]}"#
        ),
        [release(r#"[{"p":"7"},{"p":"10"}]"#), "broadcast".to_string()]
    );
    assert!(!node(&p).truncated);
    match &node(&p).children[0][0] {
        MsgSeg::Trace(child) => {
            assert_eq!(child.id, 45735);
            assert!(child.truncated);
        }
        seg => panic!("no trace node: {seg:?}"),
    }
    // The pointer of the child is still held.
    assert_eq!(command(&mut p, r#"{"expand": 45735}"#).len(), 1);
}

#[test]
fn a_fetch_that_fails_frees_its_pointer() {
    let mut p = with_lazy_node();
    command(&mut p, &expand_line(4067612003));
    assert_eq!(
        answer(&mut p, r#"{"id": "infoview:x:1", "error": {"code": 1}}"#),
        [release(r#"[{"p":"7"}]"#)]
    );
    assert!(node(&p).truncated);
}

#[test]
fn children_of_diagnostics_no_longer_shown_are_dropped() {
    let mut p = with_lazy_node();
    command(&mut p, &expand_line(4067612003));
    client(&mut p, &highlight(URI, 6, 0));
    answer(&mut p, r#"{"id": "infoview:d:2", "result": []}"#);
    let before = p.state().clone();
    assert_eq!(
        answer(&mut p, r#"{"id": "infoview:x:1", "result": [{"text": "late"}, {"p": "11"}]}"#),
        [release(r#"[{"p":"7"},{"p":"11"}]"#)]
    );
    assert_eq!(*p.state(), before);
}

#[test]
fn pointers_of_replaced_diagnostics_are_freed() {
    let mut p = with_lazy_node();
    client(&mut p, &highlight(URI, 6, 0));
    assert_eq!(
        answer(&mut p, r#"{"id": "infoview:d:2", "result": []}"#),
        [release(r#"[{"p":"7"}]"#), "broadcast".to_string()]
    );
}

#[test]
fn pointers_that_plain_diagnostics_replace_are_freed() {
    let mut p = connected();
    let other = "file:///p/B.lean";
    assert_eq!(
        client(&mut p, &highlight(other, 0, 0)),
        [connect(1, other), "broadcast".to_string()]
    );
    // The answer for the first file comes late and is shown.
    assert_eq!(
        answer(
            &mut p,
            r#"{"id": "infoview:d:1", "result": [{"message": {"tag": [{"trace": {
                "children": {"lazy": {"p": "7"}}}}, {"text": ""}]}}]}"#
        ),
        ["broadcast"]
    );
    assert!(node(&p).truncated);
    assert_eq!(
        server(&mut p, &publish(other, "plain")),
        [release(r#"[{"p":"7"}]"#), "broadcast".to_string()]
    );
    assert!(matches!(&p.state().diagnostics[0].message[0], MsgSeg::Text(s) if s.text == "plain"));
    // They are freed once.
    assert_eq!(server(&mut p, &publish(other, "again")), ["broadcast"]);
}

#[test]
fn commands_that_mean_nothing_are_ignored() {
    let mut p = with_lazy_node();
    for line in ["", "x", "{}", r#"{"expand": "1"}"#, r#"{"expand": 1}"#, r#"{"expand": -1}"#] {
        assert_eq!(command(&mut p, line), Vec::<String>::new());
    }
    let mut p = Proxy::new();
    assert_eq!(command(&mut p, &expand_line(4067612003)), Vec::<String>::new());
}

#[test]
fn every_session_is_kept_alive() {
    let mut p = Proxy::new();
    assert!(p.keep_alives().is_empty());
    client(&mut p, &highlight(URI, 1, 2));
    client(&mut p, &highlight("file:///p/B.lean", 1, 2));
    answer(&mut p, r#"{"id": "infoview:c:1", "result": {"sessionId": 12}}"#);
    answer(&mut p, r#"{"id": "infoview:c:0", "result": {"sessionId": "s1"}}"#);
    let mut texts: Vec<String> = p.keep_alives().iter().map(print_json).collect();
    texts.sort();
    let alive = |uri: &str, session: &str| {
        format!(
            r#"{{"jsonrpc":"2.0","method":"$/lean/rpc/keepAlive","params":{{"sessionId":{session},"uri":"{uri}"}}}}"#
        )
    };
    assert_eq!(texts, [alive(URI, "\"s1\""), alive("file:///p/B.lean", "12")]);
}

#[test]
fn every_message_of_the_proxy_has_an_id_of_its_own_or_none() {
    let mut out = Vec::new();
    let mut p = Proxy::new();
    p.on_client_message(highlight(URI, 1, 2).as_bytes(), &mut out);
    p.on_server_message(br#"{"id": "infoview:c:0", "result": {"sessionId": "s1"}}"#, &mut out);
    p.on_server_message(br#"{"id": "infoview:g:1", "result": {"p": 1}}"#, &mut out);
    let mut sent = 0;
    for action in &out {
        if let Action::Send(msg) = action {
            sent += 1;
            let id = msg.get("id");
            assert!(id.is_null() || id.as_str().is_some_and(|id| id.starts_with("infoview:")));
        }
    }
    assert_eq!(sent, 5);
}

#[test]
fn watchers_are_told_that_the_server_stopped() {
    let mut p = connected();
    let mut out = Vec::new();
    p.server_stopped(&mut out);
    assert_eq!(out, vec![Action::Broadcast]);
    assert!(!p.state().server_alive);
}

#[test]
fn messages_can_be_handed_over_as_values() {
    let mut p = Proxy::new();
    let mut out = Vec::new();
    let json = |text: &str| -> Json { parse_json(text.as_bytes()).unwrap() };
    p.inspect_client_msg(&json(&highlight(URI, 1, 2)), &mut out);
    assert!(!p.handle_our_response(&json(r#"{"id": 3}"#), &mut out));
    let granted = json(r#"{"id": "infoview:c:0", "result": {"sessionId": "s1"}}"#);
    assert!(p.handle_our_response(&granted, &mut out));
    p.inspect_server_msg(&json(&progress(URI, "[{}]")), &mut out);
    p.handle_command(&json("{}"), &mut out);
    let mut expected = vec![connect(0, URI), "broadcast".to_string()];
    expected.extend(wave(1, 1, 2));
    expected.push("broadcast".to_string());
    assert_eq!(shown(out), expected);
}

#[test]
fn the_order_of_members_does_not_matter() {
    let text = [
        r#"{"id": "infoview:g:1", "result": {"b": {"p": "2"}, "a": {"p": "1"}, "goals": []}}"#,
        r#"{"result": {"goals": [], "a": {"p": "1"}, "b": {"p": "2"}}, "id": "infoview:g:1"}"#,
    ];
    for text in text {
        let mut p = connected();
        assert_eq!(
            answer(&mut p, text),
            [release(r#"[{"p":"1"},{"p":"2"}]"#), "broadcast".to_string()]
        );
    }
}

#[test]
fn a_watcher_finds_the_proxy_of_its_directory() {
    let mut p = Proxy::new();
    let init = r#"{"id": 1, "method": "initialize", "params": {"rootUri": "file:///home/u/proj"}}"#;
    assert_eq!(client(&mut p, init), ["socket /home/u/proj"]);
    let path = socket_path_for_root("/home/u/proj");
    let name = path.strip_prefix("zed-lean4-companion/").unwrap();
    let files = vec![SocketFile {
        name: name.to_string(),
        modified: Some(0),
    }];
    assert_eq!(find_socket(false, &files), Found::File(0));
}

#[test]
fn asking_for_children_shows_nothing_new() {
    let mut p = with_lazy_node();
    let before = p.state().clone();
    assert_eq!(command(&mut p, &expand_line(4067612003)).len(), 1);
    let mut after = p.state().clone();
    assert_ne!(after, before);
    match &mut after.diagnostics[0].message[0] {
        MsgSeg::Trace(node) => node.lazy_ptr = parse_json(br#"{"p": "7"}"#),
        seg => panic!("no trace node: {seg:?}"),
    }
    assert_eq!(after, before);
}
