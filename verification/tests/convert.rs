use zed_lean4_companion::convert::{
    collect_ptrs, conv_children, conv_goal, conv_interactive_diag, conv_msg, conv_term_goal,
    find_trace_mut, flatten_code, holds_trace, visit_traces, visit_traces_mut,
};
use zed_lean4_companion::json::{parse_json, print_json, Json};
use zed_lean4_companion::state::{Diag, MsgSeg, TextSpan, TraceNode};

fn json(text: &str) -> Json {
    parse_json(text.as_bytes()).unwrap()
}

fn span(text: &str, diff: Option<&str>) -> TextSpan {
    TextSpan {
        text: text.to_string(),
        diff: diff.map(String::from),
    }
}

fn code(text: &str, diff: Option<&str>) -> Vec<TextSpan> {
    let mut out = Vec::new();
    flatten_code(&json(text), diff, &mut out);
    out
}

fn msg(text: &str, seed: u64) -> Vec<MsgSeg> {
    let mut out = Vec::new();
    conv_msg(&json(text), None, seed, &mut out);
    out
}

fn trace(seg: &MsgSeg) -> &TraceNode {
    match seg {
        MsgSeg::Trace(node) => node,
        _ => panic!("no trace node: {seg:?}"),
    }
}

const TAGGED: &str = r#"{"append": [
    {"text": "a "},
    {"tag": [{"diffStatus": "wasChanged"}, {"append": [
        {"text": "= "},
        {"tag": [{"diffStatus": "willDelete"}, {"text": "b"}]},
        {"tag": [{}, {"text": " c"}]}
    ]}]}
]}"#;

#[test]
fn the_innermost_diff_wins() {
    assert_eq!(
        code(TAGGED, None),
        vec![
            span("a ", None),
            span("= ", Some("wasChanged")),
            span("b", Some("willDelete")),
            span(" c", Some("wasChanged")),
        ]
    );
}

#[test]
fn the_text_of_code_does_not_depend_on_the_diff() {
    let text = |spans: Vec<TextSpan>| spans.into_iter().map(|s| s.text).collect::<String>();
    assert_eq!(text(code(TAGGED, None)), "a = b c");
    assert_eq!(text(code(TAGGED, Some("willInsert"))), "a = b c");
    assert_eq!(code(TAGGED, Some("willInsert"))[0], span("a ", Some("willInsert")));
}

#[test]
fn what_is_no_tagged_text_has_no_spans() {
    for text in ["null", "{}", r#"{"tag": [1]}"#, r#"{"tag": [1, 2, 3]}"#, r#"{"text": 1}"#] {
        assert_eq!(code(text, None), Vec::new());
        assert_eq!(msg(text, 1), Vec::new());
    }
}

#[test]
fn code_is_appended() {
    let mut out = vec![span("x", None)];
    flatten_code(&json(r#"{"text": "y"}"#), None, &mut out);
    assert_eq!(out, vec![span("x", None), span("y", None)]);
}

#[test]
fn goals_are_converted() {
    let goal = conv_goal(&json(
        r#"{
            "userName": "inl", "goalPrefix": "| ", "isInserted": true,
            "type": {"text": "p"},
            "hyps": [
                {"names": ["h", 1, "h'"], "type": {"text": "q"}, "isInstance": true},
                {"names": ["x"], "type": {"text": "Nat"}, "val": {"text": "0"}, "isType": true,
                 "isInserted": true, "isRemoved": true}
            ]
        }"#,
    ));
    assert_eq!(goal.name.as_deref(), Some("inl"));
    assert_eq!(goal.prefix, "| ");
    assert_eq!(goal.target, vec![span("p", None)]);
    assert!(goal.is_inserted && !goal.is_removed);
    assert_eq!(goal.hyps.len(), 2);
    assert_eq!(goal.hyps[0].names, vec!["h", "h'"]);
    assert_eq!(goal.hyps[0].ty, vec![span("q", None)]);
    assert_eq!(goal.hyps[0].val, None);
    assert!(goal.hyps[0].is_instance && !goal.hyps[0].is_type);
    assert_eq!(goal.hyps[1].val, Some(vec![span("0", None)]));
    assert!(goal.hyps[1].is_type && goal.hyps[1].is_inserted && goal.hyps[1].is_removed);
    assert_eq!(goal.clone(), goal);
}

#[test]
fn goals_have_defaults() {
    let goal = conv_goal(&json("{}"));
    assert_eq!(goal.name, None);
    assert_eq!(goal.prefix, "⊢ ");
    assert!(goal.hyps.is_empty() && goal.target.is_empty());
    assert!(!goal.is_inserted && !goal.is_removed);
}

#[test]
fn term_goals_have_no_name() {
    let v = json(r#"{"userName": "inl", "type": {"text": "Nat"}}"#);
    let goal = conv_term_goal(&v);
    assert_eq!(goal.name, None);
    assert_eq!(goal.target, vec![span("Nat", None)]);
    assert_eq!(goal.prefix, "⊢ ");
}

#[test]
fn messages_embed_expressions_and_goals() {
    let segs = msg(
        r#"{"append": [
            {"text": "type mismatch "},
            {"tag": [{"expr": {"tag": [{"diffStatus": "wasInserted"}, {"text": "x"}]}}, {"text": "?"}]},
            {"tag": [{"goal": {"type": {"text": "p"}}}, {"text": "?"}]},
            {"tag": [{"widget": {"alt": {"text": "w"}}}, {"text": "?"}]},
            {"tag": [{"widget": {}}, {"text": "alt"}]},
            {"tag": [{"other": 1}, {"text": "else"}]}
        ]}"#,
        7,
    );
    assert_eq!(segs.len(), 6);
    assert_eq!(segs[0], MsgSeg::Text(span("type mismatch ", None)));
    assert_eq!(segs[1], MsgSeg::Text(span("x", Some("wasInserted"))));
    assert_eq!(segs[2], MsgSeg::Goal(conv_goal(&json(r#"{"type": {"text": "p"}}"#))));
    assert_eq!(segs[3], MsgSeg::Text(span("w", None)));
    assert_eq!(segs[4], MsgSeg::Text(span("alt", None)));
    assert_eq!(segs[5], MsgSeg::Text(span("else", None)));
}

fn diag(message: &str) -> Diag {
    conv_interactive_diag(
        &json(&format!(
            r#"{{"range": {{"start": {{"line": 3, "character": 5}}}}, "severity": 2, "message": {message}}}"#
        )),
        0,
    )
}

const STRICT: &str = r#"{"tag": [{"trace": {
    "cls": "Meta.synthInstance", "msg": {"text": "head"}, "collapsed": false,
    "children": {"strict": [{"tag": [{"trace": {"children": {"lazy": {"p": "7"}}}}, {"text": ""}]}]}
}}, {"text": ""}]}"#;

#[test]
fn diagnostics_are_converted() {
    let d = diag(STRICT);
    assert_eq!((d.line, d.column, d.severity), (3, 5, 2));
    let node = trace(&d.message[0]);
    assert_eq!(node.id, 4067612003);
    assert_eq!(node.cls, "Meta.synthInstance");
    assert_eq!(node.header, vec![MsgSeg::Text(span("head", None))]);
    assert!(!node.collapsed && !node.truncated && node.lazy_ptr.is_none());
    let child = trace(&node.children[0][0]);
    assert_eq!(child.id, 45735);
    assert_eq!(child.cls, "trace");
    assert!(child.collapsed && child.truncated && child.children.is_empty());
    assert_eq!(child.lazy_ptr, Some(json(r#"{"p": "7"}"#)));
    let d = conv_interactive_diag(&json("{}"), 0);
    assert_eq!((d.line, d.column, d.severity), (0, 0, 1));
    assert!(d.message.is_empty());
}

#[test]
fn trace_ids_survive_list_shifts() {
    let v = json(&format!(
        r#"{{"range": {{"start": {{"line": 3, "character": 5}}}}, "severity": 2, "message": {STRICT}}}"#
    ));
    assert_eq!(conv_interactive_diag(&v, 0), conv_interactive_diag(&v, 7));
    assert_eq!(conv_interactive_diag(&v, 7), diag(STRICT));
    // At another position the ids are others.
    let moved = json(&format!(
        r#"{{"range": {{"start": {{"line": 3, "character": 6}}}}, "message": {STRICT}}}"#
    ));
    assert_ne!(trace(&conv_interactive_diag(&moved, 0).message[0]).id, 4067612003);
}

#[test]
fn trace_ids_tell_where_a_node_is() {
    let d = diag(&format!(r#"{{"append": [{{"text": "x"}}, {STRICT}]}}"#));
    assert_eq!(trace(&d.message[1]).id, 4016258006);
}

#[test]
fn fetched_children_are_like_strict_ones() {
    let list = json(
        r#"[{"tag": [{"trace": {"children": {"lazy": {"p": "7"}}}}, {"text": ""}]},
            {"tag": [{"trace": {}}, {"text": ""}]}]"#,
    );
    let blocks = conv_children(list.as_array().unwrap(), 4067612003);
    let d = diag(STRICT);
    assert_eq!(blocks[0], trace(&d.message[0]).children[0]);
    assert_eq!(trace(&blocks[1][0]).id, 4294964746);
}

#[test]
fn every_node_has_its_children_or_the_pointer_to_them() {
    let d = diag(STRICT);
    let mut nodes = Vec::new();
    visit_traces(&d.message, &mut nodes);
    assert_eq!(nodes.iter().map(|n| n.id).collect::<Vec<_>>(), [4067612003, 45735]);
    for node in nodes {
        assert_eq!(node.truncated, node.lazy_ptr.is_some());
        assert!(!node.truncated || node.children.is_empty());
    }
}

#[test]
fn pointers_are_taken_out() {
    let mut d = diag(STRICT);
    let mut out = vec![Json::Null];
    visit_traces_mut(&mut d.message, &mut out);
    assert_eq!(out, vec![Json::Null, json(r#"{"p": "7"}"#)]);
    let mut again = Vec::new();
    visit_traces_mut(&mut d.message, &mut again);
    assert!(again.is_empty());
    assert!(trace(&trace(&d.message[0]).children[0][0]).truncated);
}

#[test]
fn pointers_are_collected() {
    let v = json(
        r#"{"z": {"p": "1"}, "a": [{"p": {"p": "2"}}, {"p": "3", "q": {"p": "4"}}], "s": "p",
            "n": [[{"p": null}]]}"#,
    );
    let mut out = Vec::new();
    collect_ptrs(&v, &mut out);
    let texts: Vec<String> = out.iter().map(print_json).collect();
    assert_eq!(
        texts,
        [r#"{"p":{"p":"2"}}"#, r#"{"p":"4"}"#, r#"{"p":null}"#, r#"{"p":"1"}"#]
    );
}

#[test]
fn nodes_are_found_by_their_id() {
    let mut d = diag(STRICT);
    assert!(holds_trace(&d.message, 45735));
    assert!(!holds_trace(&d.message, 1));
    assert!(find_trace_mut(&mut d.message, 1).is_none());
    let before = d.message.clone();
    let node = find_trace_mut(&mut d.message, 45735).unwrap();
    node.truncated = false;
    assert_eq!(node.id, 45735);
    assert!(!trace(&trace(&d.message[0]).children[0][0]).truncated);
    assert_ne!(d.message, before);
    // A node that is replaced is found as it is now.
    assert!(!find_trace_mut(&mut d.message, 45735).unwrap().truncated);
    // Replacing it by itself changes nothing.
    find_trace_mut(&mut d.message, 45735).unwrap().truncated = true;
    assert_eq!(d.message, before);
}

#[test]
fn the_first_of_two_nodes_with_one_id_is_found() {
    let node = |cls: &str| TraceNode {
        id: 5,
        cls: cls.to_string(),
        ..TraceNode::default()
    };
    let outer = TraceNode {
        id: 1,
        header: vec![MsgSeg::Trace(node("in the header"))],
        children: vec![vec![MsgSeg::Trace(node("among the children"))]],
        ..TraceNode::default()
    };
    let mut segs = vec![MsgSeg::Trace(outer), MsgSeg::Trace(node("after"))];
    assert_eq!(find_trace_mut(&mut segs, 5).unwrap().cls, "in the header");
    let mut nodes = Vec::new();
    visit_traces(&segs, &mut nodes);
    assert_eq!(
        nodes.iter().map(|n| n.cls.as_str()).collect::<Vec<_>>(),
        ["", "in the header", "among the children", "after"]
    );
}
