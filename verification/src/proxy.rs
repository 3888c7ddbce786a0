//! LSP proxy: sits between Zed and the real Lean server (`lake serve --`).
//!
//! All traffic is passed through unchanged. On the side, the proxy:
//! - tracks the cursor from `textDocument/documentHighlight` requests
//!   (Zed sends one on every selection change) and from `didChange`;
//! - keeps one `$/lean/rpc/connect` session per file (with keep-alives) and
//!   queries `Lean.Widget.getInteractiveGoals` / `getInteractiveTermGoal` /
//!   `getInteractiveDiagnostics` at the cursor. Its own requests use string
//!   ids prefixed `infoview:`, so they never collide with Zed's numeric ids,
//!   and their responses are filtered out of the stream;
//! - releases the RpcPtr references it received once they are flattened,
//!   keeping only lazy-trace-children pointers for on-demand expansion;
//! - has an `InfoviewState` sent to every watcher on every change, and accepts
//!   `{"expand": <trace id>}` commands from watchers to fetch lazy trace
//!   children.
//!
//! What is to be done outside is handed back as actions.

use crate::convert::{
    blocks_traces, children_segs, collect_ptrs, conv_children, conv_goal, conv_interactive_diag,
    conv_term_goal, diag_of, find_trace_mut, goal_of, holds_trace, items_of, lazy_ptrs,
    lemma_lazy_ptrs_add, nodes_view, ptrs_in, replacing_by_itself_changes_nothing, traces_in,
    u64_or, visit_traces, visit_traces_mut,
};
use crate::json::{
    canonical_of, field, items_view, json_parsed, lemma_items_push, parse_json, print_json, Json,
    JsonV,
};
use crate::messages::{
    connect_json, document_position_json, keep_alive, keep_alive_json, own_id_text, release_json,
    rpc_call,
};
use crate::model::{
    advanced, body_handled, client_inspected, command_handled, connecting, cursor_in, cursor_named,
    diag_pos, diags_answered, diags_traces, equal_messages_are_handled_alike, error_answered,
    expansion_answered, goals_answered, goals_requested, is_own_response, is_passed_on,
    keep_alives_for, node_of, not_kept, plain_diag, plain_diags_of, ptr_texts, released,
    response_handled, root_of, server_gone, server_inspected, session_answered, session_ensured,
    shown_freed, started, state_at, trace_expanded, wave, wave_answered, with_node, ActionV,
    CursorV, ExpandV, ProxyV, RPC_NEEDS_RECONNECT,
};
use crate::state::{
    blocks_view, copy_diags, diags_view, goals_view, segs_view, Diag, DiagV, Goal, InfoviewState,
    MsgSeg, StateV, TextSpan, TraceNode,
};
use crate::table::Table;
use crate::text::{
    cut, opt_view, parse_u64, split_text, split_then_join, str_eq, stripped, strs_view,
};
use vstd::prelude::*;
use vstd::utf8::encode_utf8;

verus! {

/// Where the cursor is.
pub struct Cursor {
    pub uri: String,
    pub line: u64,
    pub character: u64,
}

impl View for Cursor {
    type V = CursorV;

    open spec fn view(&self) -> CursorV {
        CursorV { uri: self.uri@, line: self.line, character: self.character }
    }
}

impl Clone for Cursor {
    fn clone(&self) -> (r: Self)
        ensures
            r@ == self@,
    {
        Cursor { uri: self.uri.clone(), line: self.line, character: self.character }
    }
}

/// A trace expansion that the server has not answered yet.
pub struct ExpandReq {
    pub generation: u64,
    pub node_id: u32,
    pub uri: String,
    /// The LazyTraceChildren pointer, released once the call has answered.
    pub ptr: Json,
}

impl View for ExpandReq {
    type V = ExpandV;

    open spec fn view(&self) -> ExpandV {
        ExpandV {
            generation: self.generation,
            node_id: self.node_id,
            uri: self.uri@,
            ptr: self.ptr@,
        }
    }
}

/// Diagnostics of one file.
pub struct DiagList {
    pub diags: Vec<Diag>,
}

impl View for DiagList {
    type V = Seq<DiagV>;

    open spec fn view(&self) -> Seq<DiagV> {
        diags_view(self.diags@)
    }
}

/// What is to be done outside.
#[derive(Debug, PartialEq)]
pub enum Action {
    /// Send a message to the server.
    Send(Json),
    /// Show the state to every watcher.
    Broadcast,
    /// Listen for watchers of that workspace root.
    StartSocket(String),
}

impl View for Action {
    type V = ActionV;

    open spec fn view(&self) -> ActionV {
        match self {
            Action::Send(msg) => ActionV::Send(msg@),
            Action::Broadcast => ActionV::Broadcast,
            Action::StartSocket(root) => ActionV::StartSocket(root@),
        }
    }
}

pub open spec fn actions_view(actions: Seq<Action>) -> Seq<ActionV> {
    actions.map_values(|a: Action| a@)
}

fn act(out: &mut Vec<Action>, a: Action)
    ensures
        actions_view(final(out)@) == actions_view(old(out)@).push(a@),
{
    out.push(a);
    proof {
        assert(actions_view(out@) =~= actions_view(old(out)@).push(a@));
    }
}

/// What the proxy knows.
pub struct Proxy {
    state: InfoviewState,
    cursor: Option<Cursor>,
    /// Plain diagnostics per uri, shown until interactive ones arrive.
    plain_diags: Table<DiagList>,
    /// uri -> RPC sessionId (opaque JSON value).
    sessions: Table<Json>,
    /// Pending `$/lean/rpc/connect` request id -> uri.
    pending_connect: Table<String>,
    /// Pending goal/term/diag request id -> uri (needed to release refs).
    pending_goal: Table<String>,
    /// Pending trace-expansion request id -> request info.
    pending_expand: Table<ExpandReq>,
    /// Generation of the last goal-request wave; stale responses are dropped.
    generation: u64,
    /// Generation the displayed interactive diagnostics belong to.
    diag_generation: u64,
    /// Uri the displayed interactive diagnostics belong to.
    diag_uri: Option<String>,
    next_req: u64,
}

impl View for Proxy {
    type V = ProxyV;

    closed spec fn view(&self) -> ProxyV {
        ProxyV {
            state: self.state@,
            cursor: match self.cursor {
                Some(c) => Some(c@),
                None => None,
            },
            plain_diags: self.plain_diags@,
            sessions: self.sessions@,
            pending_connect: self.pending_connect@,
            pending_goal: self.pending_goal@,
            pending_expand: self.pending_expand@,
            generation: self.generation,
            diag_generation: self.diag_generation,
            diag_uri: opt_view(self.diag_uri),
            next_req: self.next_req,
        }
    }
}

/// Position after inserting `text` at (line, character). Where that is out of
/// range it wraps around.
pub fn advance(line: u64, character: u64, text: &str) -> (r: (u64, u64))
    ensures
        r == advanced(line, character, text@),
{
    let lines = split_text(text, '\n');
    proof {
        split_then_join(text@, '\n');
        assert(strs_view(lines@).len() == lines@.len());
    }
    if lines.len() == 1 {
        (line, character.wrapping_add(text.unicode_len() as u64))
    } else {
        let last = &lines[lines.len() - 1];
        assert(strs_view(lines@).last() == last@);
        (line.wrapping_add((lines.len() - 1) as u64), last.as_str().unicode_len() as u64)
    }
}

/// The workspace root that an `initialize` request names.
fn root(params: &Json) -> (r: String)
    ensures
        r@ == root_of(params@),
{
    let root = match params.get("rootUri").as_str() {
        Some(uri) => uri,
        None => match params.get("rootPath").as_str() {
            Some(path) => path,
            None => "unknown",
        },
    };
    match stripped(root, "file://") {
        Some(path) => path,
        None => root.to_owned(),
    }
}

/// Where a message of the client leaves the cursor, if it says so.
fn named_cursor(v: &Json) -> (r: Option<Cursor>)
    ensures
        match r {
            Some(c) => cursor_named(v@) == Some(c@),
            None => cursor_named(v@) is None,
        },
{
    let method = match v.get("method").as_str() {
        Some(method) => method,
        None => {
            return None;
        },
    };
    let p = v.get("params");
    let uri = match p.get("textDocument").get("uri").as_str() {
        Some(uri) => uri,
        None => {
            return None;
        },
    };
    if str_eq(method, "textDocument/documentHighlight") {
        let at = p.get("position");
        match (at.get("line").as_u64(), at.get("character").as_u64()) {
            (Some(line), Some(character)) => Some(Cursor { uri: uri.to_owned(), line, character }),
            _ => None,
        }
    } else if str_eq(method, "textDocument/didChange") {
        // Track typing: move the cursor to the end of the last change.
        let changes = match p.get("contentChanges").as_array() {
            Some(changes) => changes,
            None => {
                return None;
            },
        };
        assert(items_view(changes@).len() == changes@.len());
        if changes.len() == 0 {
            return None;
        }
        let last = &changes[changes.len() - 1];
        assert(items_view(changes@).last() == last@);
        let start = last.get("range").get("start");
        match (start.get("line").as_u64(), start.get("character").as_u64()) {
            (Some(line), Some(character)) => {
                let inserted = match last.get("text").as_str() {
                    Some(text) => text,
                    None => "",
                };
                let (line, character) = advance(line, character, inserted);
                Some(Cursor { uri: uri.to_owned(), line, character })
            },
            _ => None,
        }
    } else {
        None
    }
}

/// Converts a plain LSP diagnostic.
fn conv_plain_diag(d: &Json) -> (r: Diag)
    ensures
        r@ == plain_diag(d@),
{
    let start = d.get("range").get("start");
    let text = match d.get("message").as_str() {
        Some(text) => text.to_owned(),
        None => "".to_owned(),
    };
    let seg = MsgSeg::Text(TextSpan { text, diff: None });
    let mut message: Vec<MsgSeg> = Vec::new();
    message.push(seg);
    proof {
        assert(segs_view(message@) =~= seq![seg@]);
    }
    Diag {
        line: u64_or(start.get("line"), 0) as u32,
        column: u64_or(start.get("character"), 0) as u32,
        severity: u64_or(d.get("severity"), 1) as u8,
        message,
    }
}

/// Converts the diagnostics that `publishDiagnostics` names.
fn conv_plain_diags(params: &Json) -> (r: Vec<Diag>)
    ensures
        diags_view(r@) == plain_diags_of(params@),
{
    let ghost all = items_of(field(params@, "diagnostics"@));
    let mut diags: Vec<Diag> = Vec::new();
    if let Some(items) = params.get("diagnostics").as_array() {
        let mut i: usize = 0;
        while i < items.len()
            invariant
                i <= items@.len(),
                all == items_view(items@),
                diags@.len() == i,
                forall|k: int| 0 <= k < i ==> (#[trigger] diags@[k])@ == plain_diag(all[k]),
            decreases items@.len() - i,
        {
            diags.push(conv_plain_diag(&items[i]));
            i = i + 1;
        }
    }
    proof {
        assert(diags_view(diags@) =~= plain_diags_of(params@));
    }
    diags
}

proof fn lemma_texts_add(a: Seq<JsonV>, b: Seq<JsonV>)
    ensures
        ptr_texts(a + b) == ptr_texts(a) + ptr_texts(b),
{
    assert(ptr_texts(a + b) =~= ptr_texts(a) + ptr_texts(b));
}

/// Lazy-children pointers still stored in `segs` (they must stay alive).
fn kept_ptr_keys(segs: &Vec<MsgSeg>, out: &mut Vec<String>)
    ensures
        strs_view(final(out)@) == strs_view(old(out)@) + ptr_texts(
            lazy_ptrs(traces_in(segs_view(segs@))),
        ),
{
    let ghost before = strs_view(out@);
    let mut nodes: Vec<&TraceNode> = Vec::new();
    visit_traces(segs, &mut nodes);
    let ghost all = nodes_view(nodes@);
    proof {
        assert(nodes_view(Seq::empty()) + traces_in(segs_view(segs@)) =~= traces_in(
            segs_view(segs@),
        ));
        assert(all.take(0) =~= Seq::empty());
        assert(before + ptr_texts(Seq::empty()) =~= before);
    }
    let mut i: usize = 0;
    while i < nodes.len()
        invariant
            i <= nodes@.len(),
            all == nodes_view(nodes@),
            strs_view(out@) == before + ptr_texts(lazy_ptrs(all.take(i as int))),
        decreases nodes@.len() - i,
    {
        let ghost done = lazy_ptrs(all.take(i as int));
        proof {
            assert(all.take(i + 1).drop_last() =~= all.take(i as int));
            assert(all.take(i + 1).last() == nodes@[i as int]@);
        }
        if let Some(ptr) = &nodes[i].lazy_ptr {
            let text = print_json(ptr);
            let ghost mid = strs_view(out@);
            out.push(text);
            proof {
                assert(strs_view(out@) =~= mid.push(text@));
                assert(ptr_texts(done.push(ptr@)) =~= ptr_texts(done).push(text@));
                assert(strs_view(out@) =~= before + ptr_texts(done.push(ptr@)));
            }
        }
        i = i + 1;
    }
    proof {
        assert(all.take(i as int) =~= all);
    }
}

/// Whether the text is among these.
fn among(texts: &Vec<String>, text: &str) -> (r: bool)
    ensures
        r == strs_view(texts@).contains(text@),
{
    let mut i: usize = 0;
    while i < texts.len()
        invariant
            i <= texts@.len(),
            forall|k: int| 0 <= k < i ==> #[trigger] strs_view(texts@)[k] != text@,
        decreases texts@.len() - i,
    {
        if str_eq(texts[i].as_str(), text) {
            assert(strs_view(texts@)[i as int] == text@);
            return true;
        }
        i = i + 1;
    }
    false
}

/// Drops the references that are kept.
fn drop_kept(refs: Vec<Json>, kept: &Vec<String>) -> (r: Vec<Json>)
    ensures
        items_view(r@) == not_kept(items_view(refs@), strs_view(kept@)),
{
    let ghost all = items_view(refs@);
    let ghost given = refs@;
    let mut out: Vec<Json> = Vec::new();
    proof {
        assert(all.take(0) =~= Seq::empty());
        assert(items_view(out@) =~= Seq::empty());
    }
    for x in it: refs
        invariant
            it.seq() == given,
            all == items_view(given),
            items_view(out@) == not_kept(all.take(it.index()), strs_view(kept@)),
    {
        proof {
            let k = it.index();
            assert(all.take(k + 1).drop_last() =~= all.take(k));
            assert(all.take(k + 1).last() == x@);
        }
        let text = print_json(&x);
        if !among(kept, text.as_str()) {
            proof {
                lemma_items_push(out@, x);
            }
            out.push(x);
        }
    }
    proof {
        assert(all.take(all.len() as int) =~= all);
    }
    out
}

/// Converts what `getInteractiveGoals` answered.
fn conv_goals(result: &Json) -> (r: Option<Vec<Goal>>)
    ensures
        match r {
            Some(goals) => goals_answered(result@) == Some(goals_view(goals@)),
            None => goals_answered(result@) is None,
        },
        r is None <==> result@ is Null,
        field(result@, "goals"@) matches JsonV::Array(items) ==> r is Some && r->0@.len()
            == items.len() && (forall|i: int|
            0 <= i < items.len() ==> (#[trigger] r->0@[i])@ == goal_of(items[i])),
{
    if result.is_null() {
        return None;
    }
    let ghost all = items_of(field(result@, "goals"@));
    let mut goals: Vec<Goal> = Vec::new();
    if let Some(items) = result.get("goals").as_array() {
        let mut i: usize = 0;
        while i < items.len()
            invariant
                i <= items@.len(),
                all == items_view(items@),
                goals@.len() == i,
                forall|k: int| 0 <= k < i ==> (#[trigger] goals@[k])@ == goal_of(all[k]),
            decreases items@.len() - i,
        {
            goals.push(conv_goal(&items[i]));
            i = i + 1;
        }
    }
    proof {
        assert(goals_view(goals@) =~= all.map_values(|g: JsonV| goal_of(g)));
    }
    Some(goals)
}

/// Converts what `getInteractiveDiagnostics` answered.
fn conv_diags(result: &Json) -> (r: Vec<Diag>)
    ensures
        diags_view(r@) == diags_answered(result@),
{
    let ghost all = items_of(result@);
    let mut diags: Vec<Diag> = Vec::new();
    if let Some(items) = result.as_array() {
        let mut i: usize = 0;
        while i < items.len()
            invariant
                i <= items@.len(),
                all == items_view(items@),
                diags@.len() == i,
                forall|k: int| 0 <= k < i ==> (#[trigger] diags@[k])@ == diag_of(all[k], k as nat),
            decreases items@.len() - i,
        {
            diags.push(conv_interactive_diag(&items[i], i));
            i = i + 1;
        }
    }
    proof {
        assert(diags_view(diags@) =~= diags_answered(result@));
    }
    diags
}

/// The texts of the lazy-children pointers in the diagnostics.
fn diags_kept(diags: &Vec<Diag>) -> (r: Vec<String>)
    ensures
        strs_view(r@) == ptr_texts(lazy_ptrs(diags_traces(diags_view(diags@)))),
{
    let ghost all = diags_view(diags@);
    let mut kept: Vec<String> = Vec::new();
    let mut i: usize = 0;
    proof {
        assert(all.take(0) =~= Seq::empty());
        assert(strs_view(kept@) =~= ptr_texts(Seq::empty()));
    }
    while i < diags.len()
        invariant
            i <= diags@.len(),
            all == diags_view(diags@),
            strs_view(kept@) == ptr_texts(lazy_ptrs(diags_traces(all.take(i as int)))),
        decreases diags@.len() - i,
    {
        kept_ptr_keys(&diags[i].message, &mut kept);
        proof {
            let a = diags_traces(all.take(i as int));
            let b = traces_in(all[i as int].message);
            assert(all.take(i + 1).drop_last() =~= all.take(i as int));
            assert(all.take(i + 1).last() == diags@[i as int]@);
            lemma_lazy_ptrs_add(a, b);
            lemma_texts_add(lazy_ptrs(a), lazy_ptrs(b));
        }
        i = i + 1;
    }
    proof {
        assert(all.take(i as int) =~= all);
    }
    kept
}

/// The texts of the lazy-children pointers in the blocks.
fn blocks_kept(blocks: &Vec<Vec<MsgSeg>>) -> (r: Vec<String>)
    ensures
        strs_view(r@) == ptr_texts(lazy_ptrs(blocks_traces(blocks_view(blocks@)))),
{
    let ghost all = blocks_view(blocks@);
    let mut kept: Vec<String> = Vec::new();
    let mut i: usize = 0;
    proof {
        assert(all.take(0) =~= Seq::empty());
        assert(strs_view(kept@) =~= ptr_texts(Seq::empty()));
    }
    while i < blocks.len()
        invariant
            i <= blocks@.len(),
            all == blocks_view(blocks@),
            strs_view(kept@) == ptr_texts(lazy_ptrs(blocks_traces(all.take(i as int)))),
        decreases blocks@.len() - i,
    {
        kept_ptr_keys(&blocks[i], &mut kept);
        proof {
            let a = blocks_traces(all.take(i as int));
            let b = traces_in(all[i as int]);
            assert(all.take(i + 1).drop_last() =~= all.take(i as int));
            assert(all.take(i + 1).last() == segs_view(blocks@[i as int]@));
            lemma_lazy_ptrs_add(a, b);
            lemma_texts_add(lazy_ptrs(a), lazy_ptrs(b));
        }
        i = i + 1;
    }
    proof {
        assert(all.take(i as int) =~= all);
    }
    kept
}

/// Finds the first diagnostic that holds a trace node of that id.
fn first_diag(diags: &Vec<Diag>, id: u32) -> (r: usize)
    ensures
        r == diag_pos(diags_view(diags@), id),
        r <= diags@.len(),
{
    let ghost all = diags_view(diags@);
    let mut i: usize = 0;
    proof {
        assert(all.skip(0) =~= all);
    }
    while i < diags.len()
        invariant
            i <= diags@.len(),
            all == diags_view(diags@),
            diag_pos(all, id) == i + diag_pos(all.skip(i as int), id),
        decreases diags@.len() - i,
    {
        proof {
            assert(all.skip(i as int)[0] == diags@[i as int]@);
            assert(all.skip(i as int).drop_first() =~= all.skip(i + 1));
        }
        if holds_trace(&diags[i].message, id) {
            return i;
        }
        i = i + 1;
    }
    i
}

/// Finds the first trace node of that id in the diagnostics.
fn find_node(diags: &mut Vec<Diag>, id: u32) -> (r: Option<&mut TraceNode>)
    ensures
        match r {
            Some(node) => node_of(diags_view(old(diags)@), id) == Some(node@) && diags_view(
                final(diags)@,
            ) == with_node(diags_view(old(diags)@), id, final(node)@),
            None => node_of(diags_view(old(diags)@), id) is None && diags_view(final(diags)@)
                == diags_view(old(diags)@),
        },
{
    let i = first_diag(diags, id);
    if i < diags.len() {
        let ghost c = diags@;
        proof {
            assert forall|x: Diag|
                diags_view(#[trigger] c.update(i as int, x)) == diags_view(c).update(
                    i as int,
                    x@,
                ) by {
                assert(diags_view(c.update(i as int, x)) =~= diags_view(c).update(i as int, x@));
            }
            assert(diags_view(c).update(i as int, c[i as int]@) =~= diags_view(c));
        }
        find_trace_mut(&mut diags[i].message, id)
    } else {
        None
    }
}

proof fn lemma_same_node(diags: Seq<DiagV>, id: u32)
    ensures
        node_of(diags, id) matches Some(node) ==> with_node(diags, id, node) == diags,
{
    let i = diag_pos(diags, id) as int;
    if i < diags.len() {
        replacing_by_itself_changes_nothing(diags[i].message, id);
        if let Some(node) = node_of(diags, id) {
            assert(with_node(diags, id, node) =~= diags);
        }
    }
}

/// Takes the lazy-children pointers out of diagnostics that are dropped.
fn take_ptrs(diags: Vec<Diag>) -> (r: Vec<Json>)
    ensures
        items_view(r@) == lazy_ptrs(diags_traces(diags_view(diags@))),
{
    let ghost all = diags_view(diags@);
    let ghost given = diags@;
    let mut out: Vec<Json> = Vec::new();
    proof {
        assert(all.take(0) =~= Seq::empty());
        assert(items_view(out@) =~= Seq::empty());
    }
    for x in it: diags
        invariant
            it.seq() == given,
            all == diags_view(given),
            items_view(out@) == lazy_ptrs(diags_traces(all.take(it.index()))),
    {
        proof {
            let k = it.index();
            assert(all.take(k + 1).drop_last() =~= all.take(k));
            assert(all.take(k + 1).last() == x@);
            lemma_lazy_ptrs_add(diags_traces(all.take(k)), traces_in(x@.message));
        }
        let mut message = x.message;
        visit_traces_mut(&mut message, &mut out);
    }
    proof {
        assert(all.take(all.len() as int) =~= all);
    }
    out
}

impl Proxy {
    /// Each table holds a key once.
    pub closed spec fn wf(&self) -> bool {
        &&& self.plain_diags.wf()
        &&& self.sessions.wf()
        &&& self.pending_connect.wf()
        &&& self.pending_goal.wf()
        &&& self.pending_expand.wf()
    }

    pub fn new() -> (r: Proxy)
        ensures
            r.wf(),
            r@ == started(),
    {
        let mut state: InfoviewState = Default::default();
        state.server_alive = true;
        Proxy {
            state,
            cursor: None,
            plain_diags: Table::new(),
            sessions: Table::new(),
            pending_connect: Table::new(),
            pending_goal: Table::new(),
            pending_expand: Table::new(),
            generation: 0,
            diag_generation: 0,
            diag_uri: None,
            next_req: 0,
        }
    }

    /// The state that watchers are shown.
    pub fn state(&self) -> (r: &InfoviewState)
        ensures
            r@ == self@.state,
    {
        &self.state
    }

    fn in_cursor_file(&self, uri: &str) -> (r: bool)
        ensures
            r == cursor_in(self@, uri@),
    {
        match &self.cursor {
            Some(c) => str_eq(c.uri.as_str(), uri),
            None => false,
        }
    }

    fn is_connecting(&self, uri: &str) -> (r: bool)
        requires
            self.wf(),
        ensures
            r == connecting(self@, uri@),
    {
        let ghost t = self.pending_connect@;
        let ghost ks = self.pending_connect.keys();
        let n: usize = self.pending_connect.len();
        let mut i: usize = 0;
        while i < n
            invariant
                i <= n,
                n == ks.len(),
                self.wf(),
                t == self.pending_connect@,
                t == self@.pending_connect,
                ks == self.pending_connect.keys(),
                forall|k: int| 0 <= k < i ==> t[#[trigger] ks[k]] != uri@,
            decreases n - i,
        {
            let (id, u) = self.pending_connect.entry(i);
            if str_eq(u.as_str(), uri) {
                assert(t.contains_key(id@) && t[id@] == uri@);
                return true;
            }
            i = i + 1;
        }
        proof {
            self.pending_connect.lemma_keys();
            assert forall|id: Seq<char>| #[trigger] t.contains_key(id) implies t[id] != uri@ by {
                assert(ks.to_set().contains(id));
                let k = ks.index_of(id);
                assert(ks[k] == id);
            }
        }
        false
    }

    /// Asks for a session for a file, unless that was done already.
    pub fn ensure_session(&mut self, uri: &str, out: &mut Vec<Action>)
        requires
            old(self).wf(),
        ensures
            final(self).wf(),
            final(self)@ == session_ensured(old(self)@, uri@).proxy,
            actions_view(final(out)@) == actions_view(old(out)@) + session_ensured(
                old(self)@,
                uri@,
            ).actions,
    {
        let ghost before = actions_view(out@);
        if self.is_connecting(uri) {
            assert(before + Seq::<ActionV>::empty() =~= before);
            return;
        }
        let n = self.next_req;
        self.next_req = n.wrapping_add(1);
        let id = own_id_text("c", n);
        let msg = connect_json(id.as_str(), uri);
        self.pending_connect.insert(id, uri.to_owned());
        act(out, Action::Send(msg));
        proof {
            assert(actions_view(out@) =~= before + session_ensured(old(self)@, uri@).actions);
        }
    }

    /// Frees RpcPtr references we no longer need, so the server can drop them.
    fn release_refs(&self, uri: &str, refs: Vec<Json>, out: &mut Vec<Action>)
        requires
            self.wf(),
        ensures
            actions_view(final(out)@) == actions_view(old(out)@) + released(
                self@,
                uri@,
                items_view(refs@),
            ),
    {
        let ghost before = actions_view(out@);
        assert(before + Seq::<ActionV>::empty() =~= before);
        if refs.len() == 0 {
            return;
        }
        match self.sessions.get(uri) {
            Some(session) => {
                let msg = release_json(uri, session.clone(), refs);
                act(out, Action::Send(msg));
                proof {
                    assert(actions_view(out@) =~= before + released(
                        self@,
                        uri@,
                        items_view(refs@),
                    ));
                }
            },
            None => {},
        }
    }

    fn send_goal_requests(&mut self, out: &mut Vec<Action>)
        requires
            old(self).wf(),
        ensures
            final(self).wf(),
            final(self)@ == goals_requested(old(self)@).proxy,
            actions_view(final(out)@) == actions_view(old(out)@) + goals_requested(
                old(self)@,
            ).actions,
    {
        let ghost before = actions_view(out@);
        let ghost p = self@;
        let c = match &self.cursor {
            Some(c) => c.clone(),
            None => {
                assert(before + Seq::<ActionV>::empty() =~= before);
                return;
            },
        };
        self.state.line = c.line as u32;
        self.state.column = c.character as u32;
        let same = match &self.state.uri {
            Some(uri) => str_eq(uri.as_str(), c.uri.as_str()),
            None => false,
        };
        if !same {
            self.state.uri = Some(c.uri.clone());
            self.state.diagnostics = match self.plain_diags.get(c.uri.as_str()) {
                Some(list) => copy_diags(&list.diags),
                None => Vec::new(),
            };
            proof {
                if !p.plain_diags.contains_key(c.uri@) {
                    assert(diags_view(self.state.diagnostics@) =~= Seq::empty());
                }
            }
        }
        let ghost q = ProxyV { state: state_at(p, c@), ..p };
        assert(self@ == q);
        let session = match self.sessions.get(c.uri.as_str()) {
            Some(session) => Some(session.clone()),
            None => None,
        };
        match session {
            Some(session) => {
                let ghost sv = session@;
                let g = self.generation.wrapping_add(1);
                self.generation = g;
                let id = own_id_text("g", g);
                let at = document_position_json(c.uri.as_str(), c.line, c.character);
                let m1 = rpc_call(
                    id.as_str(),
                    session.clone(),
                    c.uri.as_str(),
                    c.line,
                    c.character,
                    "Lean.Widget.getInteractiveGoals",
                    at.clone(),
                );
                self.pending_goal.insert(id, c.uri.clone());
                let id = own_id_text("t", g);
                let m2 = rpc_call(
                    id.as_str(),
                    session.clone(),
                    c.uri.as_str(),
                    c.line,
                    c.character,
                    "Lean.Widget.getInteractiveTermGoal",
                    at,
                );
                self.pending_goal.insert(id, c.uri.clone());
                let id = own_id_text("d", g);
                let none = Json::Object(Vec::new());
                assert(none@ == JsonV::Object(Map::empty()));
                let m3 = rpc_call(
                    id.as_str(),
                    session,
                    c.uri.as_str(),
                    c.line,
                    c.character,
                    "Lean.Widget.getInteractiveDiagnostics",
                    none,
                );
                self.pending_goal.insert(id, c.uri.clone());
                act(out, Action::Send(m1));
                act(out, Action::Send(m2));
                act(out, Action::Send(m3));
                act(out, Action::Broadcast);
                proof {
                    let w = wave(c@, sv, g);
                    assert(goals_requested(p).actions == w.push(ActionV::Broadcast));
                    assert(w[0] == ActionV::Send(m1@));
                    assert(w[1] == ActionV::Send(m2@));
                    assert(w[2] == ActionV::Send(m3@));
                    assert(actions_view(out@) =~= before + goals_requested(p).actions);
                }
            },
            None => {
                self.ensure_session(c.uri.as_str(), out);
                act(out, Action::Broadcast);
                proof {
                    assert(actions_view(out@) =~= before + goals_requested(p).actions);
                }
            },
        }
    }

    /// Consumes responses to our own requests. Returns true if the message was ours.
    pub fn handle_our_response(&mut self, v: &Json, out: &mut Vec<Action>) -> (ours: bool)
        requires
            old(self).wf(),
        ensures
            final(self).wf(),
            ours == is_own_response(v@),
            ours ==> final(self)@ == response_handled(old(self)@, *v).proxy && actions_view(
                final(out)@,
            ) == actions_view(old(out)@) + response_handled(old(self)@, *v).actions,
            !ours ==> final(self)@ == old(self)@ && actions_view(final(out)@) == actions_view(
                old(out)@,
            ),
    {
        let ghost before = actions_view(out@);
        assert(before + Seq::<ActionV>::empty() =~= before);
        let id = match v.get("id").as_str() {
            Some(id) => id,
            None => {
                return false;
            },
        };
        let rest = match stripped(id, "infoview:") {
            Some(rest) => rest,
            None => {
                return false;
            },
        };
        if v.get("method").as_str().is_some() {
            return false;
        }
        let (kind, tail) = match cut(rest.as_str(), ':') {
            Some(parts) => parts,
            None => {
                return true;
            },
        };
        let error = v.get("error");
        if !error.is_null() {
            let code = match error.get("code").as_i64() {
                Some(code) => code,
                None => 0,
            };
            self.handle_error(id, code, out);
            return true;
        }
        let kind = kind.as_str();
        if str_eq(kind, "c") {
            self.handle_session(id, v.get("result").get("sessionId"), out);
        } else if str_eq(kind, "g") || str_eq(kind, "t") || str_eq(kind, "d") {
            let generation = match parse_u64(tail.as_str()) {
                Some(n) => n,
                None => 0,
            };
            self.handle_wave(id, kind, generation, v.get("result"), out);
        } else if str_eq(kind, "x") {
            self.handle_expansion(id, v.get("result"), out);
        }
        true
    }

    fn handle_error(&mut self, id: &str, code: i64, out: &mut Vec<Action>)
        requires
            old(self).wf(),
        ensures
            final(self).wf(),
            final(self)@ == error_answered(old(self)@, id@, code).proxy,
            actions_view(final(out)@) == actions_view(old(out)@) + error_answered(
                old(self)@,
                id@,
                code,
            ).actions,
    {
        let ghost before = actions_view(out@);
        let ghost p = self@;
        let ghost q = ProxyV {
            pending_connect: p.pending_connect.remove(id@),
            pending_goal: p.pending_goal.remove(id@),
            pending_expand: p.pending_expand.remove(id@),
            ..p
        };
        assert(before + Seq::<ActionV>::empty() =~= before);
        self.pending_connect.remove(id);
        self.pending_goal.remove(id);
        match self.pending_expand.remove(id) {
            Some(req) => {
                let mut refs: Vec<Json> = Vec::new();
                refs.push(req.ptr);
                proof {
                    assert(items_view(refs@) =~= seq![req.ptr@]);
                }
                self.release_refs(req.uri.as_str(), refs, out);
            },
            None => {},
        }
        assert(self@ == q);
        if code == RPC_NEEDS_RECONNECT {
            let uri = match &self.cursor {
                Some(c) => c.uri.clone(),
                None => {
                    return;
                },
            };
            self.sessions.remove(uri.as_str());
            self.ensure_session(uri.as_str(), out);
            proof {
                assert(actions_view(out@) =~= before + error_answered(p, id@, code).actions);
            }
        }
    }

    fn handle_session(&mut self, id: &str, session: &Json, out: &mut Vec<Action>)
        requires
            old(self).wf(),
        ensures
            final(self).wf(),
            final(self)@ == session_answered(old(self)@, id@, session@).proxy,
            actions_view(final(out)@) == actions_view(old(out)@) + session_answered(
                old(self)@,
                id@,
                session@,
            ).actions,
    {
        let ghost before = actions_view(out@);
        let ghost p = self@;
        assert(before + Seq::<ActionV>::empty() =~= before);
        let uri = match self.pending_connect.remove(id) {
            Some(uri) => uri,
            None => {
                assert(p.pending_connect.remove(id@) =~= p.pending_connect);
                return;
            },
        };
        if session.is_null() {
            return;
        }
        self.sessions.insert(uri.clone(), session.clone());
        if self.in_cursor_file(uri.as_str()) {
            self.send_goal_requests(out);
        }
    }

    /// Shows other diagnostics, and frees the previous ones' unfetched pointers.
    fn replace_diags(&mut self, diags: Vec<Diag>, out: &mut Vec<Action>)
        requires
            old(self).wf(),
        ensures
            final(self).wf(),
            final(self)@ == (ProxyV {
                state: StateV { diagnostics: diags_view(diags@), ..old(self)@.state },
                ..old(self)@
            }),
            actions_view(final(out)@) == actions_view(old(out)@) + shown_freed(old(self)@),
    {
        let ghost before = actions_view(out@);
        assert(before + Seq::<ActionV>::empty() =~= before);
        let mut shown = diags;
        std::mem::swap(&mut shown, &mut self.state.diagnostics);
        let old_ptrs = take_ptrs(shown);
        match &self.diag_uri {
            Some(old_uri) => {
                self.release_refs(old_uri.as_str(), old_ptrs, out);
            },
            None => {},
        }
    }

    fn handle_wave(
        &mut self,
        id: &str,
        kind: &str,
        generation: u64,
        result: &Json,
        out: &mut Vec<Action>,
    )
        requires
            old(self).wf(),
        ensures
            final(self).wf(),
            final(self)@ == wave_answered(old(self)@, id@, kind@, generation, *result).proxy,
            actions_view(final(out)@) == actions_view(old(out)@) + wave_answered(
                old(self)@,
                id@,
                kind@,
                generation,
                *result,
            ).actions,
    {
        let ghost before = actions_view(out@);
        let ghost p = self@;
        let ghost s = wave_answered(p, id@, kind@, generation, *result);
        let uri = match self.pending_goal.remove(id) {
            Some(uri) => uri,
            None => {
                assert(p.pending_goal.remove(id@) =~= p.pending_goal);
                assert(before + Seq::<ActionV>::empty() =~= before);
                return;
            },
        };
        let ghost q = self@;
        let mut refs: Vec<Json> = Vec::new();
        collect_ptrs(result, &mut refs);
        proof {
            assert(items_view(refs@) =~= ptrs_in(*result));
        }
        if generation != self.generation {
            self.release_refs(uri.as_str(), refs, out);
            return;
        }
        if str_eq(kind, "g") {
            self.state.goals = conv_goals(result);
            self.release_refs(uri.as_str(), refs, out);
        } else if str_eq(kind, "t") {
            self.state.term_goal = if result.is_null() {
                None
            } else {
                Some(conv_term_goal(result))
            };
            self.release_refs(uri.as_str(), refs, out);
        } else {
            let diags = conv_diags(result);
            // Keep the new lazy-children pointers alive; free the rest.
            let kept = diags_kept(&diags);
            let refs = drop_kept(refs, &kept);
            self.release_refs(uri.as_str(), refs, out);
            self.replace_diags(diags, out);
            self.diag_uri = Some(uri);
            self.diag_generation = generation;
        }
        act(out, Action::Broadcast);
        proof {
            assert(actions_view(out@) =~= before + s.actions);
        }
    }

    fn handle_expansion(&mut self, id: &str, result: &Json, out: &mut Vec<Action>)
        requires
            old(self).wf(),
        ensures
            final(self).wf(),
            final(self)@ == expansion_answered(old(self)@, id@, *result).proxy,
            actions_view(final(out)@) == actions_view(old(out)@) + expansion_answered(
                old(self)@,
                id@,
                *result,
            ).actions,
    {
        let ghost before = actions_view(out@);
        let ghost p = self@;
        let ghost s = expansion_answered(p, id@, *result);
        let req = match self.pending_expand.remove(id) {
            Some(req) => req,
            None => {
                assert(p.pending_expand.remove(id@) =~= p.pending_expand);
                assert(before + Seq::<ActionV>::empty() =~= before);
                return;
            },
        };
        let ghost ptr = req.ptr@;
        let mut refs: Vec<Json> = Vec::new();
        refs.push(req.ptr);
        proof {
            assert(items_view(refs@) =~= seq![ptr]);
        }
        collect_ptrs(result, &mut refs);
        if req.generation != self.diag_generation {
            self.release_refs(req.uri.as_str(), refs, out);
            return;
        }
        let children = match result.as_array() {
            Some(list) => conv_children(list, req.node_id as u64),
            None => Vec::new(),
        };
        proof {
            assert(blocks_view(children@) =~= children_segs(
                items_of(result@),
                req.node_id as u64,
            ));
        }
        let kept = blocks_kept(&children);
        let refs = drop_kept(refs, &kept);
        self.release_refs(req.uri.as_str(), refs, out);
        match find_node(&mut self.state.diagnostics, req.node_id) {
            Some(node) => {
                node.children = children;
                node.truncated = false;
            },
            None => {},
        }
        act(out, Action::Broadcast);
        proof {
            assert(actions_view(out@) =~= before + s.actions);
        }
    }

    /// Handles an `{"expand": id}` command from a watcher: fetches the lazy
    /// children of that trace node.
    pub fn expand_trace(&mut self, node_id: u32, out: &mut Vec<Action>)
        requires
            old(self).wf(),
        ensures
            final(self).wf(),
            final(self)@ == trace_expanded(old(self)@, node_id).proxy,
            actions_view(final(out)@) == actions_view(old(out)@) + trace_expanded(
                old(self)@,
                node_id,
            ).actions,
    {
        let ghost before = actions_view(out@);
        let ghost p = self@;
        let ghost s = trace_expanded(p, node_id);
        assert(before + Seq::<ActionV>::empty() =~= before);
        let uri = match &self.diag_uri {
            Some(uri) => uri.clone(),
            None => {
                return;
            },
        };
        let session = match self.sessions.get(uri.as_str()) {
            Some(session) => session.clone(),
            None => {
                return;
            },
        };
        let taken = match find_node(&mut self.state.diagnostics, node_id) {
            Some(node) => node.lazy_ptr.take(),
            None => None,
        };
        let ptr = match taken {
            Some(ptr) => ptr,
            None => {
                proof {
                    lemma_same_node(p.state.diagnostics, node_id);
                }
                // Unknown node, or fetch already in flight.
                return;
            },
        };
        // The call needs a position in the session file; the exact one does
        // not matter for lazyTraceChildrenToInteractive.
        let at = match &self.cursor {
            Some(c) => if str_eq(c.uri.as_str(), uri.as_str()) {
                c.clone()
            } else {
                Cursor { uri: uri.clone(), line: 0, character: 0 }
            },
            None => Cursor { uri: uri.clone(), line: 0, character: 0 },
        };
        let n = self.next_req;
        self.next_req = n.wrapping_add(1);
        let id = own_id_text("x", n);
        let msg = rpc_call(
            id.as_str(),
            session,
            at.uri.as_str(),
            at.line,
            at.character,
            "Lean.Widget.lazyTraceChildrenToInteractive",
            ptr.clone(),
        );
        let generation = self.diag_generation;
        self.pending_expand.insert(id, ExpandReq { generation, node_id, uri, ptr });
        act(out, Action::Send(msg));
        proof {
            assert(actions_view(out@) =~= before + s.actions);
        }
    }

    /// Looks at a message of the client that was passed on.
    pub fn inspect_client_msg(&mut self, v: &Json, out: &mut Vec<Action>)
        requires
            old(self).wf(),
        ensures
            final(self).wf(),
            final(self)@ == client_inspected(old(self)@, v@).proxy,
            actions_view(final(out)@) == actions_view(old(out)@) + client_inspected(
                old(self)@,
                v@,
            ).actions,
    {
        let ghost before = actions_view(out@);
        let initialize = match v.get("method").as_str() {
            Some(method) => str_eq(method, "initialize"),
            None => false,
        };
        if initialize {
            act(out, Action::StartSocket(root(v.get("params"))));
            proof {
                assert(actions_view(out@) =~= before + client_inspected(old(self)@, v@).actions);
            }
            return;
        }
        match named_cursor(v) {
            Some(c) => {
                self.cursor = Some(c);
                self.send_goal_requests(out);
            },
            None => {
                assert(before + Seq::<ActionV>::empty() =~= before);
            },
        }
    }

    /// Looks at a message of the server that will be passed on.
    pub fn inspect_server_msg(&mut self, v: &Json, out: &mut Vec<Action>)
        requires
            old(self).wf(),
        ensures
            final(self).wf(),
            final(self)@ == server_inspected(old(self)@, v@).proxy,
            actions_view(final(out)@) == actions_view(old(out)@) + server_inspected(
                old(self)@,
                v@,
            ).actions,
    {
        let ghost before = actions_view(out@);
        assert(before + Seq::<ActionV>::empty() =~= before);
        let method = match v.get("method").as_str() {
            Some(method) => method,
            None => {
                return;
            },
        };
        let p = v.get("params");
        if str_eq(method, "textDocument/publishDiagnostics") {
            let uri = match p.get("uri").as_str() {
                Some(uri) => uri,
                None => {
                    return;
                },
            };
            let diags = conv_plain_diags(p);
            let shown = copy_diags(&diags);
            self.plain_diags.insert(uri.to_owned(), DiagList { diags });
            // Show plain diagnostics only until interactive ones for this file
            // arrive.
            let interactive = match &self.diag_uri {
                Some(shown) => str_eq(shown.as_str(), uri),
                None => false,
            };
            if self.in_cursor_file(uri) && !interactive {
                self.replace_diags(shown, out);
                act(out, Action::Broadcast);
                proof {
                    let p = old(self)@;
                    let q = ProxyV {
                        plain_diags: p.plain_diags.insert(uri@, diags_view(shown@)),
                        ..p
                    };
                    assert(shown_freed(q) == shown_freed(p));
                    assert(actions_view(out@) =~= before + shown_freed(p).push(
                        ActionV::Broadcast,
                    ));
                }
            }
        } else if str_eq(method, "$/lean/fileProgress") {
            let uri = match p.get("textDocument").get("uri").as_str() {
                Some(uri) => uri,
                None => {
                    return;
                },
            };
            let processing = match p.get("processing").as_array() {
                Some(items) => {
                    assert(items_view(items@).len() == items@.len());
                    items.len() > 0
                },
                None => false,
            };
            if self.in_cursor_file(uri) {
                let changed = self.state.processing != processing;
                self.state.processing = processing;
                // Elaboration finished: refresh everything at the cursor.
                if changed && !processing {
                    self.send_goal_requests(out);
                } else if changed {
                    act(out, Action::Broadcast);
                    proof {
                        assert(actions_view(out@) =~= before + seq![ActionV::Broadcast]);
                    }
                }
            }
        }
    }

    /// Takes in a message of the server. Returns whether it is to be passed on
    /// to the client: responses to our own requests are not.
    pub fn on_server_message(&mut self, body: &[u8], out: &mut Vec<Action>) -> (forward: bool)
        requires
            old(self).wf(),
        ensures
            final(self).wf(),
            forward == is_passed_on(body@),
            final(self)@ == body_handled(old(self)@, body@).proxy,
            actions_view(final(out)@) == actions_view(old(out)@) + body_handled(
                old(self)@,
                body@,
            ).actions,
    {
        match parse_json(body) {
            Some(v) => {
                proof {
                    equal_messages_are_handled_alike(old(self)@, v, canonical_of(v@));
                }
                if self.handle_our_response(&v, out) {
                    return false;
                }
                self.inspect_server_msg(&v, out);
                true
            },
            None => {
                assert(actions_view(out@) + Seq::<ActionV>::empty() =~= actions_view(out@));
                true
            },
        }
    }

    /// Takes in a message of the client, which is passed on first: goal
    /// requests triggered by a didChange must reach the server after the edit
    /// itself, or they are answered against the old document.
    pub fn on_client_message(&mut self, body: &[u8], out: &mut Vec<Action>)
        requires
            old(self).wf(),
        ensures
            final(self).wf(),
            match json_parsed(body@) {
                Some(j) => {
                    let s = client_inspected(old(self)@, j);
                    &&& final(self)@ == s.proxy
                    &&& actions_view(final(out)@) == actions_view(old(out)@) + s.actions
                },
                None => final(self)@ == old(self)@ && actions_view(final(out)@) == actions_view(
                    old(out)@,
                ),
            },
    {
        if let Some(v) = parse_json(body) {
            self.inspect_client_msg(&v, out);
        }
    }

    /// Takes in a command from a watcher: one line of JSON.
    pub fn on_command(&mut self, line: &str, out: &mut Vec<Action>)
        requires
            old(self).wf(),
        ensures
            final(self).wf(),
            match json_parsed(encode_utf8(line@)) {
                Some(j) => {
                    let s = command_handled(old(self)@, j);
                    &&& final(self)@ == s.proxy
                    &&& actions_view(final(out)@) == actions_view(old(out)@) + s.actions
                },
                None => final(self)@ == old(self)@ && actions_view(final(out)@) == actions_view(
                    old(out)@,
                ),
            },
    {
        if let Some(v) = parse_json(line.as_bytes()) {
            self.handle_command(&v, out);
        }
    }

    /// Handles a command from a watcher.
    pub fn handle_command(&mut self, v: &Json, out: &mut Vec<Action>)
        requires
            old(self).wf(),
        ensures
            final(self).wf(),
            final(self)@ == command_handled(old(self)@, v@).proxy,
            actions_view(final(out)@) == actions_view(old(out)@) + command_handled(
                old(self)@,
                v@,
            ).actions,
    {
        match v.get("expand").as_u64() {
            Some(node_id) => {
                self.expand_trace(node_id as u32, out);
            },
            None => {
                assert(actions_view(out@) + Seq::<ActionV>::empty() =~= actions_view(out@));
            },
        }
    }

    /// The server is gone: watchers are told.
    pub fn server_stopped(&mut self, out: &mut Vec<Action>)
        requires
            old(self).wf(),
        ensures
            final(self).wf(),
            final(self)@ == server_gone(old(self)@).proxy,
            actions_view(final(out)@) == actions_view(old(out)@) + server_gone(
                old(self)@,
            ).actions,
    {
        let ghost before = actions_view(out@);
        self.state.server_alive = false;
        act(out, Action::Broadcast);
        proof {
            assert(actions_view(out@) =~= before + seq![ActionV::Broadcast]);
        }
    }

    /// What keeps the sessions from expiring: one message for each of them.
    pub fn keep_alives(&self) -> (r: Vec<Json>)
        requires
            self.wf(),
        ensures
            exists|uris: Seq<Seq<char>>|
                uris.no_duplicates() && uris.to_set() == self@.sessions.dom() && items_view(r@)
                    == #[trigger] keep_alives_for(self@, uris),
    {
        let ghost uris = self.sessions.keys();
        let n: usize = self.sessions.len();
        let mut out: Vec<Json> = Vec::new();
        let mut i: usize = 0;
        while i < n
            invariant
                i <= n,
                n == uris.len(),
                self.wf(),
                uris == self.sessions.keys(),
                out@.len() == i,
                forall|k: int|
                    0 <= k < i ==> (#[trigger] out@[k])@ == keep_alive(
                        uris[k],
                        self@.sessions[uris[k]],
                    ),
            decreases n - i,
        {
            let (uri, session) = self.sessions.entry(i);
            out.push(keep_alive_json(uri.as_str(), session.clone()));
            i = i + 1;
        }
        proof {
            self.sessions.lemma_keys();
            assert(items_view(out@) =~= keep_alives_for(self@, uris));
        }
        out
    }
}

} // verus!
