//! Infoview state shared between the proxy and the watcher, and the name of
//! the socket they meet on.

use crate::json::{opt_json_view, Json, JsonV};
use crate::text::{copy_opt, hex, opt_view, push_hex, strs_view};
use vstd::prelude::*;
use vstd::utf8::encode_utf8;

verus! {

#[derive(Debug, PartialEq)]
pub struct InfoviewState {
    /// File the cursor is in (LSP uri).
    pub uri: Option<String>,
    /// Cursor position, 0-based (LSP convention).
    pub line: u32,
    pub column: u32,
    /// `None`: cursor is not in a tactic proof. `Some([])`: goals accomplished.
    pub goals: Option<Vec<Goal>>,
    /// Expected type at the cursor, if any.
    pub term_goal: Option<Goal>,
    /// Diagnostics for the cursor file.
    pub diagnostics: Vec<Diag>,
    /// The server is still elaborating the cursor file.
    pub processing: bool,
    /// The real language server is running.
    pub server_alive: bool,
}

/// One span of pretty-printed code. `diff` is a Lean goal-diff tag:
/// `wasChanged`, `willChange`, `wasInserted`, `willInsert`, `wasDeleted`,
/// `willDelete`.
#[derive(Debug, Default, PartialEq)]
pub struct TextSpan {
    pub text: String,
    pub diff: Option<String>,
}

#[derive(Debug, Default, PartialEq)]
pub struct Goal {
    /// `case` name, if any.
    pub name: Option<String>,
    /// Usually `"⊢ "`.
    pub prefix: String,
    pub hyps: Vec<Hyp>,
    pub target: Vec<TextSpan>,
    pub is_inserted: bool,
    pub is_removed: bool,
}

#[derive(Debug, Default, PartialEq)]
pub struct Hyp {
    pub names: Vec<String>,
    pub ty: Vec<TextSpan>,
    /// `let`-value, if any.
    pub val: Option<Vec<TextSpan>>,
    pub is_instance: bool,
    pub is_type: bool,
    pub is_inserted: bool,
    pub is_removed: bool,
}

#[derive(Debug, PartialEq)]
pub struct Diag {
    pub line: u32,
    pub column: u32,
    /// LSP severity: 1 error, 2 warning, 3 info, 4 hint.
    pub severity: u8,
    pub message: Vec<MsgSeg>,
}

/// A segment of an interactive diagnostic message.
#[derive(Debug, PartialEq)]
pub enum MsgSeg {
    Text(TextSpan),
    /// A goal embedded in the message (e.g. "unsolved goals").
    Goal(Goal),
    /// A collapsible trace node.
    Trace(TraceNode),
}

#[derive(Debug, Default, PartialEq)]
pub struct TraceNode {
    /// Stable-ish id, used by the watcher to keep fold state across updates.
    pub id: u32,
    /// Trace class, e.g. `Meta.synthInstance`.
    pub cls: String,
    pub header: Vec<MsgSeg>,
    pub children: Vec<Vec<MsgSeg>>,
    /// Collapsed by default (server hint).
    pub collapsed: bool,
    /// Children exist on the server but are not fetched yet. The watcher
    /// requests them by sending `{"expand": id}` back on the socket.
    pub truncated: bool,
    /// Proxy-internal: RpcPtr to fetch the children. Never serialized.
    pub lazy_ptr: Option<Json>,
}

/// What an `InfoviewState` says.
pub struct StateV {
    pub uri: Option<Seq<char>>,
    pub line: u32,
    pub column: u32,
    pub goals: Option<Seq<GoalV>>,
    pub term_goal: Option<GoalV>,
    pub diagnostics: Seq<DiagV>,
    pub processing: bool,
    pub server_alive: bool,
}

/// What a `TextSpan` says.
pub struct TextSpanV {
    pub text: Seq<char>,
    pub diff: Option<Seq<char>>,
}

/// What a `Goal` says.
pub struct GoalV {
    pub name: Option<Seq<char>>,
    pub prefix: Seq<char>,
    pub hyps: Seq<HypV>,
    pub target: Seq<TextSpanV>,
    pub is_inserted: bool,
    pub is_removed: bool,
}

/// What a `Hyp` says.
pub struct HypV {
    pub names: Seq<Seq<char>>,
    pub ty: Seq<TextSpanV>,
    pub val: Option<Seq<TextSpanV>>,
    pub is_instance: bool,
    pub is_type: bool,
    pub is_inserted: bool,
    pub is_removed: bool,
}

/// What a `Diag` says.
pub struct DiagV {
    pub line: u32,
    pub column: u32,
    pub severity: u8,
    pub message: Seq<SegV>,
}

/// What a `MsgSeg` says.
pub enum SegV {
    Text(TextSpanV),
    Goal(GoalV),
    Trace(TraceV),
}

/// What a `TraceNode` says.
pub struct TraceV {
    pub id: u32,
    pub cls: Seq<char>,
    pub header: Seq<SegV>,
    pub children: Seq<Seq<SegV>>,
    pub collapsed: bool,
    pub truncated: bool,
    pub lazy_ptr: Option<JsonV>,
}

impl View for TextSpan {
    type V = TextSpanV;

    open spec fn view(&self) -> TextSpanV {
        TextSpanV { text: self.text@, diff: opt_view(self.diff) }
    }
}

pub open spec fn spans_view(s: Seq<TextSpan>) -> Seq<TextSpanV> {
    s.map_values(|x: TextSpan| x@)
}

impl View for Hyp {
    type V = HypV;

    open spec fn view(&self) -> HypV {
        HypV {
            names: strs_view(self.names@),
            ty: spans_view(self.ty@),
            val: match self.val {
                Some(spans) => Some(spans_view(spans@)),
                None => None,
            },
            is_instance: self.is_instance,
            is_type: self.is_type,
            is_inserted: self.is_inserted,
            is_removed: self.is_removed,
        }
    }
}

pub open spec fn hyps_view(s: Seq<Hyp>) -> Seq<HypV> {
    s.map_values(|x: Hyp| x@)
}

impl View for Goal {
    type V = GoalV;

    open spec fn view(&self) -> GoalV {
        GoalV {
            name: opt_view(self.name),
            prefix: self.prefix@,
            hyps: hyps_view(self.hyps@),
            target: spans_view(self.target@),
            is_inserted: self.is_inserted,
            is_removed: self.is_removed,
        }
    }
}

pub open spec fn goals_view(s: Seq<Goal>) -> Seq<GoalV> {
    s.map_values(|x: Goal| x@)
}

pub open spec fn seg_view(s: MsgSeg) -> SegV
    decreases s,
{
    match s {
        MsgSeg::Text(span) => SegV::Text(span@),
        MsgSeg::Goal(goal) => SegV::Goal(goal@),
        MsgSeg::Trace(node) => SegV::Trace(trace_view(node)),
    }
}

pub open spec fn trace_view(n: TraceNode) -> TraceV
    decreases n,
{
    TraceV {
        id: n.id,
        cls: n.cls@,
        header: segs_view(n.header@),
        children: blocks_view(n.children@),
        collapsed: n.collapsed,
        truncated: n.truncated,
        lazy_ptr: opt_json_view(n.lazy_ptr),
    }
}

pub open spec fn segs_view(s: Seq<MsgSeg>) -> Seq<SegV>
    decreases s,
{
    Seq::new(
        s.len(),
        |i: int|
            if 0 <= i < s.len() {
                seg_view(s[i])
            } else {
                arbitrary()
            },
    )
}

pub open spec fn blocks_view(s: Seq<Vec<MsgSeg>>) -> Seq<Seq<SegV>>
    decreases s,
{
    Seq::new(
        s.len(),
        |i: int|
            if 0 <= i < s.len() {
                segs_view(s[i]@)
            } else {
                arbitrary()
            },
    )
}

impl View for MsgSeg {
    type V = SegV;

    open spec fn view(&self) -> SegV {
        seg_view(*self)
    }
}

impl View for TraceNode {
    type V = TraceV;

    open spec fn view(&self) -> TraceV {
        trace_view(*self)
    }
}

impl View for Diag {
    type V = DiagV;

    open spec fn view(&self) -> DiagV {
        DiagV {
            line: self.line,
            column: self.column,
            severity: self.severity,
            message: segs_view(self.message@),
        }
    }
}

pub open spec fn diags_view(s: Seq<Diag>) -> Seq<DiagV> {
    s.map_values(|x: Diag| x@)
}

impl View for InfoviewState {
    type V = StateV;

    open spec fn view(&self) -> StateV {
        StateV {
            uri: opt_view(self.uri),
            line: self.line,
            column: self.column,
            goals: match self.goals {
                Some(goals) => Some(goals_view(goals@)),
                None => None,
            },
            term_goal: match self.term_goal {
                Some(goal) => Some(goal@),
                None => None,
            },
            diagnostics: diags_view(self.diagnostics@),
            processing: self.processing,
            server_alive: self.server_alive,
        }
    }
}

/// The state before anything is known.
pub open spec fn no_state() -> StateV {
    StateV {
        uri: None,
        line: 0,
        column: 0,
        goals: None,
        term_goal: None,
        diagnostics: Seq::empty(),
        processing: false,
        server_alive: false,
    }
}

impl Default for InfoviewState {
    fn default() -> (r: Self)
        ensures
            r@ == no_state(),
    {
        let r = InfoviewState {
            uri: None,
            line: 0,
            column: 0,
            goals: None,
            term_goal: None,
            diagnostics: Vec::new(),
            processing: false,
            server_alive: false,
        };
        proof {
            assert(diags_view(r.diagnostics@) =~= Seq::empty());
        }
        r
    }
}

pub proof fn lemma_segs_push(s: Seq<MsgSeg>, x: MsgSeg)
    ensures
        segs_view(s.push(x)) == segs_view(s).push(x@),
{
    assert(segs_view(s.push(x)) =~= segs_view(s).push(x@));
}

impl Clone for TextSpan {
    /// A copy that says the same.
    fn clone(&self) -> (r: Self)
        ensures
            r@ == self@,
    {
        TextSpan { text: self.text.clone(), diff: copy_opt(&self.diff) }
    }
}

/// A copy that says the same.
pub fn copy_spans(spans: &Vec<TextSpan>) -> (r: Vec<TextSpan>)
    ensures
        spans_view(r@) == spans_view(spans@),
{
    let mut out: Vec<TextSpan> = Vec::new();
    let mut i: usize = 0;
    while i < spans.len()
        invariant
            i <= spans@.len(),
            out@.len() == i,
            forall|k: int| 0 <= k < i ==> (#[trigger] out@[k])@ == spans@[k]@,
        decreases spans@.len() - i,
    {
        out.push(spans[i].clone());
        i = i + 1;
    }
    proof {
        assert(spans_view(out@) =~= spans_view(spans@));
    }
    out
}

/// A copy that says the same.
pub fn copy_strings(s: &Vec<String>) -> (r: Vec<String>)
    ensures
        strs_view(r@) == strs_view(s@),
{
    let mut out: Vec<String> = Vec::new();
    let mut i: usize = 0;
    while i < s.len()
        invariant
            i <= s@.len(),
            out@.len() == i,
            forall|k: int| 0 <= k < i ==> (#[trigger] out@[k])@ == s@[k]@,
        decreases s@.len() - i,
    {
        out.push(s[i].clone());
        i = i + 1;
    }
    proof {
        assert(strs_view(out@) =~= strs_view(s@));
    }
    out
}

impl Clone for Hyp {
    /// A copy that says the same.
    fn clone(&self) -> (r: Self)
        ensures
            r@ == self@,
    {
        Hyp {
            names: copy_strings(&self.names),
            ty: copy_spans(&self.ty),
            val: match &self.val {
                Some(spans) => Some(copy_spans(spans)),
                None => None,
            },
            is_instance: self.is_instance,
            is_type: self.is_type,
            is_inserted: self.is_inserted,
            is_removed: self.is_removed,
        }
    }
}

impl Clone for Goal {
    /// A copy that says the same.
    fn clone(&self) -> (r: Self)
        ensures
            r@ == self@,
    {
        let mut hyps: Vec<Hyp> = Vec::new();
        let mut i: usize = 0;
        while i < self.hyps.len()
            invariant
                i <= self.hyps@.len(),
                hyps@.len() == i,
                forall|k: int| 0 <= k < i ==> (#[trigger] hyps@[k])@ == self.hyps@[k]@,
            decreases self.hyps@.len() - i,
        {
            hyps.push(self.hyps[i].clone());
            i = i + 1;
        }
        proof {
            assert(hyps_view(hyps@) =~= hyps_view(self.hyps@));
        }
        Goal {
            name: copy_opt(&self.name),
            prefix: self.prefix.clone(),
            hyps,
            target: copy_spans(&self.target),
            is_inserted: self.is_inserted,
            is_removed: self.is_removed,
        }
    }
}

impl Clone for MsgSeg {
    /// A copy that says the same.
    fn clone(&self) -> (r: Self)
        ensures
            r@ == self@,
        decreases *self,
    {
        match self {
            MsgSeg::Text(span) => MsgSeg::Text(span.clone()),
            MsgSeg::Goal(goal) => MsgSeg::Goal(goal.clone()),
            MsgSeg::Trace(node) => MsgSeg::Trace(node.clone()),
        }
    }
}

impl Clone for TraceNode {
    /// A copy that says the same.
    fn clone(&self) -> (r: Self)
        ensures
            r@ == self@,
        decreases *self,
    {
        let header = copy_segs(&self.header);
        let mut children: Vec<Vec<MsgSeg>> = Vec::new();
        let mut i: usize = 0;
        while i < self.children.len()
            invariant
                i <= self.children@.len(),
                children@.len() == i,
                forall|k: int|
                    0 <= k < i ==> segs_view((#[trigger] children@[k])@) == segs_view(
                        self.children@[k]@,
                    ),
            decreases self.children@.len() - i,
        {
            assert(decreases_to!(*self => self.children));
            assert(decreases_to!(self.children => self.children[i as int]));
            children.push(copy_segs(&self.children[i]));
            i = i + 1;
        }
        proof {
            assert(blocks_view(children@) =~= blocks_view(self.children@));
        }
        TraceNode {
            id: self.id,
            cls: self.cls.clone(),
            header,
            children,
            collapsed: self.collapsed,
            truncated: self.truncated,
            lazy_ptr: match &self.lazy_ptr {
                Some(ptr) => Some(ptr.clone()),
                None => None,
            },
        }
    }
}

/// A copy that says the same.
pub fn copy_segs(segs: &Vec<MsgSeg>) -> (r: Vec<MsgSeg>)
    ensures
        segs_view(r@) == segs_view(segs@),
    decreases *segs,
{
    let mut out: Vec<MsgSeg> = Vec::new();
    let mut i: usize = 0;
    while i < segs.len()
        invariant
            i <= segs@.len(),
            out@.len() == i,
            forall|k: int| 0 <= k < i ==> (#[trigger] out@[k])@ == segs@[k]@,
        decreases segs@.len() - i,
    {
        assert(decreases_to!(segs => segs[i as int]));
        out.push(segs[i].clone());
        i = i + 1;
    }
    proof {
        assert(segs_view(out@) =~= segs_view(segs@));
    }
    out
}

impl Clone for Diag {
    /// A copy that says the same.
    fn clone(&self) -> (r: Self)
        ensures
            r@ == self@,
    {
        Diag {
            line: self.line,
            column: self.column,
            severity: self.severity,
            message: copy_segs(&self.message),
        }
    }
}

/// A copy that says the same.
pub fn copy_diags(diags: &Vec<Diag>) -> (r: Vec<Diag>)
    ensures
        diags_view(r@) == diags_view(diags@),
{
    let mut out: Vec<Diag> = Vec::new();
    let mut i: usize = 0;
    while i < diags.len()
        invariant
            i <= diags@.len(),
            out@.len() == i,
            forall|k: int| 0 <= k < i ==> (#[trigger] out@[k])@ == diags@[k]@,
        decreases diags@.len() - i,
    {
        out.push(diags[i].clone());
        i = i + 1;
    }
    proof {
        assert(diags_view(out@) =~= diags_view(diags@));
    }
    out
}

impl Clone for InfoviewState {
    /// A copy that says the same.
    fn clone(&self) -> (r: Self)
        ensures
            r@ == self@,
    {
        InfoviewState {
            uri: copy_opt(&self.uri),
            line: self.line,
            column: self.column,
            goals: match &self.goals {
                Some(goals) => Some(copy_goals(goals)),
                None => None,
            },
            term_goal: match &self.term_goal {
                Some(goal) => Some(goal.clone()),
                None => None,
            },
            diagnostics: copy_diags(&self.diagnostics),
            processing: self.processing,
            server_alive: self.server_alive,
        }
    }
}

/// A copy that says the same.
pub fn copy_goals(goals: &Vec<Goal>) -> (r: Vec<Goal>)
    ensures
        goals_view(r@) == goals_view(goals@),
{
    let mut out: Vec<Goal> = Vec::new();
    let mut i: usize = 0;
    while i < goals.len()
        invariant
            i <= goals@.len(),
            out@.len() == i,
            forall|k: int| 0 <= k < i ==> (#[trigger] out@[k])@ == goals@[k]@,
        decreases goals@.len() - i,
    {
        out.push(goals[i].clone());
        i = i + 1;
    }
    proof {
        assert(goals_view(out@) =~= goals_view(goals@));
    }
    out
}

/// The 64-bit FNV-1a hash.
pub open spec fn fnv1a_hash(bytes: Seq<u8>) -> u64
    decreases bytes.len(),
{
    if bytes.len() == 0 {
        0xcbf29ce484222325
    } else {
        (fnv1a_hash(bytes.drop_last()) ^ (bytes.last() as u64)).wrapping_mul(0x100000001b3)
    }
}

pub fn fnv1a(bytes: &[u8]) -> (r: u64)
    ensures
        r == fnv1a_hash(bytes@),
{
    let mut hash: u64 = 0xcbf29ce484222325;
    let mut i: usize = 0;
    proof {
        assert(bytes@.take(0) =~= Seq::<u8>::empty());
    }
    while i < bytes.len()
        invariant
            i <= bytes@.len(),
            hash == fnv1a_hash(bytes@.take(i as int)),
        decreases bytes@.len() - i,
    {
        proof {
            assert(bytes@.take(i + 1).drop_last() =~= bytes@.take(i as int));
        }
        hash = hash ^ (bytes[i] as u64);
        hash = hash.wrapping_mul(0x100000001b3);
        i = i + 1;
    }
    proof {
        assert(bytes@.take(i as int) =~= bytes@);
    }
    hash
}

/// The directory of the sockets, below the directory for temporary files.
pub fn socket_dir() -> (r: String)
    ensures
        r@ == "zed-lean4-companion"@,
{
    "zed-lean4-companion".to_owned()
}

/// The name of the socket for a workspace root.
pub open spec fn socket_name(root: Seq<char>) -> Seq<char> {
    hex(fnv1a_hash(encode_utf8(root)) as nat, 16) + ".sock"@
}

/// Where the socket for a workspace root is, below the directory for
/// temporary files.
pub open spec fn socket_path(root: Seq<char>) -> Seq<char> {
    "zed-lean4-companion"@ + "/"@ + socket_name(root)
}

/// Socket path derived from the workspace root path, so a watcher started in
/// the same worktree finds the proxy without configuration. It is relative to
/// the directory for temporary files.
pub fn socket_path_for_root(root: &str) -> (r: String)
    ensures
        r@ == socket_path(root@),
{
    let mut path = socket_dir();
    path.append("/");
    push_hex(&mut path, fnv1a(root.as_bytes()), 16);
    path.append(".sock");
    proof {
        assert(path@ =~= socket_path(root@));
    }
    path
}

} // verus!
