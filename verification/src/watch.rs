//! What the watcher shows, and what it does on a key.
//!
//! Keys: q quit · j/k scroll · Tab/Shift-Tab focus trace nodes · Enter fold.

use crate::json::{json_parsed, json_text, print_json, put, Json, JsonV, Member};
use crate::model::without_scheme;
use crate::render::{
    add_line, append_counted, blank_line, colored, counted, diag_header, flushed, goal_lines,
    line_of, lines_view, nothing_shown, plain, push_diag_header, push_goal, push_segs, repeat,
    repeated, segs_shown, span, styled, Color, Fold, Line, Look, Shown, Span, SpanV, Style,
};
use crate::state::{diags_view, goals_view, no_state, DiagV, Goal, GoalV, InfoviewState, StateV};
use crate::text::{
    chars_of, decimal, decimal_text, join, join_text, split, split_text, str_eq, string_of,
    stripped, strs_view,
};
use std::collections::HashMap;
use vstd::prelude::*;
use vstd::utf8::encode_utf8;

verus! {

broadcast use vstd::std_specs::hash::group_hash_axioms;

/// The watcher: what it is told, and what the user chose to see.
pub struct App {
    pub state: InfoviewState,
    pub scroll: u16,
    /// Fold state the user changed, by trace node id.
    pub fold_overrides: HashMap<u32, bool>,
    /// Focused trace node id (target of Enter).
    pub focus: Option<u32>,
    /// Trace nodes visible in the last render.
    pub folds: Vec<Fold>,
}

/// What an `App` says.
pub struct AppV {
    pub state: StateV,
    pub scroll: u16,
    pub look: Look,
    pub folds: Seq<Fold>,
}

impl View for App {
    type V = AppV;

    open spec fn view(&self) -> AppV {
        AppV {
            state: self.state@,
            scroll: self.scroll,
            look: Look { overrides: self.fold_overrides@, focus: self.focus },
            folds: self.folds@,
        }
    }
}

impl Default for App {
    /// Before the proxy has told anything.
    fn default() -> (r: Self)
        ensures
            r@ == (AppV {
                state: no_state(),
                scroll: 0,
                look: Look { overrides: Map::empty(), focus: None },
                folds: Seq::empty(),
            }),
    {
        App {
            state: Default::default(),
            scroll: 0,
            fold_overrides: HashMap::new(),
            focus: None,
            folds: Vec::new(),
        }
    }
}

/// The last two parts of the path in a uri.
pub open spec fn shortened(uri: Seq<char>) -> Seq<char> {
    let parts = split(without_scheme(uri), '/');
    join(
        if parts.len() > 2 {
            parts.skip(parts.len() - 2)
        } else {
            parts
        },
        "/"@,
    )
}

/// `file:///a/b/c/d.lean` -> `c/d.lean`.
pub fn short_path(uri: &str) -> (r: String)
    ensures
        r@ == shortened(uri@),
{
    let path = match stripped(uri, "file://") {
        Some(path) => path,
        None => uri.to_owned(),
    };
    let parts = split_text(path.as_str(), '/');
    let ghost all = strs_view(parts@);
    let n: usize = parts.len();
    if n > 2 {
        let mut last: Vec<String> = Vec::new();
        last.push(parts[n - 2].clone());
        last.push(parts[n - 1].clone());
        proof {
            assert(strs_view(last@) =~= all.skip(n - 2));
        }
        join_text(&last, "/")
    } else {
        join_text(&parts, "/")
    }
}

pub open spec fn section_line(title: Seq<char>) -> Seq<SpanV> {
    seq![
        span(
            title,
            (Style { bold: true, underlined: true, ..colored(Color::Cyan) }),
        ),
    ]
}

/// The title of a section.
pub fn section(title: &str) -> (r: Line)
    ensures
        r@ == section_line(title@),
{
    let style: Style = Default::default();
    line_of(title, style.fg(Color::Cyan).bold().underlined())
}

/// The header: file:line:col and status.
pub open spec fn status_line(s: StateV) -> Seq<SpanV> {
    let file = match s.uri {
        Some(uri) => shortened(uri),
        None => "—"@,
    };
    seq![
        span(
            file + ":"@ + counted(s.line) + ":"@ + counted(s.column),
            (Style { bold: true, ..plain() }),
        ),
        span("  "@, plain()),
        if !s.server_alive {
            span("server stopped"@, colored(Color::Red))
        } else if s.processing {
            span("⟳ elaborating…"@, colored(Color::Yellow))
        } else {
            span("✓"@, colored(Color::Green))
        },
    ]
}

fn status(s: &InfoviewState) -> (r: Line)
    ensures
        r@ == status_line(s@),
{
    let mut at = match &s.uri {
        Some(uri) => short_path(uri.as_str()),
        None => "—".to_owned(),
    };
    at.append(":");
    append_counted(&mut at, s.line);
    at.append(":");
    append_counted(&mut at, s.column);
    let style: Style = Default::default();
    let mut spans: Vec<Span> = Vec::new();
    spans.push(Span { text: at, style: style.bold() });
    spans.push(styled("  ", style));
    if !s.server_alive {
        spans.push(styled("server stopped", style.fg(Color::Red)));
    } else if s.processing {
        spans.push(styled("⟳ elaborating…", style.fg(Color::Yellow)));
    } else {
        spans.push(styled("✓", style.fg(Color::Green)));
    }
    let r = Line { spans };
    proof {
        assert(r@ =~= status_line(s@));
    }
    r
}

/// The goals, with a rule between them.
pub open spec fn goals_lines(goals: Seq<GoalV>) -> Seq<Seq<SpanV>>
    decreases goals.len(),
{
    if goals.len() == 0 {
        Seq::empty()
    } else {
        let before = goals_lines(goals.drop_last());
        let ruled = if goals.len() > 1 {
            before.push(seq![span(repeated('─', 40), colored(Color::DarkGray))])
        } else {
            before
        };
        ruled + goal_lines(0, goals.last())
    }
}

/// The tactic state.
pub open spec fn tactic_lines(goals: Option<Seq<GoalV>>) -> Seq<Seq<SpanV>> {
    match goals {
        None => Seq::empty(),
        Some(goals) => if goals.len() == 0 {
            seq![
                section_line("Tactic state"@),
                seq![span("Goals accomplished 🎉"@, colored(Color::Green))],
                Seq::empty(),
            ]
        } else {
            let title = "Tactic state ("@ + decimal(goals.len()) + (if goals.len() == 1 {
                " goal)"@
            } else {
                " goals)"@
            });
            (seq![section_line(title)] + goals_lines(goals)).push(Seq::empty())
        },
    }
}

/// The expected type.
pub open spec fn term_lines(term: Option<GoalV>) -> Seq<Seq<SpanV>> {
    match term {
        None => Seq::empty(),
        Some(term) => (seq![section_line("Expected type"@)] + goal_lines(0, term)).push(
            Seq::empty(),
        ),
    }
}

/// The messages.
pub open spec fn diags_shown(diags: Seq<DiagV>, look: Look) -> Shown
    decreases diags.len(),
{
    if diags.len() == 0 {
        nothing_shown()
    } else {
        let before = diags_shown(diags.drop_last(), look);
        let last = flushed(segs_shown(diags.last().message, 2, look), 2);
        Shown {
            lines: before.lines.push(diag_header(diags.last())) + last.lines,
            folds: before.folds + last.folds,
            parts: Seq::empty(),
        }
    }
}

/// The lines of the messages under their title.
pub open spec fn message_lines(diags: Seq<DiagV>, look: Look) -> Seq<Seq<SpanV>> {
    if diags.len() == 0 {
        Seq::empty()
    } else {
        seq![section_line("Messages ("@ + decimal(diags.len()) + ")"@)] + diags_shown(
            diags,
            look,
        ).lines
    }
}

/// What is said where there is nothing to show.
pub open spec fn empty_lines(s: StateV) -> Seq<Seq<SpanV>> {
    if s.goals is None && s.term_goal is None && s.diagnostics.len() == 0 {
        seq![seq![span("No info at cursor."@, colored(Color::DarkGray))]]
    } else {
        Seq::empty()
    }
}

/// The whole infoview.
pub open spec fn built(s: StateV, look: Look) -> Seq<Seq<SpanV>> {
    seq![status_line(s), Seq::empty()] + tactic_lines(s.goals) + term_lines(s.term_goal)
        + message_lines(s.diagnostics, look) + empty_lines(s)
}

/// The infoview as it is drawn.
pub struct Rendered {
    pub lines: Vec<Line>,
    pub folds: Vec<Fold>,
}

fn push_goals(lines: &mut Vec<Line>, goals: &Vec<Goal>)
    ensures
        lines_view(final(lines)@) == lines_view(old(lines)@) + goals_lines(goals_view(goals@)),
{
    let ghost before = lines_view(lines@);
    let ghost all = goals_view(goals@);
    let mut i: usize = 0;
    proof {
        assert(all.take(0) =~= Seq::empty());
        assert(before + goals_lines(all.take(0)) =~= before);
    }
    while i < goals.len()
        invariant
            i <= goals@.len(),
            all == goals_view(goals@),
            lines_view(lines@) == before + goals_lines(all.take(i as int)),
        decreases goals@.len() - i,
    {
        if i > 0 {
            let style: Style = Default::default();
            let rule = repeat('─', 40);
            add_line(lines, line_of(rule.as_str(), style.fg(Color::DarkGray)));
        }
        push_goal(lines, 0, &goals[i]);
        proof {
            assert(all.take(i + 1).drop_last() =~= all.take(i as int));
            assert(all.take(i + 1).last() == goals@[i as int]@);
            assert(lines_view(lines@) =~= before + goals_lines(all.take(i + 1)));
        }
        i = i + 1;
    }
    proof {
        assert(all.take(i as int) =~= all);
    }
}

fn push_tactic(lines: &mut Vec<Line>, goals: &Option<Vec<Goal>>)
    ensures
        lines_view(final(lines)@) == lines_view(old(lines)@) + tactic_lines(
            match *goals {
                Some(goals) => Some(goals_view(goals@)),
                None => None,
            },
        ),
{
    let ghost before = lines_view(lines@);
    match goals {
        None => {
            assert(before + Seq::<Seq<SpanV>>::empty() =~= before);
        },
        Some(goals) => {
            let ghost all = goals_view(goals@);
            if goals.len() == 0 {
                let style: Style = Default::default();
                add_line(lines, section("Tactic state"));
                add_line(lines, line_of("Goals accomplished 🎉", style.fg(Color::Green)));
                add_line(lines, blank_line());
                proof {
                    assert(lines_view(lines@) =~= before + tactic_lines(Some(all)));
                }
            } else {
                let mut title = "Tactic state (".to_owned();
                let n = decimal_text(goals.len() as u64);
                title.append(n.as_str());
                title.append(
                    if goals.len() == 1 {
                        " goal)"
                    } else {
                        " goals)"
                    },
                );
                add_line(lines, section(title.as_str()));
                push_goals(lines, goals);
                add_line(lines, blank_line());
                proof {
                    assert(lines_view(lines@) =~= before + tactic_lines(Some(all)));
                }
            }
        },
    }
}

/// Draws the infoview.
pub fn build(app: &App) -> (r: Rendered)
    ensures
        lines_view(r.lines@) == built(app@.state, app@.look),
        r.folds@ == diags_shown(app@.state.diagnostics, app@.look).folds,
{
    let s = &app.state;
    let ghost sv = s@;
    let ghost look = app@.look;
    let style: Style = Default::default();
    let mut lines: Vec<Line> = Vec::new();
    let mut folds: Vec<Fold> = Vec::new();
    add_line(&mut lines, status(s));
    add_line(&mut lines, blank_line());
    let ghost l1 = seq![status_line(sv), Seq::empty()];
    assert(lines_view(lines@) =~= l1);
    push_tactic(&mut lines, &s.goals);
    let ghost l2 = l1 + tactic_lines(sv.goals);
    assert(lines_view(lines@) == l2);
    if let Some(term) = &s.term_goal {
        add_line(&mut lines, section("Expected type"));
        push_goal(&mut lines, 0, term);
        add_line(&mut lines, blank_line());
    }
    let ghost l3 = l2 + term_lines(sv.term_goal);
    assert(lines_view(lines@) =~= l3);
    let ghost all = diags_view(s.diagnostics@);
    if s.diagnostics.len() > 0 {
        let mut title = "Messages (".to_owned();
        let n = decimal_text(s.diagnostics.len() as u64);
        title.append(n.as_str());
        title.append(")");
        add_line(&mut lines, section(title.as_str()));
        let ghost titled = lines_view(lines@);
        let mut i: usize = 0;
        proof {
            assert(all.take(0) =~= Seq::empty());
            assert(titled + nothing_shown().lines =~= titled);
            assert(folds@ =~= nothing_shown().folds);
        }
        while i < s.diagnostics.len()
            invariant
                i <= s.diagnostics@.len(),
                all == diags_view(s.diagnostics@),
                look == (Look { overrides: app.fold_overrides@, focus: app.focus }),
                lines_view(lines@) == titled + diags_shown(all.take(i as int), look).lines,
                folds@ == diags_shown(all.take(i as int), look).folds,
            decreases s.diagnostics@.len() - i,
        {
            let d = &s.diagnostics[i];
            proof {
                assert(all.take(i + 1).drop_last() =~= all.take(i as int));
                assert(all.take(i + 1).last() == d@);
            }
            push_diag_header(&mut lines, d);
            push_segs(&mut lines, &mut folds, &app.fold_overrides, app.focus, &d.message, 2);
            proof {
                assert(lines_view(lines@) =~= titled + diags_shown(all.take(i + 1), look).lines);
            }
            i = i + 1;
        }
        proof {
            assert(all.take(i as int) =~= all);
        }
    }
    let ghost l4 = l3 + message_lines(sv.diagnostics, look);
    assert(lines_view(lines@) =~= l4);
    if s.goals.is_none() && s.term_goal.is_none() && s.diagnostics.len() == 0 {
        add_line(&mut lines, line_of("No info at cursor.", style.fg(Color::DarkGray)));
    }
    proof {
        assert(lines_view(lines@) =~= built(sv, look));
        assert(folds@ =~= diags_shown(all, look).folds);
    }
    Rendered { lines, folds }
}

/// Takes in what the proxy tells.
pub fn receive(app: &mut App, state: InfoviewState)
    ensures
        final(app)@ == (AppV { state: state@, ..old(app)@ }),
{
    app.state = state;
}

/// Draws the infoview, and remembers which trace nodes can be seen.
pub fn redraw(app: &mut App) -> (r: Vec<Line>)
    ensures
        final(app)@ == (AppV {
            folds: diags_shown(old(app)@.state.diagnostics, old(app)@.look).folds,
            ..old(app)@
        }),
        lines_view(r@) == built(old(app)@.state, old(app)@.look),
{
    let rendered = build(app);
    app.folds = rendered.folds;
    rendered.lines
}

/// What is drawn while there is no proxy.
pub open spec fn waiting() -> Seq<Seq<SpanV>> {
    seq![
        seq![span("Lean 4 Infoview"@, (Style { bold: true, ..plain() }))],
        Seq::empty(),
        seq![span("Waiting for the language server proxy…"@, plain())],
        seq![
            span(
                "Open a .lean file in Zed to start it. Press q to quit."@,
                colored(Color::DarkGray),
            ),
        ],
    ]
}

pub fn draw_waiting() -> (r: Vec<Line>)
    ensures
        lines_view(r@) == waiting(),
{
    let style: Style = Default::default();
    let mut lines: Vec<Line> = Vec::new();
    lines.push(line_of("Lean 4 Infoview", style.bold()));
    lines.push(blank_line());
    lines.push(line_of("Waiting for the language server proxy…", style));
    lines.push(
        line_of(
            "Open a .lean file in Zed to start it. Press q to quit.",
            style.fg(Color::DarkGray),
        ),
    );
    proof {
        assert(lines_view(lines@) =~= waiting());
    }
    lines
}

/// The line at the bottom.
pub fn footer() -> (r: Line)
    ensures
        r@ == seq![span(" q quit · j/k scroll · tab traces · ⏎ fold"@, colored(Color::DarkGray))],
{
    let style: Style = Default::default();
    line_of(" q quit · j/k scroll · tab traces · ⏎ fold", style.fg(Color::DarkGray))
}

/// How many trace nodes come before the first with that id.
pub open spec fn fold_pos(folds: Seq<Fold>, id: u32) -> nat
    decreases folds.len(),
{
    if folds.len() == 0 || folds[0].id == id {
        0
    } else {
        1 + fold_pos(folds.drop_first(), id)
    }
}

fn find_fold(folds: &Vec<Fold>, id: u32) -> (r: usize)
    ensures
        r == fold_pos(folds@, id),
        r <= folds@.len(),
{
    let mut i: usize = 0;
    proof {
        assert(folds@.skip(0) =~= folds@);
    }
    while i < folds.len()
        invariant
            i <= folds@.len(),
            fold_pos(folds@, id) == i + fold_pos(folds@.skip(i as int), id),
        decreases folds@.len() - i,
    {
        proof {
            assert(folds@.skip(i as int).drop_first() =~= folds@.skip(i + 1));
        }
        if folds[i].id == id {
            return i;
        }
        i = i + 1;
    }
    i
}

/// The trace node that the focus moves to: the next one or the one before,
/// round at the ends; the first one where none of them has the focus.
pub open spec fn focus_moved(folds: Seq<Fold>, focus: Option<u32>, forward: bool) -> Option<u32> {
    let n = folds.len() as int;
    let i = match focus {
        Some(id) => fold_pos(folds, id) as int,
        None => n,
    };
    if n == 0 {
        None
    } else if i >= n {
        Some(folds[0].id)
    } else if forward {
        Some(folds[(i + 1) % n].id)
    } else {
        Some(folds[(i + n - 1) % n].id)
    }
}

/// Moves the focus to the next trace node where `dir` is 1, else to the one
/// before.
pub fn move_focus(app: &mut App, dir: i32)
    ensures
        final(app)@ == (AppV {
            look: Look {
                focus: focus_moved(old(app)@.folds, old(app)@.look.focus, dir == 1),
                ..old(app)@.look
            },
            ..old(app)@
        }),
{
    let n: usize = app.folds.len();
    if n == 0 {
        app.focus = None;
        return;
    }
    let i: usize = match app.focus {
        Some(id) => find_fold(&app.folds, id),
        None => n,
    };
    let next: usize = if i >= n {
        0
    } else if dir == 1 {
        if i + 1 == n {
            0
        } else {
            i + 1
        }
    } else if i == 0 {
        n - 1
    } else {
        i - 1
    };
    proof {
        if i < n {
            lemma_around(i as int, n as int);
        }
    }
    app.focus = Some(app.folds[next].id);
}

/// One step round a circle, forward and back.
pub proof fn lemma_around(i: int, n: int)
    requires
        0 <= i < n,
    ensures
        (i + 1) % n == (if i + 1 == n {
            0
        } else {
            i + 1
        }),
        (i + n - 1) % n == (if i == 0 {
            n - 1
        } else {
            i - 1
        }),
{
    if i + 1 == n {
        assert((i + 1) % n == 0) by (nonlinear_arith)
            requires
                i + 1 == n,
                n > 0,
        ;
    } else {
        vstd::arithmetic::div_mod::lemma_small_mod((i + 1) as nat, n as nat);
    }
    if i == 0 {
        vstd::arithmetic::div_mod::lemma_small_mod((n - 1) as nat, n as nat);
    } else {
        vstd::arithmetic::div_mod::lemma_small_mod((i - 1) as nat, n as nat);
        vstd::arithmetic::div_mod::lemma_mod_add_multiples_vanish(i - 1, n);
    }
}

/// The trace node that has the focus, if it is shown.
pub open spec fn focused_fold(a: AppV) -> Option<Fold> {
    match a.look.focus {
        Some(id) => {
            let i = fold_pos(a.folds, id) as int;
            if i < a.folds.len() {
                Some(a.folds[i])
            } else {
                None
            }
        },
        None => None,
    }
}

/// The focused trace node folded or unfolded.
pub open spec fn toggled(a: AppV) -> AppV {
    match focused_fold(a) {
        Some(fold) => AppV {
            look: Look {
                overrides: a.look.overrides.insert(a.look.focus->0, !fold.collapsed),
                ..a.look
            },
            ..a
        },
        None => a,
    }
}

/// The trace node whose children have to be fetched once the focused one is
/// unfolded.
pub open spec fn fetched(a: AppV) -> Option<u32> {
    match focused_fold(a) {
        Some(fold) => if fold.collapsed && fold.needs_fetch {
            a.look.focus
        } else {
            None
        },
        None => None,
    }
}

/// Toggles the focused fold. Returns the node id to fetch from the proxy
/// when it is being expanded but its children are not loaded yet.
pub fn toggle_focused(app: &mut App) -> (r: Option<u32>)
    ensures
        final(app)@ == toggled(old(app)@),
        r == fetched(old(app)@),
{
    let id = match app.focus {
        Some(id) => id,
        None => {
            return None;
        },
    };
    let i = find_fold(&app.folds, id);
    if i >= app.folds.len() {
        return None;
    }
    let fold = app.folds[i];
    app.fold_overrides.insert(id, !fold.collapsed);
    if fold.collapsed && fold.needs_fetch {
        Some(id)
    } else {
        None
    }
}

/// A key that is pressed.
#[derive(Debug, Clone, Copy, PartialEq, Eq, Structural)]
pub enum Key {
    Char(char),
    Esc,
    Up,
    Down,
    PageUp,
    PageDown,
    Home,
    Tab,
    BackTab,
    Enter,
    Other,
}

/// What a key asks for outside.
#[derive(Debug, Clone, Copy, PartialEq, Eq, Structural)]
pub enum Reply {
    Quit,
    /// Ask the proxy to fetch the lazy children of that trace node.
    Fetch(u32),
    Nothing,
}

/// Whether a key quits: q, Esc or Ctrl-C.
pub open spec fn is_quit(key: Key, ctrl: bool) -> bool {
    key == Key::Char('q') || key == Key::Esc || (key == Key::Char('c') && ctrl)
}

pub fn quit_requested(key: Key, ctrl: bool) -> (r: bool)
    ensures
        r == is_quit(key, ctrl),
{
    key == Key::Char('q') || key == Key::Esc || (key == Key::Char('c') && ctrl)
}

/// The scroll position so many lines further up.
pub open spec fn scrolled_up(scroll: u16, n: int) -> u16 {
    if scroll < n {
        0
    } else {
        (scroll - n) as u16
    }
}

/// The scroll position so many lines further down.
pub open spec fn scrolled_down(scroll: u16, n: int) -> u16 {
    if scroll + n > u16::MAX {
        u16::MAX
    } else {
        (scroll + n) as u16
    }
}

/// What a key does within the watcher.
pub open spec fn key_handled(a: AppV, key: Key, ctrl: bool) -> AppV {
    if is_quit(key, ctrl) {
        a
    } else {
        match key {
            Key::Up | Key::Char('k') => AppV { scroll: scrolled_up(a.scroll, 1), ..a },
            Key::Down | Key::Char('j') => AppV { scroll: scrolled_down(a.scroll, 1), ..a },
            Key::PageUp => AppV { scroll: scrolled_up(a.scroll, 10), ..a },
            Key::PageDown => AppV { scroll: scrolled_down(a.scroll, 10), ..a },
            Key::Home => AppV { scroll: 0, ..a },
            Key::Tab => AppV {
                look: Look { focus: focus_moved(a.folds, a.look.focus, true), ..a.look },
                ..a
            },
            Key::BackTab => AppV {
                look: Look { focus: focus_moved(a.folds, a.look.focus, false), ..a.look },
                ..a
            },
            Key::Enter | Key::Char(' ') => toggled(a),
            _ => a,
        }
    }
}

/// What a key asks for outside.
pub open spec fn key_reply(a: AppV, key: Key, ctrl: bool) -> Reply {
    if is_quit(key, ctrl) {
        Reply::Quit
    } else if key == Key::Enter || key == Key::Char(' ') {
        match fetched(a) {
            Some(id) => Reply::Fetch(id),
            None => Reply::Nothing,
        }
    } else {
        Reply::Nothing
    }
}

/// Handles a key.
pub fn on_key(app: &mut App, key: Key, ctrl: bool) -> (r: Reply)
    ensures
        final(app)@ == key_handled(old(app)@, key, ctrl),
        r == key_reply(old(app)@, key, ctrl),
{
    if quit_requested(key, ctrl) {
        return Reply::Quit;
    }
    match key {
        Key::Up | Key::Char('k') => {
            app.scroll = app.scroll.saturating_sub(1);
        },
        Key::Down | Key::Char('j') => {
            app.scroll = app.scroll.saturating_add(1);
        },
        Key::PageUp => {
            app.scroll = app.scroll.saturating_sub(10);
        },
        Key::PageDown => {
            app.scroll = app.scroll.saturating_add(10);
        },
        Key::Home => {
            app.scroll = 0;
        },
        Key::Tab => {
            move_focus(app, 1);
        },
        Key::BackTab => {
            move_focus(app, -1);
        },
        Key::Enter | Key::Char(' ') => {
            return match toggle_focused(app) {
                Some(id) => Reply::Fetch(id),
                None => Reply::Nothing,
            };
        },
        _ => {},
    }
    Reply::Nothing
}

/// The command by which the proxy is asked for the children of a trace node.
pub open spec fn expand_command(node_id: u32) -> JsonV {
    JsonV::Object(Map::empty().insert("expand"@, JsonV::Unsigned(node_id as u64)))
}

/// The line that asks the proxy for the children of a trace node. The proxy
/// reads from it what is meant.
pub fn expand_line(node_id: u32) -> (r: String)
    ensures
        r@ == json_text(expand_command(node_id)),
        json_parsed(encode_utf8(r@)) == Some(expand_command(node_id)),
{
    let mut m: Vec<Member> = Vec::new();
    put(&mut m, "expand", Json::Unsigned(node_id as u64));
    let command = Json::Object(m);
    assert(command@ == expand_command(node_id));
    print_json(&command)
}

/// A file in the directory of the sockets.
pub struct SocketFile {
    pub name: String,
    /// When it was last modified, in nanoseconds since the Unix epoch, where
    /// that could be told.
    pub modified: Option<i128>,
}

/// Which socket to connect to.
#[derive(Debug, Clone, Copy, PartialEq, Eq, Structural)]
pub enum Found {
    /// The one named after the current directory.
    Exact,
    /// That one of the files.
    File(usize),
    Nothing,
}

/// Whether a file name has the extension `sock`.
pub open spec fn is_socket_name(name: Seq<char>) -> bool {
    name.len() > 5 && name.skip(name.len() - 5) == ".sock"@
}

/// Whether a file is a socket of which is known when it was modified.
pub open spec fn is_candidate(f: SocketFile) -> bool {
    is_socket_name(f.name@) && f.modified is Some
}

/// Whether that is the most recently modified socket, the first of them where
/// there are several.
pub open spec fn is_newest(files: Seq<SocketFile>, i: int) -> bool {
    &&& 0 <= i < files.len()
    &&& is_candidate(files[i])
    &&& forall|k: int|
        0 <= k < files.len() && is_candidate(#[trigger] files[k]) ==> files[k].modified->0
            <= files[i].modified->0 && (k < i ==> files[k].modified->0 < files[i].modified->0)
}

fn socket_name(name: &str) -> (r: bool)
    ensures
        r == is_socket_name(name@),
{
    proof {
        reveal_strlit(".sock");
    }
    let c = chars_of(name);
    let n: usize = c.len();
    if n <= 5 {
        return false;
    }
    let tail = string_of(&c, n - 5, n);
    proof {
        assert(tail@ =~= name@.skip(n - 5));
    }
    str_eq(tail.as_str(), ".sock")
}

/// The proxy names the socket after the workspace root; the watcher runs in
/// the same worktree, so the cwd usually matches. Fall back to the most
/// recently modified socket otherwise.
pub fn find_socket(exact_exists: bool, files: &Vec<SocketFile>) -> (r: Found)
    ensures
        match r {
            Found::Exact => exact_exists,
            Found::File(i) => !exact_exists && is_newest(files@, i as int),
            Found::Nothing => !exact_exists && forall|k: int|
                0 <= k < files@.len() ==> !is_candidate(#[trigger] files@[k]),
        },
{
    if exact_exists {
        return Found::Exact;
    }
    let mut best: Option<(i128, usize)> = None;
    let mut i: usize = 0;
    while i < files.len()
        invariant
            i <= files@.len(),
            match best {
                Some((t, b)) => b < i && files@[b as int].modified == Some(t) && is_newest(
                    files@.take(i as int),
                    b as int,
                ),
                None => forall|k: int| 0 <= k < i ==> !is_candidate(#[trigger] files@[k]),
            },
        decreases files@.len() - i,
    {
        let ghost seen = files@.take(i as int);
        let ghost now = files@.take(i + 1);
        proof {
            assert(forall|k: int| 0 <= k < i ==> #[trigger] now[k] == seen[k]);
            assert(forall|k: int| 0 <= k < i ==> #[trigger] now[k] == files@[k]);
            assert(now[i as int] == files@[i as int]);
        }
        if socket_name(files[i].name.as_str()) {
            if let Some(t) = files[i].modified {
                let newer = match best {
                    Some((b, _)) => t > b,
                    None => true,
                };
                if newer {
                    best = Some((t, i));
                }
            }
        }
        proof {
            if let Some((t, b)) = best {
                assert(is_newest(now, b as int));
            }
        }
        i = i + 1;
    }
    proof {
        assert(files@.take(i as int) =~= files@);
    }
    match best {
        Some((_, b)) => Found::File(b),
        None => Found::Nothing,
    }
}

} // verus!
