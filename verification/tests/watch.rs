use zed_lean4_companion::render::{
    diff_style, push_goal, push_rich, Color, Fold, Line, Span, Style,
};
use zed_lean4_companion::state::{Diag, Goal, Hyp, InfoviewState, MsgSeg, TextSpan, TraceNode};
use zed_lean4_companion::watch::{
    build, draw_waiting, expand_line, find_socket, footer, move_focus, on_key, quit_requested,
    receive, redraw, short_path, toggle_focused, App, Found, Key, Reply, SocketFile,
};

fn texts(lines: &[Line]) -> Vec<String> {
    lines
        .iter()
        .map(|l| l.spans.iter().map(|s| s.text.as_str()).collect::<String>())
        .collect()
}

fn span(text: &str) -> TextSpan {
    TextSpan {
        text: text.to_string(),
        diff: None,
    }
}

fn styled(text: &str, style: Style) -> Span {
    Span {
        text: text.to_string(),
        style,
    }
}

fn plain() -> Style {
    Style::default()
}

fn goal(target: &str) -> Goal {
    Goal {
        prefix: "⊢ ".to_string(),
        target: vec![span(target)],
        ..Goal::default()
    }
}

fn trace(id: u32, children: Vec<Vec<MsgSeg>>) -> TraceNode {
    TraceNode {
        id,
        cls: format!("c{id}"),
        header: vec![MsgSeg::Text(span("head"))],
        children,
        ..TraceNode::default()
    }
}

/// An app that shows: an open node 1 with node 2 (lazy, folded) in it, and node 3.
fn app() -> App {
    let lazy = TraceNode {
        collapsed: true,
        truncated: true,
        ..trace(2, Vec::new())
    };
    let message = vec![
        MsgSeg::Text(span("two\nlines")),
        MsgSeg::Trace(trace(1, vec![vec![MsgSeg::Trace(lazy)]])),
        MsgSeg::Trace(trace(3, Vec::new())),
        MsgSeg::Text(span("end")),
    ];
    let mut app = App::default();
    receive(
        &mut app,
        InfoviewState {
            uri: Some("file:///a/b/c/d.lean".to_string()),
            line: 4,
            column: 0,
            diagnostics: vec![Diag {
                line: 9,
                column: 1,
                severity: 1,
                message,
            }],
            server_alive: true,
            ..InfoviewState::default()
        },
    );
    app
}

#[test]
fn paths_are_shortened() {
    assert_eq!(short_path("file:///a/b/c/d.lean"), "c/d.lean");
    assert_eq!(short_path("file:///d.lean"), "/d.lean");
    assert_eq!(short_path("d.lean"), "d.lean");
    assert_eq!(short_path("untitled:/x/y/"), "y/");
    assert_eq!(short_path(""), "");
}

#[test]
fn diff_tags_are_coloured() {
    let style = |tag: &str| diff_style(&Some(tag.to_string()), plain().bold());
    for tag in ["wasChanged", "willChange"] {
        assert_eq!(style(tag), plain().bold().fg(Color::Yellow));
    }
    for tag in ["wasInserted", "willInsert", "willInserted"] {
        assert_eq!(style(tag), plain().bold().fg(Color::Green));
    }
    for tag in ["wasDeleted", "willDelete", "willDeleted"] {
        assert_eq!(style(tag), plain().bold().fg(Color::Red).crossed_out());
    }
    assert_eq!(style("other"), plain().bold());
    assert_eq!(diff_style(&None, plain().dim()), plain().dim());
}

#[test]
fn rich_text_is_split_and_indented() {
    let red = plain().fg(Color::Red);
    let parts = vec![styled("a\n\nb", red), styled("c\n", plain())];
    let mut lines = vec![Line { spans: Vec::new() }];
    push_rich(&mut lines, 2, &parts);
    assert_eq!(
        lines,
        vec![
            Line { spans: Vec::new() },
            Line {
                spans: vec![styled("  ", plain()), styled("a", red)],
            },
            Line {
                spans: vec![styled("  ", plain())],
            },
            Line {
                spans: vec![styled("  ", plain()), styled("b", red), styled("c", plain())],
            },
            Line {
                spans: vec![styled("  ", plain())],
            },
        ]
    );
    let mut none = Vec::new();
    push_rich(&mut none, 0, &Vec::new());
    assert_eq!(texts(&none), [""]);
}

#[test]
fn goals_are_drawn() {
    let g = Goal {
        name: Some("inl".to_string()),
        hyps: vec![
            Hyp {
                names: vec!["x".to_string(), "y".to_string()],
                ty: vec![span("Nat")],
                val: Some(vec![span("0")]),
                is_instance: true,
                ..Hyp::default()
            },
            Hyp {
                names: vec!["h".to_string()],
                ty: vec![span("p")],
                is_removed: true,
                ..Hyp::default()
            },
        ],
        is_inserted: true,
        ..goal("q")
    };
    let mut lines = Vec::new();
    push_goal(&mut lines, 2, &g);
    assert_eq!(
        texts(&lines),
        ["  case inl", "  x y : Nat := 0", "  h : p", "  ⊢ q"]
    );
    let green = plain().fg(Color::Green);
    assert_eq!(lines[0].spans[1].style, plain().fg(Color::Magenta));
    assert_eq!(lines[1].spans[1].style, green.dim());
    assert_eq!(lines[1].spans[2].style, green.dim().fg(Color::DarkGray));
    assert_eq!(lines[2].spans[1].style, plain().fg(Color::Red).crossed_out());
    assert_eq!(lines[3].spans[1].style, green.bold());
    assert_eq!(lines[3].spans[2].style, green);
}

#[test]
fn nothing_at_the_cursor_is_said() {
    let lines = build(&App::default()).lines;
    assert_eq!(texts(&lines), ["—:1:1  server stopped", "", "No info at cursor."]);
    assert_eq!(lines[1].spans, Vec::new());
    assert_eq!(lines[2].spans, vec![styled("No info at cursor.", plain().fg(Color::DarkGray))]);
}

#[test]
fn the_status_is_shown() {
    let mut app = App::default();
    app.state.server_alive = true;
    assert_eq!(
        build(&app).lines[0].spans,
        vec![
            styled("—:1:1", plain().bold()),
            styled("  ", plain()),
            styled("✓", plain().fg(Color::Green)),
        ]
    );
    app.state.processing = true;
    assert_eq!(
        build(&app).lines[0].spans[2],
        styled("⟳ elaborating…", plain().fg(Color::Yellow))
    );
}

#[test]
fn the_tactic_state_is_shown() {
    let mut app = App::default();
    app.state.server_alive = true;
    app.state.goals = Some(Vec::new());
    assert_eq!(
        texts(&build(&app).lines)[2..],
        ["Tactic state", "Goals accomplished 🎉", ""]
    );
    app.state.goals = Some(vec![goal("p")]);
    assert_eq!(texts(&build(&app).lines)[2..], ["Tactic state (1 goal)", "⊢ p", ""]);
    app.state.goals = Some(vec![goal("p"), goal("q")]);
    app.state.term_goal = Some(goal("Nat"));
    let rule = "─".repeat(40);
    assert_eq!(
        texts(&build(&app).lines)[2..],
        ["Tactic state (2 goals)", "⊢ p", &rule, "⊢ q", "", "Expected type", "⊢ Nat", ""]
    );
    let title = &build(&app).lines[2].spans[0];
    assert_eq!(title.style, plain().fg(Color::Cyan).bold().underlined());
}

#[test]
fn severities_are_named() {
    let mut app = App::default();
    for (severity, label, color) in [
        (1, "error", Color::Red),
        (2, "warning", Color::Yellow),
        (3, "info", Color::Blue),
        (4, "hint", Color::DarkGray),
        (0, "info", Color::Blue),
    ] {
        app.state.diagnostics = vec![Diag {
            line: 0,
            column: 7,
            severity,
            message: Vec::new(),
        }];
        let lines = build(&app).lines;
        assert_eq!(
            lines[3].spans,
            vec![
                styled("▸ 1:8 ", plain().fg(Color::DarkGray)),
                styled(label, plain().fg(color).bold()),
            ]
        );
    }
}

#[test]
fn messages_are_drawn_with_their_traces() {
    let mut app = app();
    let lines = redraw(&mut app);
    assert_eq!(
        texts(&lines),
        [
            "c/d.lean:5:1  ✓",
            "",
            "Messages (1)",
            "▸ 10:2 error",
            "  two",
            "  lines",
            "  ▼ [c1] head",
            "    ▶ [c2] head",
            "  ▼ [c3] head",
            "  end",
        ]
    );
    let fold = |id, collapsed, needs_fetch| Fold {
        id,
        collapsed,
        needs_fetch,
    };
    assert_eq!(app.folds, vec![fold(1, false, false), fold(2, true, true), fold(3, false, false)]);
}

#[test]
fn a_goal_in_a_message_ends_the_text() {
    let mut app = App::default();
    app.state.diagnostics = vec![Diag {
        line: 0,
        column: 0,
        severity: 1,
        message: vec![
            MsgSeg::Text(span("a")),
            MsgSeg::Text(span("b")),
            MsgSeg::Goal(goal("p")),
            MsgSeg::Text(span("c")),
        ],
    }];
    assert_eq!(texts(&build(&app).lines)[4..], ["  ab", "  ⊢ p", "  c"]);
}

#[test]
fn headers_show_text_only() {
    let mut app = App::default();
    let node = TraceNode {
        header: vec![MsgSeg::Goal(goal("p")), MsgSeg::Text(span("x\ny"))],
        ..trace(1, Vec::new())
    };
    app.state.diagnostics = vec![Diag {
        line: 0,
        column: 0,
        severity: 1,
        message: vec![MsgSeg::Trace(node)],
    }];
    assert_eq!(texts(&build(&app).lines)[4..], ["  ▼ [c1] …x", "  y"]);
}

#[test]
fn the_focused_node_stands_out() {
    let mut app = app();
    let cyan = plain().fg(Color::Cyan);
    assert_eq!(build(&app).lines[6].spans[1].style, cyan);
    assert_eq!(build(&app).lines[6].spans[2].style, plain().fg(Color::DarkGray));
    app.focus = Some(1);
    assert_eq!(build(&app).lines[6].spans[1], styled("▼ ", cyan.reversed()));
    assert_eq!(build(&app).lines[6].spans[2], styled("[c1] ", cyan.reversed()));
}

#[test]
fn tab_goes_round_and_shift_tab_takes_it_back() {
    let mut app = app();
    assert_eq!(on_key(&mut app, Key::Tab, false), Reply::Nothing);
    assert_eq!(app.focus, None);
    redraw(&mut app);
    for id in [1, 2, 3, 1] {
        on_key(&mut app, Key::Tab, false);
        assert_eq!(app.focus, Some(id));
    }
    for id in [3, 2, 1] {
        on_key(&mut app, Key::BackTab, false);
        assert_eq!(app.focus, Some(id));
    }
    app.focus = Some(77);
    move_focus(&mut app, -1);
    assert_eq!(app.focus, Some(1));
}

#[test]
fn enter_folds_and_unfolds() {
    let mut app = app();
    redraw(&mut app);
    assert_eq!(toggle_focused(&mut app), None);
    app.focus = Some(1);
    assert_eq!(on_key(&mut app, Key::Enter, false), Reply::Nothing);
    let lines = redraw(&mut app);
    assert_eq!(texts(&lines)[6..], ["  ▶ [c1] head", "  ▼ [c3] head", "  end"]);
    assert_eq!(on_key(&mut app, Key::Char(' '), false), Reply::Nothing);
    assert_eq!(texts(&redraw(&mut app))[6], "  ▼ [c1] head");
    // What the user chose stays when the state changes.
    app.focus = Some(3);
    on_key(&mut app, Key::Enter, false);
    let state = app.state.clone();
    receive(&mut app, state);
    assert_eq!(texts(&redraw(&mut app))[8], "  ▶ [c3] head");
}

#[test]
fn unfolding_a_lazy_node_fetches_its_children() {
    let mut app = app();
    redraw(&mut app);
    app.focus = Some(2);
    assert_eq!(on_key(&mut app, Key::Enter, false), Reply::Fetch(2));
    let lines = redraw(&mut app);
    assert_eq!(texts(&lines)[7..9], ["    ▼ [c2] head", "      … (loading)"]);
    // Folding it again fetches nothing.
    assert_eq!(on_key(&mut app, Key::Enter, false), Reply::Nothing);
    app.focus = Some(77);
    assert_eq!(on_key(&mut app, Key::Enter, false), Reply::Nothing);
    assert_eq!(expand_line(2), r#"{"expand":2}"#);
    assert_eq!(expand_line(u32::MAX), r#"{"expand":4294967295}"#);
}

#[test]
fn keys_scroll() {
    let mut app = App::default();
    on_key(&mut app, Key::Up, false);
    assert_eq!(app.scroll, 0);
    on_key(&mut app, Key::Char('j'), false);
    on_key(&mut app, Key::Down, false);
    on_key(&mut app, Key::PageDown, false);
    assert_eq!(app.scroll, 12);
    on_key(&mut app, Key::Char('k'), false);
    assert_eq!(app.scroll, 11);
    on_key(&mut app, Key::PageUp, false);
    assert_eq!(app.scroll, 1);
    on_key(&mut app, Key::PageUp, false);
    assert_eq!(app.scroll, 0);
    app.scroll = u16::MAX - 3;
    on_key(&mut app, Key::PageDown, false);
    assert_eq!(app.scroll, u16::MAX);
    on_key(&mut app, Key::Home, false);
    assert_eq!(app.scroll, 0);
}

#[test]
fn keys_quit() {
    let mut app = App::default();
    for (key, ctrl, quits) in [
        (Key::Char('q'), false, true),
        (Key::Char('q'), true, true),
        (Key::Esc, false, true),
        (Key::Char('c'), true, true),
        (Key::Char('c'), false, false),
        (Key::Other, true, false),
        (Key::Enter, false, false),
    ] {
        assert_eq!(quit_requested(key, ctrl), quits);
        assert_eq!(on_key(&mut app, key, ctrl) == Reply::Quit, quits);
    }
}

#[test]
fn waiting_is_drawn() {
    let lines = draw_waiting();
    assert_eq!(
        texts(&lines),
        [
            "Lean 4 Infoview",
            "",
            "Waiting for the language server proxy…",
            "Open a .lean file in Zed to start it. Press q to quit.",
        ]
    );
    assert_eq!(lines[0].spans[0].style, plain().bold());
    assert_eq!(lines[3].spans[0].style, plain().fg(Color::DarkGray));
    assert_eq!(texts(&[footer()]), [" q quit · j/k scroll · tab traces · ⏎ fold"]);
}

#[test]
fn the_newest_socket_is_the_fallback() {
    let file = |name: &str, modified: Option<i128>| SocketFile {
        name: name.to_string(),
        modified,
    };
    let files = vec![
        file("a.sock", Some(5)),
        file("b.txt", Some(99)),
        file(".sock", Some(99)),
        file("c.sock", None),
        file("d.e.sock", Some(7)),
        file("f.sock", Some(7)),
        file("g.sock", Some(-1)),
    ];
    assert_eq!(find_socket(false, &files), Found::File(4));
    assert_eq!(find_socket(true, &files), Found::Exact);
    assert_eq!(find_socket(false, &vec![file("x", Some(1))]), Found::Nothing);
    assert_eq!(find_socket(false, &Vec::new()), Found::Nothing);
    assert_eq!(find_socket(false, &vec![file("g.sock", Some(-1))]), Found::File(0));
}
