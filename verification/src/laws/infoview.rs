//! What the infoview shows as a whole, and what its keys do.

use crate::json::{field, JsonV};
use crate::laws::shown::{folds_of, lines_of};
use crate::laws::text::{
    each_separator_begins_a_piece, hex_reads_back, hex_value, one_piece_without_separator,
};
use crate::laws::watch::lemma_fold_pos;
use crate::model::without_scheme;
use crate::render::{
    colored, counted, diag_header, goal_lines, plain, repeated, Color, Fold, Look, SpanV, Style,
};
use crate::state::{fnv1a_hash, socket_name, socket_path, DiagV, GoalV, StateV};
use crate::text::{decimal, hex, join, split, split_then_join};
use crate::watch::{
    built, diags_shown, expand_command, fetched, focus_moved, focused_fold, fold_pos, goals_lines,
    is_candidate, is_newest, is_quit, is_socket_name, key_handled, key_reply, lemma_around,
    message_lines, section_line, shortened, status_line, tactic_lines, term_lines, toggled, waiting,
    AppV, Key, Reply, SocketFile,
};
use vstd::arithmetic::power::pow;
use vstd::prelude::*;
use vstd::utf8::encode_utf8;

verus! {

/// The line that stands between goals.
pub open spec fn rule() -> Seq<SpanV> {
    seq![SpanV { text: Seq::new(40, |i: int| '─'), style: colored(Color::DarkGray) }]
}

/// One goal is shown as it is; of more, each is shown, with a rule between two.
pub proof fn every_goal_is_shown(a: Seq<GoalV>, b: Seq<GoalV>, g: GoalV)
    ensures
        goals_lines(Seq::empty()).len() == 0,
        goals_lines(seq![g]) == goal_lines(0, g),
        a.len() > 0 && b.len() > 0 ==> goals_lines(a + b) == goals_lines(a) + seq![rule()]
            + goals_lines(b),
    decreases b.len(),
{
    assert(seq![g].drop_last() =~= Seq::empty());
    assert(goals_lines(Seq::empty()) =~= Seq::empty());
    assert(Seq::<Seq<SpanV>>::empty() + goal_lines(0, g) =~= goal_lines(0, g));
    if a.len() > 0 && b.len() > 0 {
        assert((a + b).drop_last() =~= a + b.drop_last());
        assert((a + b).last() == b.last());
        assert(repeated('─', 40) =~= rule()[0].text);
        if b.len() == 1 {
            assert(a + b.drop_last() =~= a);
            assert(b =~= seq![b.last()]);
            assert(seq![b.last()].drop_last() =~= Seq::empty());
            assert(Seq::<Seq<SpanV>>::empty() + goal_lines(0, b.last()) =~= goal_lines(
                0,
                b.last(),
            ));
            assert(goals_lines(b) == goal_lines(0, b.last()));
        } else {
            every_goal_is_shown(a, b.drop_last(), g);
        }
        assert(goals_lines(a + b) =~= goals_lines(a) + seq![rule()] + goals_lines(b));
    }
}

/// The tactic state says how many goals there are and shows all of them; where
/// there are none left it says that they are accomplished, and outside of proofs
/// it says nothing.
pub proof fn the_tactic_state_is_shown(goals: Seq<GoalV>)
    ensures
        tactic_lines(None).len() == 0,
        goals.len() == 0 ==> ({
            let lines = tactic_lines(Some(goals));
            &&& lines.len() == 3
            &&& lines[0] == section_line("Tactic state"@)
            &&& lines[1] == seq![
                SpanV { text: "Goals accomplished 🎉"@, style: colored(Color::Green) },
            ]
            &&& lines[2].len() == 0
        }),
        goals.len() > 0 ==> ({
            let lines = tactic_lines(Some(goals));
            &&& lines.len() == goals_lines(goals).len() + 2
            &&& goals.len() == 1 ==> lines[0] == section_line(
                "Tactic state ("@ + decimal(1) + " goal)"@,
            )
            &&& goals.len() > 1 ==> lines[0] == section_line(
                "Tactic state ("@ + decimal(goals.len()) + " goals)"@,
            )
            &&& lines.subrange(1, lines.len() - 1) == goals_lines(goals)
            &&& lines.last().len() == 0
        }),
{
    if goals.len() > 0 {
        let lines = tactic_lines(Some(goals));
        assert(lines.subrange(1, lines.len() - 1) =~= goals_lines(goals));
    }
}

/// The expected type is shown under its title where there is one.
pub proof fn the_expected_type_is_shown(term: GoalV)
    ensures
        term_lines(None).len() == 0,
        ({
            let lines = term_lines(Some(term));
            &&& lines.len() == goal_lines(0, term).len() + 2
            &&& lines[0] == section_line("Expected type"@)
            &&& lines.subrange(1, lines.len() - 1) == goal_lines(0, term)
            &&& lines.last().len() == 0
        }),
{
    let lines = term_lines(Some(term));
    assert(lines.subrange(1, lines.len() - 1) =~= goal_lines(0, term));
}

/// Every diagnostic is shown in order, each as its header and its message below
/// it, two columns in; the trace nodes that can be focused are those of each
/// message in order.
pub proof fn every_diagnostic_is_shown(diags: Seq<DiagV>, look: Look)
    ensures
        diags_shown(diags, look).lines == diags.map_values(
            |d: DiagV| seq![diag_header(d)] + lines_of(d.message, 2, look),
        ).flatten(),
        diags_shown(diags, look).folds == diags.map_values(
            |d: DiagV| folds_of(d.message, 2, look),
        ).flatten(),
    decreases diags.len(),
{
    let f = |d: DiagV| seq![diag_header(d)] + lines_of(d.message, 2, look);
    let g = |d: DiagV| folds_of(d.message, 2, look);
    if diags.len() > 0 {
        let rest = diags.drop_last();
        let last = diags.last();
        every_diagnostic_is_shown(rest, look);
        assert(diags.map_values(f) =~= rest.map_values(f).push(f(last)));
        assert(diags.map_values(g) =~= rest.map_values(g).push(g(last)));
        rest.map_values(f).lemma_flatten_push(f(last));
        rest.map_values(g).lemma_flatten_push(g(last));
        let head = seq![diag_header(last)];
        let before = diags_shown(rest, look).lines;
        assert(f(last) == head + lines_of(last.message, 2, look));
        assert(g(last) == folds_of(last.message, 2, look));
        assert(diags_shown(diags, look).lines == before.push(diag_header(last)) + lines_of(
            last.message,
            2,
            look,
        ));
        assert(before.push(diag_header(last)) =~= before + head);
        assert(diags_shown(diags, look).lines =~= before + f(last));
    } else {
        assert(diags.map_values(f) =~= Seq::empty());
        assert(diags.map_values(g) =~= Seq::empty());
    }
}

/// The messages are shown under a title that says how many there are; without
/// any there is no title.
pub proof fn messages_are_counted(diags: Seq<DiagV>, look: Look)
    ensures
        diags.len() == 0 ==> message_lines(diags, look).len() == 0,
        diags.len() > 0 ==> message_lines(diags, look).len() == 1 + diags_shown(
            diags,
            look,
        ).lines.len() && message_lines(diags, look)[0] == section_line(
            "Messages ("@ + decimal(diags.len()) + ")"@,
        ) && message_lines(diags, look).skip(1) == diags_shown(diags, look).lines,
{
    if diags.len() > 0 {
        assert(message_lines(diags, look).skip(1) =~= diags_shown(diags, look).lines);
    }
}

/// The infoview is the status, a blank line, the tactic state, the expected type
/// and the messages, in that order; where there is none of these, it says so.
pub proof fn the_infoview_shows_everything(s: StateV, look: Look)
    ensures
        ({
            let empty = s.goals is None && s.term_goal is None && s.diagnostics.len() == 0;
            let above = seq![status_line(s), Seq::empty()];
            &&& !empty ==> built(s, look) == above + tactic_lines(s.goals) + term_lines(
                s.term_goal,
            ) + message_lines(s.diagnostics, look)
            &&& empty ==> built(s, look) == above.push(
                seq![SpanV { text: "No info at cursor."@, style: colored(Color::DarkGray) }],
            )
        }),
{
    let empty = s.goals is None && s.term_goal is None && s.diagnostics.len() == 0;
    let above = seq![status_line(s), Seq::empty()];
    let all = above + tactic_lines(s.goals) + term_lines(s.term_goal) + message_lines(
        s.diagnostics,
        look,
    );
    if empty {
        assert(built(s, look) =~= above.push(
            seq![SpanV { text: "No info at cursor."@, style: colored(Color::DarkGray) }],
        ));
    } else {
        assert(built(s, look) =~= all);
    }
}

/// The status names the file and the position, counted from 1, and says whether
/// the server has stopped, still elaborates, or is done.
pub proof fn the_status_says_where_and_how(s: StateV)
    ensures
        ({
            let spans = status_line(s);
            &&& spans.len() == 3
            &&& s.uri is None && s.line < u32::MAX && s.column < u32::MAX ==> spans[0].text == "—"@
                + ":"@ + decimal((s.line + 1) as nat) + ":"@ + decimal((s.column + 1) as nat)
            &&& s.line < u32::MAX && s.column < u32::MAX ==> (s.uri matches Some(uri)
                ==> spans[0].text == shortened(uri) + ":"@ + decimal((s.line + 1) as nat) + ":"@
                + decimal((s.column + 1) as nat))
            &&& spans[0].style == (Style { bold: true, ..plain() })
            &&& spans[1].text == "  "@ && spans[1].style == plain()
            &&& !s.server_alive ==> spans[2].text == "server stopped"@ && spans[2].style == colored(
                Color::Red,
            )
            &&& s.server_alive && s.processing ==> spans[2].text == "⟳ elaborating…"@
                && spans[2].style == colored(Color::Yellow)
            &&& s.server_alive && !s.processing ==> spans[2].text == "✓"@ && spans[2].style
                == colored(Color::Green)
        }),
{
}

/// Numbers are counted from 1, and round at the end of their range.
pub proof fn numbers_count_from_one(n: u32)
    ensures
        counted(n) == decimal(((n + 1) % 0x1_0000_0000) as nat),
{
}

/// Titles stand out: cyan, bold and underlined.
pub proof fn titles_stand_out(title: Seq<char>)
    ensures
        section_line(title).len() == 1,
        section_line(title)[0].text == title,
        section_line(title)[0].style == (Style {
            fg: Some(Color::Cyan),
            bold: true,
            underlined: true,
            ..plain()
        }),
{
}

/// Of the path of a file, the last directory and the name are shown; a path of
/// less than that is shown in full. A `file://` before it does not count.
pub proof fn paths_are_shortened(dirs: Seq<char>, dir: Seq<char>, name: Seq<char>)
    requires
        !dir.contains('/'),
        !name.contains('/'),
        !"file://"@.is_prefix_of(dirs + seq!['/'] + dir + seq!['/'] + name),
        !"file://"@.is_prefix_of(dir + seq!['/'] + name),
        !"file://"@.is_prefix_of(name),
    ensures
        shortened(dirs + seq!['/'] + dir + seq!['/'] + name) == dir + seq!['/'] + name,
        shortened(dir + seq!['/'] + name) == dir + seq!['/'] + name,
        shortened(name) == name,
        shortened("file://"@ + (dirs + seq!['/'] + dir + seq!['/'] + name)) == dir + seq!['/']
            + name,
        shortened("file://"@ + (dir + seq!['/'] + name)) == dir + seq!['/'] + name,
        shortened("file://"@ + name) == name,
{
    let path = dirs + seq!['/'] + dir + seq!['/'] + name;
    let short = dir + seq!['/'] + name;
    let scheme = "file://"@;
    reveal_strlit("/");
    assert("/"@ =~= seq!['/']);
    split_then_join(dirs, '/');
    one_piece_without_separator(dir, '/');
    one_piece_without_separator(name, '/');
    each_separator_begins_a_piece(dirs, dir, '/');
    each_separator_begins_a_piece(dirs + seq!['/'] + dir, name, '/');
    each_separator_begins_a_piece(dir, name, '/');
    let parts = split(path, '/');
    let last = parts.skip(parts.len() - 2);
    assert(last =~= seq![dir, name]);
    assert(join(seq![dir, name], seq!['/']) =~= short) by {
        reveal_with_fuel(join, 2);
        assert(seq![dir, name].drop_last() =~= seq![dir]);
    }
    assert(split(short, '/') =~= seq![dir, name]);
    lemma_without_scheme(path);
    lemma_without_scheme(short);
    lemma_without_scheme(name);
}

proof fn lemma_without_scheme(path: Seq<char>)
    ensures
        without_scheme("file://"@ + path) == path,
        !"file://"@.is_prefix_of(path) ==> without_scheme(path) == path,
{
    let scheme = "file://"@;
    assert((scheme + path).subrange(0, scheme.len() as int) =~= scheme);
    assert((scheme + path).skip(scheme.len() as int) =~= path);
}

/// Whether that is the first of the trace nodes that has the focus.
pub open spec fn focus_at(folds: Seq<Fold>, focus: Option<u32>, i: int) -> bool {
    &&& 0 <= i < folds.len()
    &&& focus == Some(folds[i].id)
    &&& forall|k: int| 0 <= k < i ==> (#[trigger] folds[k]).id != folds[i].id
}

proof fn lemma_at(folds: Seq<Fold>, i: int)
    requires
        focus_at(folds, Some(folds[i].id), i),
    ensures
        fold_pos(folds, folds[i].id) == i,
{
    let id = folds[i].id;
    lemma_fold_pos(folds, id);
    let k = fold_pos(folds, id) as int;
    if k < i {
        assert(folds[k].id != id);
    }
    if i < k {
        assert(folds[i].id != id);
    }
}

/// The focus moves to the node after or before the one that has it, and from the
/// last to the first and the other way round. Where no node that is shown has
/// it, it moves to the first; where none is shown, there is none.
pub proof fn the_focus_goes_round(folds: Seq<Fold>, focus: Option<u32>, i: int)
    ensures
        folds.len() == 0 ==> focus_moved(folds, focus, true) is None && focus_moved(
            folds,
            focus,
            false,
        ) is None,
        folds.len() > 0 && (forall|k: int|
            0 <= k < folds.len() ==> focus != Some((#[trigger] folds[k]).id)) ==> focus_moved(
            folds,
            focus,
            true,
        ) == Some(folds[0].id) && focus_moved(folds, focus, false) == Some(folds[0].id),
        focus_at(folds, focus, i) && i + 1 < folds.len() ==> focus_moved(folds, focus, true)
            == Some(folds[i + 1].id),
        focus_at(folds, focus, i) && i + 1 == folds.len() ==> focus_moved(folds, focus, true)
            == Some(folds[0].id),
        focus_at(folds, focus, i) && i > 0 ==> focus_moved(folds, focus, false) == Some(
            folds[i - 1].id,
        ),
        focus_at(folds, focus, i) && i == 0 ==> focus_moved(folds, focus, false) == Some(
            folds.last().id,
        ),
{
    if focus_at(folds, focus, i) {
        lemma_at(folds, i);
        lemma_around(i, folds.len() as int);
    }
    if let Some(id) = focus {
        lemma_fold_pos(folds, id);
    }
}

/// Enter and space flip the fold of the node that has the focus, and nothing
/// else. Where it was folded and its children are not there, they are asked for;
/// else nothing is.
pub proof fn folds_are_flipped(a: AppV, i: int, other: u32)
    ensures
        focus_at(a.folds, a.look.focus, i) ==> ({
            let id = a.folds[i].id;
            let b = toggled(a);
            &&& b.look.overrides.contains_key(id)
            &&& b.look.overrides[id] == !a.folds[i].collapsed
            &&& other != id ==> (b.look.overrides.contains_key(other)
                <==> a.look.overrides.contains_key(other)) && b.look.overrides[other]
                == a.look.overrides[other]
            &&& b.look.focus == a.look.focus
            &&& b == (AppV { look: b.look, ..a })
            &&& a.folds[i].collapsed && a.folds[i].needs_fetch ==> fetched(a) == Some(id)
            &&& !a.folds[i].collapsed || !a.folds[i].needs_fetch ==> fetched(a) is None
            &&& focused_fold(a) == Some(a.folds[i])
        }),
        (forall|k: int| 0 <= k < a.folds.len() ==> a.look.focus != Some((#[trigger] a.folds[k]).id))
            ==> toggled(a) == a && fetched(a) is None && focused_fold(a) is None,
{
    if focus_at(a.folds, a.look.focus, i) {
        lemma_at(a.folds, i);
    }
    if let Some(id) = a.look.focus {
        lemma_fold_pos(a.folds, id);
    }
}

/// q, Escape and Ctrl-C quit, and no other key does; they change nothing.
pub proof fn keys_that_quit(a: AppV, key: Key, ctrl: bool)
    ensures
        key_reply(a, key, ctrl) == Reply::Quit <==> key == Key::Char('q') || key == Key::Esc || (key
            == Key::Char('c') && ctrl),
        key_reply(a, key, ctrl) == Reply::Quit ==> key_handled(a, key, ctrl) == a,
        is_quit(key, ctrl) <==> key == Key::Char('q') || key == Key::Esc || (key == Key::Char('c')
            && ctrl),
{
}

/// The arrows, j and k move by one line, the page keys by ten, Home to the top;
/// the view stays within its range and nothing else changes.
pub proof fn keys_that_scroll(a: AppV, ctrl: bool)
    ensures
        ({
            let up = key_handled(a, Key::Up, ctrl);
            let down = key_handled(a, Key::Down, ctrl);
            let page_up = key_handled(a, Key::PageUp, ctrl);
            let page_down = key_handled(a, Key::PageDown, ctrl);
            &&& a.scroll >= 1 ==> up.scroll == a.scroll - 1
            &&& a.scroll < 1 ==> up.scroll == 0
            &&& a.scroll + 1 <= u16::MAX ==> down.scroll == a.scroll + 1
            &&& a.scroll + 1 > u16::MAX ==> down.scroll == u16::MAX
            &&& a.scroll >= 10 ==> page_up.scroll == a.scroll - 10
            &&& a.scroll < 10 ==> page_up.scroll == 0
            &&& a.scroll + 10 <= u16::MAX ==> page_down.scroll == a.scroll + 10
            &&& a.scroll + 10 > u16::MAX ==> page_down.scroll == u16::MAX
            &&& up == (AppV { scroll: up.scroll, ..a })
            &&& down == (AppV { scroll: down.scroll, ..a })
            &&& page_up == (AppV { scroll: page_up.scroll, ..a })
            &&& page_down == (AppV { scroll: page_down.scroll, ..a })
            &&& key_handled(a, Key::Char('k'), ctrl) == up
            &&& key_handled(a, Key::Char('j'), ctrl) == down
            &&& key_handled(a, Key::Home, ctrl) == (AppV { scroll: 0, ..a })
        }),
{
}

/// Tab and Shift-Tab move the focus and change nothing else.
pub proof fn keys_that_move_the_focus(a: AppV, ctrl: bool)
    ensures
        ({
            let tab = key_handled(a, Key::Tab, ctrl);
            let back = key_handled(a, Key::BackTab, ctrl);
            &&& tab.look.focus == focus_moved(a.folds, a.look.focus, true)
            &&& back.look.focus == focus_moved(a.folds, a.look.focus, false)
            &&& tab == (AppV { look: Look { focus: tab.look.focus, ..a.look }, ..a })
            &&& back == (AppV { look: Look { focus: back.look.focus, ..a.look }, ..a })
        }),
{
}

/// Enter and space fold and unfold, and ask for the children where they have to
/// be fetched; no other key asks for anything but to quit.
pub proof fn keys_that_fold(a: AppV, key: Key, ctrl: bool, id: u32)
    ensures
        key_handled(a, Key::Enter, ctrl) == toggled(a),
        key_handled(a, Key::Char(' '), ctrl) == toggled(a),
        key_reply(a, key, ctrl) == Reply::Fetch(id) <==> (key == Key::Enter || key == Key::Char(
            ' ',
        )) && fetched(a) == Some(id),
{
}

/// Every other key does nothing.
pub proof fn keys_that_do_nothing(a: AppV, key: Key, ctrl: bool)
    requires
        key !is Esc,
        key !is Up,
        key !is Down,
        key !is PageUp,
        key !is PageDown,
        key !is Home,
        key !is Tab,
        key !is BackTab,
        key !is Enter,
        key matches Key::Char(c) ==> c != 'q' && c != 'j' && c != 'k' && c != ' ' && (c != 'c'
            || !ctrl),
    ensures
        key_handled(a, key, ctrl) == a,
        key_reply(a, key, ctrl) == Reply::Nothing,
{
}

/// The command for a trace node is an object with the node's id as `expand`, and
/// nothing else.
pub proof fn commands_name_the_node(node_id: u32)
    ensures
        expand_command(node_id) is Object,
        expand_command(node_id)->Object_0.dom() == set!["expand"@],
        field(expand_command(node_id), "expand"@) == JsonV::Unsigned(node_id as u64),
{
    assert(expand_command(node_id)->Object_0.dom() =~= set!["expand"@]);
}

/// Sockets are the files with something before the extension `sock`.
pub proof fn sockets_have_their_extension(stem: Seq<char>, name: Seq<char>)
    ensures
        stem.len() > 0 ==> is_socket_name(stem + ".sock"@),
        is_socket_name(name) ==> name == name.take(name.len() - 5) + ".sock"@ && name.len() > 5,
{
    reveal_strlit(".sock");
    let whole = stem + ".sock"@;
    assert(whole.skip(whole.len() - 5) =~= ".sock"@);
    if is_socket_name(name) {
        assert(name =~= name.take(name.len() - 5) + name.skip(name.len() - 5));
    }
}

/// The socket of a workspace root is named by the sixteen hexadecimal digits of
/// the hash of the root, and lies in the directory of the sockets.
pub proof fn sockets_are_named_after_the_root(root: Seq<char>)
    ensures
        ({
            let digits = socket_name(root).take(16);
            &&& socket_name(root) == digits + ".sock"@
            &&& hex_value(digits) == fnv1a_hash(encode_utf8(root))
            &&& forall|i: int|
                0 <= i < 16 ==> '0' <= #[trigger] digits[i] <= '9' || 'a' <= digits[i] <= 'f'
            &&& socket_path(root) == "zed-lean4-companion/"@ + socket_name(root)
        }),
{
    let n = fnv1a_hash(encode_utf8(root));
    let digits = hex(n as nat, 16);
    hex_reads_back(n as nat, 16);
    assert(pow(16, 16) == 0x1_0000_0000_0000_0000) by {
        reveal_with_fuel(pow, 17);
    }
    assert(socket_name(root).take(16) =~= digits);
    reveal_strlit("zed-lean4-companion/");
    reveal_strlit("zed-lean4-companion");
    reveal_strlit("/");
    assert("zed-lean4-companion/"@ =~= "zed-lean4-companion"@ + "/"@);
}

/// While there is no proxy, the watcher says how to start one and how to quit.
pub proof fn waiting_says_what_to_do()
    ensures
        waiting().len() == 4,
        waiting()[0] == seq![
            SpanV { text: "Lean 4 Infoview"@, style: (Style { bold: true, ..plain() }) },
        ],
        waiting()[1].len() == 0,
        waiting()[2] == seq![
            SpanV { text: "Waiting for the language server proxy…"@, style: plain() },
        ],
        waiting()[3] == seq![
            SpanV {
                text: "Open a .lean file in Zed to start it. Press q to quit."@,
                style: colored(Color::DarkGray),
            },
        ],
{
}

/// The most recently modified of the sockets is one of which it is known when it
/// was modified; none was modified later, and of those modified at the same time
/// it is the first. There is no other such file.
pub proof fn there_is_one_newest_socket(files: Seq<SocketFile>, i: int, k: int)
    requires
        is_newest(files, i),
        0 <= k < files.len(),
        is_socket_name(files[k].name@),
        files[k].modified is Some,
    ensures
        0 <= i < files.len(),
        is_socket_name(files[i].name@),
        files[i].modified is Some,
        files[k].modified->0 <= files[i].modified->0,
        files[k].modified == files[i].modified ==> i <= k,
        is_newest(files, k) ==> k == i,
{
    assert(is_candidate(files[k]));
    assert(is_candidate(files[i]));
}

/// A socket of which it is known when it was modified is the most recently
/// modified one where every other such socket was modified before it, or at the
/// same time and stands after it. Where there are such sockets, one of them is.
pub proof fn the_newest_socket_is_found(files: Seq<SocketFile>, i: int)
    requires
        0 <= i < files.len(),
        is_socket_name(files[i].name@),
        files[i].modified is Some,
    ensures
        (forall|k: int|
            0 <= k < files.len() && is_socket_name((#[trigger] files[k]).name@)
                && files[k].modified is Some && k != i ==> files[k].modified->0
                < files[i].modified->0 || (files[k].modified == files[i].modified && i < k))
            ==> is_newest(files, i),
        exists|n: int| is_newest(files, n),
    decreases files.len(),
{
    let last = files.len() - 1;
    let rest = files.drop_last();
    assert(forall|k: int| 0 <= k < last ==> #[trigger] rest[k] == files[k]);
    if exists|k: int| 0 <= k < last && is_candidate(#[trigger] files[k]) {
        let k = choose|k: int| 0 <= k < last && is_candidate(#[trigger] files[k]);
        assert(rest[k] == files[k]);
        the_newest_socket_is_found(rest, k);
        let n = choose|n: int| is_newest(rest, n);
        assert(rest[n] == files[n]);
        assert forall|k: int| 0 <= k < last && is_candidate(#[trigger] files[k]) implies
            files[k].modified->0 <= files[n].modified->0 && (k < n ==> files[k].modified->0
            < files[n].modified->0) by {
            assert(rest[k] == files[k]);
        }
        if is_candidate(files[last]) && files[last].modified->0 > files[n].modified->0 {
            assert(is_newest(files, last));
        } else {
            assert(is_newest(files, n));
        }
    } else {
        assert(is_candidate(files[i]));
        assert(is_newest(files, last));
    }
}

} // verus!
