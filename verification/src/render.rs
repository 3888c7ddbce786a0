//! The infoview as lines of styled text.

use crate::state::{
    blocks_view, hyps_view, segs_view, spans_view, Diag, DiagV, Goal, GoalV, Hyp, HypV, MsgSeg,
    SegV, TextSpan, TextSpanV, TraceNode, TraceV,
};
use crate::text::{
    decimal, decimal_text, join, join_text, opt_view, split, split_text, split_then_join, str_eq,
    strs_view,
};
use std::collections::HashMap;
use vstd::prelude::*;

verus! {

broadcast use vstd::std_specs::hash::group_hash_axioms;

/// The colours that are used.
#[derive(Debug, Clone, Copy, PartialEq, Eq, Structural)]
pub enum Color {
    Red,
    Green,
    Yellow,
    Blue,
    Magenta,
    Cyan,
    DarkGray,
}

/// How a piece of text looks.
#[derive(Debug, Clone, Copy, PartialEq, Eq, Structural)]
pub struct Style {
    pub fg: Option<Color>,
    pub bold: bool,
    pub underlined: bool,
    pub crossed_out: bool,
    pub dim: bool,
    pub reversed: bool,
}

/// The look of text that has none of its own.
pub open spec fn plain() -> Style {
    Style {
        fg: None,
        bold: false,
        underlined: false,
        crossed_out: false,
        dim: false,
        reversed: false,
    }
}

pub open spec fn colored(color: Color) -> Style {
    Style { fg: Some(color), ..plain() }
}

impl Default for Style {
    fn default() -> (r: Self)
        ensures
            r == plain(),
    {
        Style {
            fg: None,
            bold: false,
            underlined: false,
            crossed_out: false,
            dim: false,
            reversed: false,
        }
    }
}

impl Style {
    /// The same look in that colour.
    pub fn fg(self, color: Color) -> (r: Style)
        ensures
            r == (Style { fg: Some(color), ..self }),
    {
        let mut r = self;
        r.fg = Some(color);
        r
    }

    pub fn bold(self) -> (r: Style)
        ensures
            r == (Style { bold: true, ..self }),
    {
        let mut r = self;
        r.bold = true;
        r
    }

    pub fn underlined(self) -> (r: Style)
        ensures
            r == (Style { underlined: true, ..self }),
    {
        let mut r = self;
        r.underlined = true;
        r
    }

    pub fn crossed_out(self) -> (r: Style)
        ensures
            r == (Style { crossed_out: true, ..self }),
    {
        let mut r = self;
        r.crossed_out = true;
        r
    }

    pub fn dim(self) -> (r: Style)
        ensures
            r == (Style { dim: true, ..self }),
    {
        let mut r = self;
        r.dim = true;
        r
    }

    pub fn reversed(self) -> (r: Style)
        ensures
            r == (Style { reversed: true, ..self }),
    {
        let mut r = self;
        r.reversed = true;
        r
    }
}

/// A piece of text in one style.
#[derive(Debug, PartialEq)]
pub struct Span {
    pub text: String,
    pub style: Style,
}

/// What a `Span` says.
pub struct SpanV {
    pub text: Seq<char>,
    pub style: Style,
}

impl View for Span {
    type V = SpanV;

    open spec fn view(&self) -> SpanV {
        SpanV { text: self.text@, style: self.style }
    }
}

/// A line of styled text.
#[derive(Debug, PartialEq)]
pub struct Line {
    pub spans: Vec<Span>,
}

pub open spec fn parts_view(spans: Seq<Span>) -> Seq<SpanV> {
    spans.map_values(|s: Span| s@)
}

impl View for Line {
    type V = Seq<SpanV>;

    open spec fn view(&self) -> Seq<SpanV> {
        parts_view(self.spans@)
    }
}

pub open spec fn lines_view(lines: Seq<Line>) -> Seq<Seq<SpanV>> {
    lines.map_values(|l: Line| l@)
}

pub open spec fn span(text: Seq<char>, style: Style) -> SpanV {
    SpanV { text, style }
}

pub fn styled(text: &str, style: Style) -> (r: Span)
    ensures
        r@ == span(text@, style),
{
    Span { text: text.to_owned(), style }
}

/// A line of one span.
pub fn line_of(text: &str, style: Style) -> (r: Line)
    ensures
        r@ == seq![span(text@, style)],
{
    let mut spans: Vec<Span> = Vec::new();
    spans.push(styled(text, style));
    let r = Line { spans };
    proof {
        assert(r@ =~= seq![span(text@, style)]);
    }
    r
}

pub fn blank_line() -> (r: Line)
    ensures
        r@ == Seq::<SpanV>::empty(),
{
    let r = Line { spans: Vec::new() };
    proof {
        assert(r@ =~= Seq::empty());
    }
    r
}

pub fn add_line(lines: &mut Vec<Line>, line: Line)
    ensures
        lines_view(final(lines)@) == lines_view(old(lines)@).push(line@),
{
    lines.push(line);
    proof {
        assert(lines_view(lines@) =~= lines_view(old(lines)@).push(line@));
    }
}

fn add_part(parts: &mut Vec<Span>, part: Span)
    ensures
        parts_view(final(parts)@) == parts_view(old(parts)@).push(part@),
{
    parts.push(part);
    proof {
        assert(parts_view(parts@) =~= parts_view(old(parts)@).push(part@));
    }
}

/// The character so many times.
pub open spec fn repeated(c: char, n: nat) -> Seq<char> {
    Seq::new(n, |i: int| c)
}

pub fn repeat(c: char, n: usize) -> (r: String)
    ensures
        r@ == repeated(c, n as nat),
{
    let mut s = String::new();
    let mut i: usize = 0;
    while i < n
        invariant
            i <= n,
            s@ == repeated(c, i as nat),
        decreases n - i,
    {
        s.push(c);
        i = i + 1;
        proof {
            assert(s@ =~= repeated(c, i as nat));
        }
    }
    s
}

/// Styles goal-diff tags like the VSCode infoview does.
pub open spec fn diff_styled(diff: Option<Seq<char>>, base: Style) -> Style {
    match diff {
        Some(d) => if d == "wasChanged"@ || d == "willChange"@ {
            Style { fg: Some(Color::Yellow), ..base }
        } else if d == "wasInserted"@ || d == "willInsert"@ || d == "willInserted"@ {
            Style { fg: Some(Color::Green), ..base }
        } else if d == "wasDeleted"@ || d == "willDelete"@ || d == "willDeleted"@ {
            Style { fg: Some(Color::Red), crossed_out: true, ..base }
        } else {
            base
        },
        None => base,
    }
}

/// Styles goal-diff tags like the VSCode infoview does.
pub fn diff_style(diff: &Option<String>, base: Style) -> (r: Style)
    ensures
        r == diff_styled(opt_view(*diff), base),
{
    match diff {
        Some(tag) => {
            let d = tag.as_str();
            if str_eq(d, "wasChanged") || str_eq(d, "willChange") {
                base.fg(Color::Yellow)
            } else if str_eq(d, "wasInserted") || str_eq(d, "willInsert") || str_eq(
                d,
                "willInserted",
            ) {
                base.fg(Color::Green)
            } else if str_eq(d, "wasDeleted") || str_eq(d, "willDelete") || str_eq(
                d,
                "willDeleted",
            ) {
                base.fg(Color::Red).crossed_out()
            } else {
                base
            }
        },
        None => base,
    }
}

/// The spans of code as parts of a rich text.
pub open spec fn rich_parts_of(spans: Seq<TextSpanV>, base: Style) -> Seq<SpanV> {
    spans.map_values(|s: TextSpanV| span(s.text, diff_styled(s.diff, base)))
}

/// Appends the spans of code as parts of a rich text.
pub fn rich_parts(spans: &Vec<TextSpan>, base: Style, parts: &mut Vec<Span>)
    ensures
        parts_view(final(parts)@) == parts_view(old(parts)@) + rich_parts_of(
            spans_view(spans@),
            base,
        ),
{
    let ghost before = parts_view(parts@);
    let ghost all = rich_parts_of(spans_view(spans@), base);
    let mut i: usize = 0;
    proof {
        assert(before + all.take(0) =~= before);
    }
    while i < spans.len()
        invariant
            i <= spans@.len(),
            all == rich_parts_of(spans_view(spans@), base),
            parts_view(parts@) == before + all.take(i as int),
        decreases spans@.len() - i,
    {
        let s = &spans[i];
        add_part(parts, styled(s.text.as_str(), diff_style(&s.diff, base)));
        proof {
            assert(before + all.take(i + 1) =~= (before + all.take(i as int)).push(all[i as int]));
        }
        i = i + 1;
    }
    proof {
        assert(all.take(i as int) =~= all);
    }
}

/// The line with a piece of text after it, unless that is empty.
pub open spec fn with_piece(line: Seq<SpanV>, piece: Seq<char>, style: Style) -> Seq<SpanV> {
    if piece.len() == 0 {
        line
    } else {
        line.push(span(piece, style))
    }
}

/// The lines with the pieces of a text after them: the first goes on the last
/// line, each further one on a line of its own.
pub open spec fn with_pieces(
    lines: Seq<Seq<SpanV>>,
    pad: SpanV,
    pieces: Seq<Seq<char>>,
    style: Style,
) -> Seq<Seq<SpanV>>
    decreases pieces.len(),
{
    if pieces.len() == 0 {
        lines
    } else if pieces.len() == 1 {
        lines.drop_last().push(with_piece(lines.last(), pieces[0], style))
    } else {
        with_pieces(lines, pad, pieces.drop_last(), style).push(
            with_piece(seq![pad], pieces.last(), style),
        )
    }
}

/// Styled parts as one or more lines, split on '\n', with the indent before
/// every line.
pub open spec fn rich_lines(indent: usize, parts: Seq<SpanV>) -> Seq<Seq<SpanV>>
    decreases parts.len(),
{
    let pad = span(repeated(' ', indent as nat), plain());
    if parts.len() == 0 {
        seq![seq![pad]]
    } else {
        with_pieces(
            rich_lines(indent, parts.drop_last()),
            pad,
            split(parts.last().text, '\n'),
            parts.last().style,
        )
    }
}

fn fresh_line(indent: usize) -> (r: Vec<Span>)
    ensures
        parts_view(r@) == seq![span(repeated(' ', indent as nat), plain())],
{
    let mut cur: Vec<Span> = Vec::new();
    cur.push(Span { text: repeat(' ', indent), style: Default::default() });
    proof {
        assert(parts_view(cur@) =~= seq![span(repeated(' ', indent as nat), plain())]);
    }
    cur
}

/// Appends styled parts as one or more lines, splitting on '\n' and applying
/// the indent to every produced line.
pub fn push_rich(lines: &mut Vec<Line>, indent: usize, parts: &Vec<Span>)
    ensures
        lines_view(final(lines)@) == lines_view(old(lines)@) + rich_lines(
            indent,
            parts_view(parts@),
        ),
{
    let ghost before = lines_view(lines@);
    let ghost pad = span(repeated(' ', indent as nat), plain());
    let ghost all = parts_view(parts@);
    let mut cur = fresh_line(indent);
    let mut i: usize = 0;
    proof {
        assert(all.take(0) =~= Seq::empty());
        assert(before.push(parts_view(cur@)) =~= before + rich_lines(indent, all.take(0)));
    }
    while i < parts.len()
        invariant
            i <= parts@.len(),
            pad == span(repeated(' ', indent as nat), plain()),
            all == parts_view(parts@),
            rich_lines(indent, all.take(i as int)).len() > 0,
            lines_view(lines@).push(parts_view(cur@)) == before + rich_lines(
                indent,
                all.take(i as int),
            ),
        decreases parts@.len() - i,
    {
        let style = parts[i].style;
        let pieces = split_text(parts[i].text.as_str(), '\n');
        let ghost ps = strs_view(pieces@);
        let ghost start = rich_lines(indent, all.take(i as int));
        proof {
            split_then_join(parts@[i as int].text@, '\n');
            assert(all.take(i + 1).drop_last() =~= all.take(i as int));
            assert(all.take(i + 1).last() == parts@[i as int]@);
            assert(ps.take(0) =~= Seq::empty());
        }
        let mut j: usize = 0;
        while j < pieces.len()
            invariant
                j <= pieces@.len(),
                pieces@.len() > 0,
                pad == span(repeated(' ', indent as nat), plain()),
                ps == strs_view(pieces@),
                start.len() > 0,
                with_pieces(start, pad, ps.take(j as int), style).len() > 0,
                lines_view(lines@).push(parts_view(cur@)) == before + with_pieces(
                    start,
                    pad,
                    ps.take(j as int),
                    style,
                ),
            decreases pieces@.len() - j,
        {
            let ghost w = with_pieces(start, pad, ps.take(j as int), style);
            let ghost seen = lines_view(lines@).push(parts_view(cur@));
            proof {
                assert(ps.take(j + 1).drop_last() =~= ps.take(j as int));
                assert(ps.take(j + 1).last() == pieces@[j as int]@);
                assert(seen.drop_last() =~= lines_view(lines@));
                assert(seen.last() == w.last());
                assert(seen.drop_last() =~= before + w.drop_last());
            }
            if j > 0 {
                let mut done = fresh_line(indent);
                std::mem::swap(&mut done, &mut cur);
                add_line(lines, Line { spans: done });
            }
            let ghost line = parts_view(cur@);
            if pieces[j].as_str().unicode_len() > 0 {
                add_part(&mut cur, Span { text: pieces[j].clone(), style });
            }
            proof {
                assert(parts_view(cur@) == with_piece(line, ps[j as int], style));
                assert(lines_view(lines@).push(parts_view(cur@)) =~= before + with_pieces(
                    start,
                    pad,
                    ps.take(j + 1),
                    style,
                ));
            }
            j = j + 1;
        }
        proof {
            assert(ps.take(j as int) =~= ps);
        }
        i = i + 1;
    }
    proof {
        assert(all.take(i as int) =~= all);
    }
    add_line(lines, Line { spans: cur });
}

/// The look of what was removed or inserted.
pub open spec fn changed_style(is_removed: bool, is_inserted: bool, otherwise: Style) -> Style {
    if is_removed {
        Style { crossed_out: true, ..colored(Color::Red) }
    } else if is_inserted {
        colored(Color::Green)
    } else {
        otherwise
    }
}

fn change_style(is_removed: bool, is_inserted: bool, otherwise: Style) -> (r: Style)
    ensures
        r == changed_style(is_removed, is_inserted, otherwise),
{
    let plain: Style = Default::default();
    if is_removed {
        plain.fg(Color::Red).crossed_out()
    } else if is_inserted {
        plain.fg(Color::Green)
    } else {
        otherwise
    }
}

/// The look of a hypothesis in a goal of that look.
pub open spec fn hyp_style(h: HypV, base: Style) -> Style {
    let s = changed_style(h.is_removed, h.is_inserted, base);
    if h.is_instance {
        Style { dim: true, ..s }
    } else {
        s
    }
}

/// A hypothesis: its names, its type, and its value if it has one.
pub open spec fn hyp_parts(h: HypV, base: Style) -> Seq<SpanV> {
    let s = hyp_style(h, base);
    let gray = Style { fg: Some(Color::DarkGray), ..s };
    let typed = seq![span(join(h.names, " "@), s), span(" : "@, gray)] + rich_parts_of(h.ty, s);
    match h.val {
        Some(val) => typed.push(span(" := "@, gray)) + rich_parts_of(val, s),
        None => typed,
    }
}

pub open spec fn hyps_lines(indent: usize, hyps: Seq<HypV>, base: Style) -> Seq<Seq<SpanV>>
    decreases hyps.len(),
{
    if hyps.len() == 0 {
        Seq::empty()
    } else {
        hyps_lines(indent, hyps.drop_last(), base) + rich_lines(
            indent,
            hyp_parts(hyps.last(), base),
        )
    }
}

/// A goal: its name if it has one, its hypotheses, and its target.
pub open spec fn goal_lines(indent: usize, g: GoalV) -> Seq<Seq<SpanV>> {
    let base = changed_style(g.is_removed, g.is_inserted, plain());
    let name = match g.name {
        Some(name) => rich_lines(indent, seq![span("case "@ + name, colored(Color::Magenta))]),
        None => Seq::empty(),
    };
    let target = seq![span(g.prefix, (Style { bold: true, ..base }))] + rich_parts_of(
        g.target,
        base,
    );
    name + hyps_lines(indent, g.hyps, base) + rich_lines(indent, target)
}

fn push_hyp(lines: &mut Vec<Line>, indent: usize, h: &Hyp, base: Style)
    ensures
        lines_view(final(lines)@) == lines_view(old(lines)@) + rich_lines(
            indent,
            hyp_parts(h@, base),
        ),
{
    let mut s = change_style(h.is_removed, h.is_inserted, base);
    if h.is_instance {
        s = s.dim();
    }
    let gray = s.fg(Color::DarkGray);
    let mut parts: Vec<Span> = Vec::new();
    parts.push(Span { text: join_text(&h.names, " "), style: s });
    parts.push(styled(" : ", gray));
    proof {
        assert(parts_view(parts@) =~= seq![
            span(join(h@.names, " "@), s),
            span(" : "@, gray),
        ]);
    }
    rich_parts(&h.ty, s, &mut parts);
    if let Some(val) = &h.val {
        add_part(&mut parts, styled(" := ", gray));
        rich_parts(val, s, &mut parts);
    }
    assert(parts_view(parts@) == hyp_parts(h@, base));
    push_rich(lines, indent, &parts);
}

pub fn push_goal(lines: &mut Vec<Line>, indent: usize, g: &Goal)
    ensures
        lines_view(final(lines)@) == lines_view(old(lines)@) + goal_lines(indent, g@),
{
    let ghost before = lines_view(lines@);
    let base = change_style(g.is_removed, g.is_inserted, Default::default());
    if let Some(name) = &g.name {
        let mut text = "case ".to_owned();
        text.append(name.as_str());
        let style: Style = Default::default();
        let mut parts: Vec<Span> = Vec::new();
        parts.push(Span { text, style: style.fg(Color::Magenta) });
        proof {
            assert(parts_view(parts@) =~= seq![span(text@, colored(Color::Magenta))]);
        }
        push_rich(lines, indent, &parts);
    }
    let ghost named = lines_view(lines@);
    let ghost all = hyps_view(g.hyps@);
    let mut i: usize = 0;
    proof {
        assert(all.take(0) =~= Seq::empty());
        assert(named + hyps_lines(indent, all.take(0), base) =~= named);
    }
    while i < g.hyps.len()
        invariant
            i <= g.hyps@.len(),
            all == hyps_view(g.hyps@),
            lines_view(lines@) == named + hyps_lines(indent, all.take(i as int), base),
        decreases g.hyps@.len() - i,
    {
        push_hyp(lines, indent, &g.hyps[i], base);
        proof {
            assert(all.take(i + 1).drop_last() =~= all.take(i as int));
            assert(all.take(i + 1).last() == g.hyps@[i as int]@);
            assert(lines_view(lines@) =~= named + hyps_lines(indent, all.take(i + 1), base));
        }
        i = i + 1;
    }
    let mut parts: Vec<Span> = Vec::new();
    parts.push(Span { text: g.prefix.clone(), style: base.bold() });
    proof {
        assert(all.take(i as int) =~= all);
        assert(parts_view(parts@) =~= seq![span(g.prefix@, (Style { bold: true, ..base }))]);
    }
    rich_parts(&g.target, base, &mut parts);
    push_rich(lines, indent, &parts);
    proof {
        assert(lines_view(lines@) =~= before + goal_lines(indent, g@));
    }
}

/// How a severity is called, and its colour.
pub open spec fn severity_label(severity: u8) -> (Seq<char>, Color) {
    if severity == 1 {
        ("error"@, Color::Red)
    } else if severity == 2 {
        ("warning"@, Color::Yellow)
    } else if severity == 4 {
        ("hint"@, Color::DarkGray)
    } else {
        ("info"@, Color::Blue)
    }
}

/// A number counted from 1.
pub open spec fn counted(n: u32) -> Seq<char> {
    decimal(n.wrapping_add(1) as nat)
}

/// Where a diagnostic is, and how severe.
pub open spec fn diag_header(d: DiagV) -> Seq<SpanV> {
    let label = severity_label(d.severity);
    seq![
        span(
            "▸ "@ + counted(d.line) + ":"@ + counted(d.column) + " "@,
            colored(Color::DarkGray),
        ),
        span(label.0, (Style { bold: true, ..colored(label.1) })),
    ]
}

/// Appends a number counted from 1.
pub fn append_counted(out: &mut String, n: u32)
    ensures
        final(out)@ == old(out)@ + counted(n),
{
    let text = decimal_text(n.wrapping_add(1) as u64);
    out.append(text.as_str());
}

pub fn push_diag_header(lines: &mut Vec<Line>, d: &Diag)
    ensures
        lines_view(final(lines)@) == lines_view(old(lines)@).push(diag_header(d@)),
{
    let (label, color) = match d.severity {
        1 => ("error", Color::Red),
        2 => ("warning", Color::Yellow),
        4 => ("hint", Color::DarkGray),
        _ => ("info", Color::Blue),
    };
    let mut at = "▸ ".to_owned();
    append_counted(&mut at, d.line);
    at.append(":");
    append_counted(&mut at, d.column);
    at.append(" ");
    let style: Style = Default::default();
    let mut spans: Vec<Span> = Vec::new();
    spans.push(Span { text: at, style: style.fg(Color::DarkGray) });
    spans.push(styled(label, style.fg(color).bold()));
    let line = Line { spans };
    proof {
        assert(line@ =~= diag_header(d@));
    }
    add_line(lines, line);
}

/// A trace node that can be folded.
#[derive(Debug, Clone, Copy, PartialEq, Eq, Structural)]
pub struct Fold {
    pub id: u32,
    /// Effectively collapsed in the last render.
    pub collapsed: bool,
    /// Children not fetched yet: expanding must ask the proxy for them.
    pub needs_fetch: bool,
}

/// What the user chose to see.
pub struct Look {
    /// Fold state the user changed, by trace node id.
    pub overrides: Map<u32, bool>,
    /// Focused trace node id.
    pub focus: Option<u32>,
}

/// What is shown: lines, the trace nodes among them, and the text that waits
/// for what comes after it.
pub struct Shown {
    pub lines: Seq<Seq<SpanV>>,
    pub folds: Seq<Fold>,
    pub parts: Seq<SpanV>,
}

/// Whether a trace node is collapsed: as the user chose, else as the server
/// suggests.
pub open spec fn is_collapsed(node: TraceV, look: Look) -> bool {
    if look.overrides.contains_key(node.id) {
        look.overrides[node.id]
    } else {
        node.collapsed
    }
}

pub open spec fn fold_of(node: TraceV, look: Look) -> Fold {
    Fold { id: node.id, collapsed: is_collapsed(node, look), needs_fetch: node.truncated }
}

/// A segment in the header of a trace node; only text is shown there.
pub open spec fn header_part(seg: SegV) -> SpanV {
    match seg {
        SegV::Text(s) => span(s.text, diff_styled(s.diff, plain())),
        _ => span("…"@, plain()),
    }
}

/// The header of a trace node: the fold marker, the class and the message.
pub open spec fn header_parts(node: TraceV, look: Look) -> Seq<SpanV> {
    let cyan = colored(Color::Cyan);
    let focused = look.focus == Some(node.id);
    let marker = if is_collapsed(node, look) {
        "▶"@
    } else {
        "▼"@
    };
    seq![
        span(marker + " "@, if focused {
            Style { reversed: true, ..cyan }
        } else {
            cyan
        }),
        span("["@ + node.cls + "] "@, if focused {
            Style { reversed: true, ..cyan }
        } else {
            colored(Color::DarkGray)
        }),
    ] + node.header.map_values(|seg: SegV| header_part(seg))
}

/// Consecutive text segments are shown as one rich block; it ends where a goal
/// or a trace begins.
pub open spec fn flushed(s: Shown, indent: usize) -> Shown {
    if s.parts.len() == 0 {
        s
    } else {
        Shown { lines: s.lines + rich_lines(indent, s.parts), folds: s.folds, parts: Seq::empty() }
    }
}

pub open spec fn nothing_shown() -> Shown {
    Shown { lines: Seq::empty(), folds: Seq::empty(), parts: Seq::empty() }
}

/// What is shown of the segments, the text at the end still waiting.
pub open spec fn segs_shown(segs: Seq<SegV>, indent: usize, look: Look) -> Shown
    decreases segs,
{
    if segs.len() == 0 {
        nothing_shown()
    } else {
        let before = segs_shown(segs.drop_last(), indent, look);
        let ended = flushed(before, indent);
        match segs.last() {
            SegV::Text(s) => Shown {
                parts: before.parts.push(span(s.text, diff_styled(s.diff, plain()))),
                ..before
            },
            SegV::Goal(goal) => Shown { lines: ended.lines + goal_lines(indent, goal), ..ended },
            SegV::Trace(node) => {
                let shown = node_shown(node, indent, look);
                Shown {
                    lines: ended.lines + shown.lines,
                    folds: ended.folds + shown.folds,
                    parts: Seq::empty(),
                }
            },
        }
    }
}

/// What is shown of a trace node: its header and, unless it is collapsed, its
/// children.
pub open spec fn node_shown(node: TraceV, indent: usize, look: Look) -> Shown
    decreases node,
{
    let header = rich_lines(indent, header_parts(node, look));
    let within = blocks_shown(node.children, indent.wrapping_add(2), look);
    let loading = if node.truncated {
        rich_lines(
            indent.wrapping_add(2),
            seq![span("… (loading)"@, colored(Color::DarkGray))],
        )
    } else {
        Seq::empty()
    };
    if is_collapsed(node, look) {
        Shown { lines: header, folds: seq![fold_of(node, look)], parts: Seq::empty() }
    } else {
        Shown {
            lines: header + within.lines + loading,
            folds: seq![fold_of(node, look)] + within.folds,
            parts: Seq::empty(),
        }
    }
}

pub open spec fn blocks_shown(blocks: Seq<Seq<SegV>>, indent: usize, look: Look) -> Shown
    decreases blocks,
{
    if blocks.len() == 0 {
        nothing_shown()
    } else {
        let before = blocks_shown(blocks.drop_last(), indent, look);
        let last = flushed(segs_shown(blocks.last(), indent, look), indent);
        Shown {
            lines: before.lines + last.lines,
            folds: before.folds + last.folds,
            parts: Seq::empty(),
        }
    }
}

pub fn push_segs(
    lines: &mut Vec<Line>,
    folds: &mut Vec<Fold>,
    overrides: &HashMap<u32, bool>,
    focus: Option<u32>,
    segs: &Vec<MsgSeg>,
    indent: usize,
)
    ensures
        ({
            let s = flushed(
                segs_shown(segs_view(segs@), indent, (Look { overrides: overrides@, focus })),
                indent,
            );
            &&& lines_view(final(lines)@) == lines_view(old(lines)@) + s.lines
            &&& final(folds)@ == old(folds)@ + s.folds
        }),
    decreases *segs,
{
    let ghost look = Look { overrides: overrides@, focus };
    let ghost all = segs_view(segs@);
    let ghost lines0 = lines_view(lines@);
    let ghost folds0 = folds@;
    let mut parts: Vec<Span> = Vec::new();
    let mut i: usize = 0;
    proof {
        assert(all.take(0) =~= Seq::empty());
        assert(lines0 + nothing_shown().lines =~= lines0);
        assert(folds0 + nothing_shown().folds =~= folds0);
        assert(parts_view(parts@) =~= Seq::empty());
    }
    while i < segs.len()
        invariant
            i <= segs@.len(),
            all == segs_view(segs@),
            look == (Look { overrides: overrides@, focus }),
            lines_view(lines@) == lines0 + segs_shown(all.take(i as int), indent, look).lines,
            folds@ == folds0 + segs_shown(all.take(i as int), indent, look).folds,
            parts_view(parts@) == segs_shown(all.take(i as int), indent, look).parts,
        decreases segs@.len() - i,
    {
        let ghost before = segs_shown(all.take(i as int), indent, look);
        let ghost ended = flushed(before, indent);
        proof {
            assert(all.take(i + 1).drop_last() =~= all.take(i as int));
            assert(all.take(i + 1).last() == segs@[i as int]@);
            assert(decreases_to!(segs => segs[i as int]));
        }
        match &segs[i] {
            MsgSeg::Text(s) => {
                add_part(
                    &mut parts,
                    styled(s.text.as_str(), diff_style(&s.diff, Default::default())),
                );
            },
            MsgSeg::Goal(goal) => {
                flush(lines, indent, &mut parts);
                proof {
                    assert(lines_view(lines@) =~= lines0 + ended.lines);
                }
                push_goal(lines, indent, goal);
                proof {
                    assert(lines_view(lines@) =~= lines0 + segs_shown(
                        all.take(i + 1),
                        indent,
                        look,
                    ).lines);
                }
            },
            MsgSeg::Trace(node) => {
                flush(lines, indent, &mut parts);
                proof {
                    assert(lines_view(lines@) =~= lines0 + ended.lines);
                    assert(all[i as int] == SegV::Trace(node@));
                }
                push_node(lines, folds, overrides, focus, node, indent);
                proof {
                    let shown = segs_shown(all.take(i + 1), indent, look);
                    assert(lines_view(lines@) =~= lines0 + shown.lines);
                    assert(folds@ =~= folds0 + shown.folds);
                }
            },
        }
        i = i + 1;
    }
    proof {
        assert(all.take(i as int) =~= all);
    }
    flush(lines, indent, &mut parts);
    proof {
        assert(lines_view(lines@) =~= lines0 + flushed(
            segs_shown(all, indent, look),
            indent,
        ).lines);
    }
}

/// Ends a rich block.
fn flush(lines: &mut Vec<Line>, indent: usize, parts: &mut Vec<Span>)
    ensures
        lines_view(final(lines)@) == lines_view(old(lines)@) + (if old(parts)@.len() == 0 {
            Seq::empty()
        } else {
            rich_lines(indent, parts_view(old(parts)@))
        }),
        parts_view(final(parts)@) == Seq::<SpanV>::empty(),
{
    if parts.len() > 0 {
        push_rich(lines, indent, parts);
        parts.clear();
    } else {
        assert(lines_view(lines@) + Seq::<Seq<SpanV>>::empty() =~= lines_view(lines@));
    }
    proof {
        assert(parts_view(parts@) =~= Seq::empty());
    }
}

/// The header of a trace node as parts of a rich text.
fn node_header(node: &TraceNode, collapsed: bool, focused: bool) -> (r: Vec<Span>)
    ensures
        forall|look: Look|
            is_collapsed(node@, look) == collapsed && (look.focus == Some(node.id)) == focused
                ==> parts_view(r@) == #[trigger] header_parts(node@, look),
{
    let style: Style = Default::default();
    let cyan = style.fg(Color::Cyan);
    let mut parts: Vec<Span> = Vec::new();
    let mut marker = if collapsed {
        "▶".to_owned()
    } else {
        "▼".to_owned()
    };
    marker.append(" ");
    parts.push(
        Span {
            text: marker,
            style: if focused {
                cyan.reversed()
            } else {
                cyan
            },
        },
    );
    let mut cls = "[".to_owned();
    cls.append(node.cls.as_str());
    cls.append("] ");
    parts.push(
        Span {
            text: cls,
            style: if focused {
                cyan.reversed()
            } else {
                style.fg(Color::DarkGray)
            },
        },
    );
    let ghost start = parts_view(parts@);
    let ghost all = segs_view(node.header@).map_values(|seg: SegV| header_part(seg));
    let mut i: usize = 0;
    proof {
        assert(start + all.take(0) =~= start);
    }
    while i < node.header.len()
        invariant
            i <= node.header@.len(),
            all == segs_view(node.header@).map_values(|seg: SegV| header_part(seg)),
            parts_view(parts@) == start + all.take(i as int),
        decreases node.header@.len() - i,
    {
        let part = match &node.header[i] {
            MsgSeg::Text(s) => styled(s.text.as_str(), diff_style(&s.diff, Default::default())),
            _ => styled("…", Default::default()),
        };
        add_part(&mut parts, part);
        proof {
            assert(all[i as int] == header_part(node.header@[i as int]@));
            assert(start + all.take(i + 1) =~= (start + all.take(i as int)).push(all[i as int]));
        }
        i = i + 1;
    }
    proof {
        assert(all.take(i as int) =~= all);
        assert forall|look: Look|
            is_collapsed(node@, look) == collapsed && (look.focus == Some(node.id))
                == focused implies parts_view(parts@) == #[trigger] header_parts(node@, look) by {
            assert(parts_view(parts@) =~= header_parts(node@, look));
        }
    }
    parts
}

fn push_node(
    lines: &mut Vec<Line>,
    folds: &mut Vec<Fold>,
    overrides: &HashMap<u32, bool>,
    focus: Option<u32>,
    node: &TraceNode,
    indent: usize,
)
    ensures
        ({
            let s = node_shown(node@, indent, (Look { overrides: overrides@, focus }));
            &&& lines_view(final(lines)@) == lines_view(old(lines)@) + s.lines
            &&& final(folds)@ == old(folds)@ + s.folds
        }),
    decreases *node,
{
    let ghost look = Look { overrides: overrides@, focus };
    let ghost lines0 = lines_view(lines@);
    let ghost folds0 = folds@;
    let ghost s = node_shown(node@, indent, look);
    let collapsed = match overrides.get(&node.id) {
        Some(c) => *c,
        None => node.collapsed,
    };
    let focused = match focus {
        Some(id) => id == node.id,
        None => false,
    };
    assert(collapsed == is_collapsed(node@, look));
    folds.push(Fold { id: node.id, collapsed, needs_fetch: node.truncated });
    let parts = node_header(node, collapsed, focused);
    push_rich(lines, indent, &parts);
    let ghost header = rich_lines(indent, header_parts(node@, look));
    proof {
        assert(lines_view(lines@) == lines0 + header);
        assert(folds@ =~= folds0 + seq![fold_of(node@, look)]);
    }
    if collapsed {
        return;
    }
    let ghost lines1 = lines_view(lines@);
    let ghost folds1 = folds@;
    let inner = indent.wrapping_add(2);
    let ghost all = blocks_view(node.children@);
    let mut i: usize = 0;
    proof {
        assert(all.take(0) =~= Seq::empty());
        assert(lines1 + nothing_shown().lines =~= lines1);
        assert(folds1 + nothing_shown().folds =~= folds1);
    }
    while i < node.children.len()
        invariant
            i <= node.children@.len(),
            all == blocks_view(node.children@),
            look == (Look { overrides: overrides@, focus }),
            lines_view(lines@) == lines1 + blocks_shown(all.take(i as int), inner, look).lines,
            folds@ == folds1 + blocks_shown(all.take(i as int), inner, look).folds,
        decreases node.children@.len() - i,
    {
        proof {
            assert(all.take(i + 1).drop_last() =~= all.take(i as int));
            assert(all.take(i + 1).last() == segs_view(node.children@[i as int]@));
            assert(decreases_to!(*node => node.children));
            assert(decreases_to!(node.children => node.children[i as int]));
        }
        push_segs(lines, folds, overrides, focus, &node.children[i], inner);
        proof {
            let shown = blocks_shown(all.take(i + 1), inner, look);
            assert(lines_view(lines@) =~= lines1 + shown.lines);
            assert(folds@ =~= folds1 + shown.folds);
        }
        i = i + 1;
    }
    proof {
        assert(all.take(i as int) =~= all);
    }
    if node.truncated {
        let style: Style = Default::default();
        let mut parts: Vec<Span> = Vec::new();
        parts.push(styled("… (loading)", style.fg(Color::DarkGray)));
        proof {
            assert(parts_view(parts@) =~= seq![span("… (loading)"@, colored(Color::DarkGray))]);
        }
        push_rich(lines, inner, &parts);
    }
    proof {
        assert(lines_view(lines@) =~= lines0 + s.lines);
        assert(folds@ =~= folds0 + s.folds);
    }
}

} // verus!
