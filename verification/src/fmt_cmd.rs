//! Formatting and linting the sources with StyLua and Selene.
use vstd::prelude::*;

use crate::check::{mark_span, mark_span_of};
use crate::render::{
    empty_line, line1, line_view, lines_view, number, pad, pad_right, push_line, push_span, span,
    span_of, span_view, Span, Style,
};
use crate::text::{chars_of, decimal, extend, extend_str, same_str, string_of};

verus! {

/// One formatter or linter run.
#[derive(Debug)]
pub struct ToolRow {
    pub name: &'static str,
    pub ok: bool,
    pub summary: String,
    pub hint: Option<&'static str>,
}

/// The outcome of `fmt`.
#[derive(Debug)]
pub struct FmtReport {
    pub path: String,
    pub check: bool,
    pub tools: Vec<ToolRow>,
    pub broken: usize,
}

/// The two tools in the order they run, with how to install each.
pub open spec fn fmt_tool(i: int) -> (Seq<char>, Seq<char>) {
    if i == 0 {
        ("stylua"@, "install with: aftman add JohnnyMorganz/StyLua"@)
    } else {
        ("selene"@, "install with: aftman add Kampfkarren/selene"@)
    }
}

/// Tool `i` of the two and its install hint.
pub fn fmt_tool_at(i: usize) -> (res: (&'static str, &'static str))
    requires
        i < 2,
    ensures
        (res.0@, res.1@) == fmt_tool(i as int),
{
    if i == 0 {
        ("stylua", "install with: aftman add JohnnyMorganz/StyLua")
    } else {
        ("selene", "install with: aftman add Kampfkarren/selene")
    }
}

/// The arguments of a tool on `src`: StyLua gets `--check` in check mode.
pub open spec fn tool_args_spec(bin: Seq<char>, check: bool, src: Seq<char>) -> Seq<Seq<char>> {
    if bin == "stylua"@ && check {
        seq!["--check"@, src]
    } else {
        seq![src]
    }
}

/// The command-line arguments for running `bin` over the source directory `src`.
pub fn tool_args(bin: &str, check: bool, src: &str) -> (res: Vec<String>)
    ensures
        res@.map_values(|s: String| s@) == tool_args_spec(bin@, check, src@),
{
    let mut out: Vec<String> = Vec::new();
    if same_str(&chars_of(bin), "stylua") && check {
        out.push(string_of(&chars_of("--check")));
    }
    out.push(string_of(&chars_of(src)));
    assert(out@.map_values(|s: String| s@) =~= tool_args_spec(bin@, check, src@));
    out
}

/// The row of a tool that is not installed.
pub fn missing_row(name: &'static str, hint: &'static str) -> (res: ToolRow)
    ensures
        res.name == name,
        !res.ok,
        res.summary@ == Seq::<char>::empty(),
        res.hint == Some(hint),
{
    ToolRow { name, ok: false, summary: String::new(), hint: Some(hint) }
}

/// The row of a tool that ran: it passed when it exited with 0, and a silent pass reads `ok`.
pub fn ran_row(name: &'static str, code: i32, summary: String) -> (res: ToolRow)
    ensures
        res.name == name,
        res.ok == (code == 0),
        res.summary@ == if code == 0 && summary@.len() == 0 {
            "ok"@
        } else {
            summary@
        },
        res.hint is None,
{
    let ok = code == 0;
    let s = if ok && chars_of(summary.as_str()).len() == 0 {
        string_of(&chars_of("ok"))
    } else {
        summary
    };
    proof {
        if ok && summary@.len() == 0 {
        }
    }
    ToolRow { name, ok, summary: s, hint: None }
}

/// How many rows failed.
pub open spec fn count_failed(tools: Seq<ToolRow>) -> nat
    decreases tools.len(),
{
    if tools.len() == 0 {
        0
    } else {
        count_failed(tools.drop_last()) + if tools.last().ok {
            0nat
        } else {
            1nat
        }
    }
}

impl FmtReport {
    /// The report on these runs, with the failed ones counted.
    pub fn new(path: String, check: bool, tools: Vec<ToolRow>) -> (r: FmtReport)
        ensures
            r.path == path,
            r.check == check,
            r.tools == tools,
            r.broken == count_failed(tools@),
    {
        let mut broken: usize = 0;
        let mut i: usize = 0;
        while i < tools.len()
            invariant
                i <= tools.len(),
                broken == count_failed(tools@.take(i as int)),
                broken <= i,
            decreases tools.len() - i,
        {
            assert(tools@.take(i + 1).drop_last() =~= tools@.take(i as int));
            if !tools[i].ok {
                broken += 1;
            }
            i += 1;
        }
        assert(tools@.take(tools.len() as int) =~= tools@);
        FmtReport { path, check, tools, broken }
    }

    /// Whether a tool is missing or reported a problem.
    pub fn fail(&self) -> (res: bool)
        ensures
            res == (self.broken > 0),
    {
        self.broken > 0
    }
}

// ---- the terminal report ----

/// One tool: its mark and name, then what it said (dimmed when it passed, red when it
/// failed), or for a missing tool the install hint.
pub open spec fn fmt_line(t: ToolRow) -> Seq<(Seq<char>, Style)> {
    let name = " "@ + pad_right(t.name@, 8) + " "@;
    if t.ok {
        seq![("  "@, Style::Plain), mark_span(true), (name, Style::Plain), (t.summary@, Style::Dimmed)]
    } else {
        match t.hint {
            Some(h) => seq![
                ("  "@, Style::Plain),
                mark_span(false),
                (name + "missing · "@, Style::Plain),
                (h@, Style::Dimmed),
            ],
            None => seq![("  "@, Style::Plain), mark_span(false), (name, Style::Plain), (t.summary@, Style::Red)],
        }
    }
}

/// `N tools · K broken`, red and bold when a tool failed.
pub open spec fn fmt_summary(r: FmtReport) -> (Seq<char>, Style) {
    (
        "  "@ + decimal(r.tools@.len()) + " tools · "@ + decimal(r.broken as nat) + " broken"@,
        if r.broken > 0 {
            Style::RedBold
        } else {
            Style::Green
        },
    )
}

pub open spec fn fmt_lines_spec(r: FmtReport) -> Seq<Seq<(Seq<char>, Style)>> {
    seq![
        seq![
            ("  "@, Style::Plain),
            ("esmeril fmt"@, Style::Title),
            ("  "@ + r.path@ + " ("@ + if r.check {
                "check"@
            } else {
                "fix"@
            } + ")"@, Style::Plain),
        ],
        Seq::empty(),
    ] + r.tools@.map_values(|t: ToolRow| fmt_line(t)) + seq![Seq::empty(), seq![fmt_summary(r)]]
}

fn fmt_line_of(t: &ToolRow) -> (res: Vec<Span>)
    ensures
        line_view(res) == fmt_line(*t),
{
    let mut l: Vec<Span> = Vec::new();
    push_span(&mut l, span("  ", Style::Plain));
    push_span(&mut l, mark_span_of(t.ok));
    let mut n: Vec<char> = Vec::new();
    extend_str(&mut n, " ");
    extend(&mut n, &pad(&chars_of(t.name), 8));
    extend_str(&mut n, " ");
    if t.ok {
        push_span(&mut l, span_of(&n, Style::Plain));
        push_span(&mut l, span(t.summary.as_str(), Style::Dimmed));
    } else {
        match t.hint {
            Some(h) => {
                extend_str(&mut n, "missing · ");
                push_span(&mut l, span_of(&n, Style::Plain));
                push_span(&mut l, span(h, Style::Dimmed));
            },
            None => {
                push_span(&mut l, span_of(&n, Style::Plain));
                push_span(&mut l, span(t.summary.as_str(), Style::Red));
            },
        }
    }
    assert(line_view(l) =~= fmt_line(*t));
    l
}

/// The lines of the terminal report.
pub fn fmt_lines(r: &FmtReport) -> (res: Vec<Vec<Span>>)
    ensures
        lines_view(res@) == fmt_lines_spec(*r),
{
    let mut out: Vec<Vec<Span>> = Vec::new();
    let mut title: Vec<Span> = Vec::new();
    push_span(&mut title, span("  ", Style::Plain));
    push_span(&mut title, span("esmeril fmt", Style::Title));
    let mut p: Vec<char> = Vec::new();
    extend_str(&mut p, "  ");
    extend_str(&mut p, r.path.as_str());
    extend_str(&mut p, " (");
    extend_str(&mut p, if r.check {
        "check"
    } else {
        "fix"
    });
    extend_str(&mut p, ")");
    push_span(&mut title, span_of(&p, Style::Plain));
    assert(line_view(title) =~= fmt_lines_spec(*r)[0]);
    push_line(&mut out, title);
    push_line(&mut out, empty_line());
    let ghost head = lines_view(out@);
    assert(head =~= fmt_lines_spec(*r).take(2));
    let mut i: usize = 0;
    while i < r.tools.len()
        invariant
            i <= r.tools.len(),
            lines_view(out@) == head + r.tools@.map_values(|t: ToolRow| fmt_line(t)).take(i as int),
        decreases r.tools.len() - i,
    {
        push_line(&mut out, fmt_line_of(&r.tools[i]));
        assert(r.tools@.map_values(|t: ToolRow| fmt_line(t)).take(i + 1) =~= r.tools@.map_values(
            |t: ToolRow| fmt_line(t),
        ).take(i as int).push(fmt_line(r.tools@[i as int])));
        i += 1;
    }
    assert(r.tools@.map_values(|t: ToolRow| fmt_line(t)).take(r.tools.len() as int)
        =~= r.tools@.map_values(|t: ToolRow| fmt_line(t)));
    let ghost mid = lines_view(out@);
    let mut t: Vec<char> = Vec::new();
    extend_str(&mut t, "  ");
    extend(&mut t, &number(r.tools.len() as u64));
    extend_str(&mut t, " tools · ");
    extend(&mut t, &number(r.broken as u64));
    extend_str(&mut t, " broken");
    push_line(&mut out, empty_line());
    push_line(&mut out, line1(span_of(&t, if r.broken > 0 {
        Style::RedBold
    } else {
        Style::Green
    })));
    assert(lines_view(out@) =~= mid + seq![Seq::empty(), seq![fmt_summary(*r)]]);
    assert(lines_view(out@) =~= fmt_lines_spec(*r));
    out
}

/// Why nothing is formatted.
#[derive(Debug)]
pub enum FmtError {
    /// The project has no `src/` directory; it holds the displayed path of `src`.
    NoSources(String),
}

impl FmtError {
    pub open spec fn text(self) -> Seq<char> {
        match self {
            FmtError::NoSources(s) => "no src/ directory at '"@ + s@ + "' - nothing to format"@,
        }
    }

    /// The error as a sentence.
    pub fn message(&self) -> (res: String)
        ensures
            res@ == self.text(),
    {
        match self {
            FmtError::NoSources(s) => {
                let mut out: Vec<char> = Vec::new();
                extend_str(&mut out, "no src/ directory at '");
                extend_str(&mut out, s.as_str());
                extend_str(&mut out, "' - nothing to format");
                string_of(&out)
            },
        }
    }
}

/// The tools only run on a project with a `src/` directory.
pub fn fmt_gate(src: &str, src_is_dir: bool) -> (res: Result<(), FmtError>)
    ensures
        res is Ok <==> src_is_dir,
        res matches Err(FmtError::NoSources(s)) ==> s@ == src@,
{
    if !src_is_dir {
        return Err(FmtError::NoSources(string_of(&chars_of(src))));
    }
    Ok(())
}

} // verus!
