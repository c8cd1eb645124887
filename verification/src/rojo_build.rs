//! Building a checked project with Rojo.
use vstd::prelude::*;

use crate::check::{colored_grade, grade_span, mark_span, mark_span_of, report_fails, Report};
use crate::render::{
    empty_line, line1, line_view, lines_view, push_line, push_span, span, span_of, Span, Style,
};
use crate::text::{chars_of, extend, extend_str, string_of};
use crate::tool::{summary, summary_spec, Outcome};

verus! {

/// The outcome of `build`.
#[derive(Debug)]
pub struct BuildReport {
    pub path: String,
    pub grade: char,
    pub score: u8,
    pub output: String,
    pub ok: bool,
    pub summary: String,
}

/// Why a project is not built.
#[derive(Debug)]
pub enum BuildError {
    /// The check fails.
    CheckFailed,
    /// Rojo is not on PATH.
    NoRojo,
}

impl BuildError {
    pub open spec fn text(self) -> Seq<char> {
        match self {
            BuildError::CheckFailed => "check failed - fix the project before building"@,
            BuildError::NoRojo => "rojo is not installed - install with: aftman add rojo-rbx/rojo"@,
        }
    }

    /// The error as a sentence.
    pub fn message(&self) -> (res: &'static str)
        ensures
            res@ == self.text(),
    {
        match self {
            BuildError::CheckFailed => "check failed - fix the project before building",
            BuildError::NoRojo => "rojo is not installed - install with: aftman add rojo-rbx/rojo",
        }
    }
}

/// A failing check refuses the build; so does a missing Rojo.
pub fn build_gate(check: &Report, rojo_on_path: bool) -> (res: Result<(), BuildError>)
    ensures
        report_fails(*check) ==> res matches Err(BuildError::CheckFailed),
        !report_fails(*check) && !rojo_on_path ==> res matches Err(BuildError::NoRojo),
        !report_fails(*check) && rojo_on_path ==> res is Ok,
{
    if check.fail() {
        return Err(BuildError::CheckFailed);
    }
    if !rojo_on_path {
        return Err(BuildError::NoRojo);
    }
    Ok(())
}

/// The output file: the one asked for, else `lib.rbxm` for a library and `game.rbxl`
/// for a game.
pub open spec fn output_spec(given: Option<Seq<char>>, lib: bool) -> Seq<char> {
    match given {
        Some(o) => o,
        None => if lib {
            "lib.rbxm"@
        } else {
            "game.rbxl"@
        },
    }
}

/// The file Rojo builds into.
pub fn output_name(given: Option<String>, lib: bool) -> (res: String)
    ensures
        res@ == output_spec(match given {
            Some(o) => Some(o@),
            None => None,
        }, lib),
{
    match given {
        Some(o) => o,
        None => if lib {
            string_of(&chars_of("lib.rbxm"))
        } else {
            string_of(&chars_of("game.rbxl"))
        },
    }
}

impl BuildReport {
    /// The report of a Rojo run on a checked project.
    pub fn new(path: String, check: &Report, output: String, out: &Outcome) -> (r: BuildReport)
        ensures
            r.path == path,
            r.grade == check.grade,
            r.score == check.score,
            r.output == output,
            r.ok == (out.code == 0),
            r.summary@ == summary_spec(*out),
    {
        BuildReport {
            path,
            grade: check.grade,
            score: check.score,
            output,
            ok: out.code == 0,
            summary: summary(out),
        }
    }

    /// Whether Rojo failed.
    pub fn fail(&self) -> (res: bool)
        ensures
            res == !self.ok,
    {
        !self.ok
    }
}

// ---- the terminal report ----

/// What Rojo said, or `ok` / `build failed` when it said nothing.
pub open spec fn build_summary_text(r: BuildReport) -> Seq<char> {
    if r.summary@.len() == 0 {
        if r.ok {
            "ok"@
        } else {
            "build failed"@
        }
    } else {
        r.summary@
    }
}

/// The Rojo line: mark and summary with the output file dimmed, or the whole line in red.
pub open spec fn rojo_line(r: BuildReport) -> Seq<(Seq<char>, Style)> {
    if r.ok {
        seq![
            ("  "@, Style::Plain),
            mark_span(true),
            (" rojo  "@ + build_summary_text(r), Style::Plain),
            ("  ("@, Style::Plain),
            (r.output@, Style::Dimmed),
            (")"@, Style::Plain),
        ]
    } else {
        seq![("  ✗ rojo  "@ + build_summary_text(r), Style::Red)]
    }
}

pub open spec fn build_lines_spec(r: BuildReport) -> Seq<Seq<(Seq<char>, Style)>> {
    seq![
        seq![("  "@, Style::Plain), ("esmeril build"@, Style::Title), ("  "@ + r.path@, Style::Plain)],
        Seq::empty(),
        seq![("  check  "@, Style::Plain), grade_span(r.grade, r.score)],
        rojo_line(r),
        Seq::empty(),
        if r.ok {
            seq![("  "@, Style::Plain), ("wrote "@ + r.output@, Style::Green)]
        } else {
            seq![("  "@, Style::Plain), ("build failed"@, Style::RedBold)]
        },
    ]
}

/// The lines of the terminal report.
pub fn build_lines(r: &BuildReport) -> (res: Vec<Vec<Span>>)
    ensures
        lines_view(res@) == build_lines_spec(*r),
{
    let mut out: Vec<Vec<Span>> = Vec::new();
    let mut title: Vec<Span> = Vec::new();
    push_span(&mut title, span("  ", Style::Plain));
    push_span(&mut title, span("esmeril build", Style::Title));
    let mut p: Vec<char> = Vec::new();
    extend_str(&mut p, "  ");
    extend_str(&mut p, r.path.as_str());
    push_span(&mut title, span_of(&p, Style::Plain));
    assert(line_view(title) =~= build_lines_spec(*r)[0]);
    push_line(&mut out, title);
    push_line(&mut out, empty_line());
    let mut g: Vec<Span> = Vec::new();
    push_span(&mut g, span("  check  ", Style::Plain));
    push_span(&mut g, colored_grade(r.grade, r.score));
    assert(line_view(g) =~= build_lines_spec(*r)[2]);
    push_line(&mut out, g);
    let st: &str = if chars_of(r.summary.as_str()).len() == 0 {
        if r.ok {
            "ok"
        } else {
            "build failed"
        }
    } else {
        r.summary.as_str()
    };
    let mut l: Vec<Span> = Vec::new();
    if r.ok {
        push_span(&mut l, span("  ", Style::Plain));
        push_span(&mut l, mark_span_of(true));
        let mut t: Vec<char> = Vec::new();
        extend_str(&mut t, " rojo  ");
        extend_str(&mut t, st);
        push_span(&mut l, span_of(&t, Style::Plain));
        push_span(&mut l, span("  (", Style::Plain));
        push_span(&mut l, span(r.output.as_str(), Style::Dimmed));
        push_span(&mut l, span(")", Style::Plain));
    } else {
        let mut t: Vec<char> = Vec::new();
        extend_str(&mut t, "  ✗ rojo  ");
        extend_str(&mut t, st);
        push_span(&mut l, span_of(&t, Style::Red));
    }
    assert(line_view(l) =~= rojo_line(*r));
    push_line(&mut out, l);
    push_line(&mut out, empty_line());
    let mut last: Vec<Span> = Vec::new();
    push_span(&mut last, span("  ", Style::Plain));
    if r.ok {
        let mut t: Vec<char> = Vec::new();
        extend_str(&mut t, "wrote ");
        extend_str(&mut t, r.output.as_str());
        push_span(&mut last, span_of(&t, Style::Green));
    } else {
        push_span(&mut last, span("build failed", Style::RedBold));
    }
    assert(line_view(last) =~= build_lines_spec(*r)[5]);
    push_line(&mut out, last);
    assert(lines_view(out@) =~= build_lines_spec(*r));
    out
}

} // verus!
