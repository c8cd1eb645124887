//! Scaffolding a new project: when to refuse, and what to call it.
use vstd::prelude::*;

use crate::render::{
    empty_line, line1, line_view, lines_view, push_line, push_span, span, span_of, Span, Style,
};
use crate::text::{chars_of, extend_str, string_of};

verus! {

/// Why a project is not scaffolded.
#[derive(Debug)]
pub enum InitError {
    /// The target directory holds files and `--force` was not given.
    NotEmpty(String),
}

impl InitError {
    pub open spec fn text(self) -> Seq<char> {
        match self {
            InitError::NotEmpty(t) => "'"@ + t@ + "' is not empty; use --force to overwrite"@,
        }
    }

    /// The error as a sentence.
    pub fn message(&self) -> (res: String)
        ensures
            res@ == self.text(),
    {
        match self {
            InitError::NotEmpty(t) => {
                let mut out: Vec<char> = Vec::new();
                extend_str(&mut out, "'");
                extend_str(&mut out, t.as_str());
                extend_str(&mut out, "' is not empty; use --force to overwrite");
                string_of(&out)
            },
        }
    }
}

/// A non-empty target is only overwritten with `--force`.
pub fn init_gate(target: &str, force: bool, empty: bool) -> (res: Result<(), InitError>)
    ensures
        (force || empty) <==> res is Ok,
        res matches Err(InitError::NotEmpty(t)) ==> t@ == target@,
{
    if !force && !empty {
        return Err(InitError::NotEmpty(string_of(&chars_of(target))));
    }
    Ok(())
}

/// The project's name: the target directory's name, or `game` when it has none.
pub fn project_dir_name(file_name: Option<&str>) -> (res: String)
    ensures
        res@ == match file_name {
            Some(n) => n@,
            None => "game"@,
        },
{
    match file_name {
        Some(n) => string_of(&chars_of(n)),
        None => string_of(&chars_of("game")),
    }
}

pub open spec fn next_steps_text(lib: bool) -> Seq<char> {
    if lib {
        "  next:  aftman install && wally publish (set your real scope in wally.toml first)"@
    } else {
        "  next:  aftman install && rojo serve"@
    }
}

/// What to do next after scaffolding.
pub fn next_steps(lib: bool) -> (res: &'static str)
    ensures
        res@ == next_steps_text(lib),
{
    if lib {
        "  next:  aftman install && wally publish (set your real scope in wally.toml first)"
    } else {
        "  next:  aftman install && rojo serve"
    }
}

pub open spec fn created_file_line(f: (String, String)) -> Seq<(Seq<char>, Style)> {
    seq![("  "@, Style::Plain), ("created"@, Style::Green), (" "@ + f.0@, Style::Plain)]
}

/// What `init` reports: the project and where it went, each file created, and the next
/// steps.
pub open spec fn init_lines_spec(name: Seq<char>, target: Seq<char>, files: Seq<(String, String)>, lib: bool) -> Seq<Seq<(Seq<char>, Style)>> {
    seq![
        seq![
            ("  "@, Style::Plain),
            ("scaffolded"@, Style::GreenBold),
            (" "@ + name + " "@, Style::Plain),
            ("in"@, Style::Dimmed),
        ],
        seq![("  "@, Style::Plain), (target, Style::Dimmed)],
        Seq::empty(),
    ] + files.map_values(|f: (String, String)| created_file_line(f)) + seq![
        Seq::empty(),
        seq![(next_steps_text(lib), Style::Plain)],
        seq![("  check: esmeril check"@, Style::Plain)],
    ]
}

/// The lines of the `init` report.
pub fn init_lines(name: &str, target: &str, files: &Vec<(String, String)>, lib: bool) -> (res: Vec<Vec<Span>>)
    ensures
        lines_view(res@) == init_lines_spec(name@, target@, files@, lib),
{
    let mut out: Vec<Vec<Span>> = Vec::new();
    let mut first: Vec<Span> = Vec::new();
    push_span(&mut first, span("  ", Style::Plain));
    push_span(&mut first, span("scaffolded", Style::GreenBold));
    let mut n: Vec<char> = Vec::new();
    extend_str(&mut n, " ");
    extend_str(&mut n, name);
    extend_str(&mut n, " ");
    push_span(&mut first, span_of(&n, Style::Plain));
    push_span(&mut first, span("in", Style::Dimmed));
    assert(line_view(first) =~= init_lines_spec(name@, target@, files@, lib)[0]);
    push_line(&mut out, first);
    let mut second: Vec<Span> = Vec::new();
    push_span(&mut second, span("  ", Style::Plain));
    push_span(&mut second, span(target, Style::Dimmed));
    assert(line_view(second) =~= init_lines_spec(name@, target@, files@, lib)[1]);
    push_line(&mut out, second);
    push_line(&mut out, empty_line());
    let ghost head = lines_view(out@);
    assert(head =~= init_lines_spec(name@, target@, files@, lib).take(3));
    let mut i: usize = 0;
    while i < files.len()
        invariant
            i <= files.len(),
            lines_view(out@) == head + files@.map_values(|f: (String, String)| created_file_line(f)).take(
                i as int,
            ),
        decreases files.len() - i,
    {
        let mut l: Vec<Span> = Vec::new();
        push_span(&mut l, span("  ", Style::Plain));
        push_span(&mut l, span("created", Style::Green));
        let mut t: Vec<char> = Vec::new();
        extend_str(&mut t, " ");
        extend_str(&mut t, files[i].0.as_str());
        push_span(&mut l, span_of(&t, Style::Plain));
        assert(line_view(l) =~= created_file_line(files@[i as int]));
        push_line(&mut out, l);
        assert(files@.map_values(|f: (String, String)| created_file_line(f)).take(i + 1)
            =~= files@.map_values(|f: (String, String)| created_file_line(f)).take(i as int).push(
            created_file_line(files@[i as int]),
        ));
        i += 1;
    }
    assert(files@.map_values(|f: (String, String)| created_file_line(f)).take(files.len() as int)
        =~= files@.map_values(|f: (String, String)| created_file_line(f)));
    let ghost mid = lines_view(out@);
    push_line(&mut out, empty_line());
    push_line(&mut out, line1(span(next_steps(lib), Style::Plain)));
    push_line(&mut out, line1(span("  check: esmeril check", Style::Plain)));
    assert(lines_view(out@) =~= mid + seq![
        Seq::empty(),
        seq![(next_steps_text(lib), Style::Plain)],
        seq![("  check: esmeril check"@, Style::Plain)],
    ]);
    assert(lines_view(out@) =~= init_lines_spec(name@, target@, files@, lib));
    out
}

} // verus!
