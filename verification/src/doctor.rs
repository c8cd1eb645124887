//! The local toolchain: which tools are installed, and whether the core ones are.
use vstd::prelude::*;

use crate::check::{mark_span, mark_span_of};
use crate::render::{
    empty_line, line1, line_view, lines_view, number, pad, pad_right, push_line, push_span, span,
    span_of, span_view, Span, Style,
};
use crate::text::{chars_of, decimal, extend, extend_str, lines, lines_of, same_str, string_of, trim, trim_chars, trim_str};

verus! {

/// One tool of the toolchain.
#[derive(Debug)]
pub struct ToolRow {
    pub name: &'static str,
    pub present: bool,
    pub version: Option<String>,
    pub hint: &'static str,
}

/// The toolchain check.
#[derive(Debug)]
pub struct DoctorReport {
    pub tools: Vec<ToolRow>,
    pub ready: usize,
    pub missing: usize,
}

/// The tools the workflow uses, in report order.
pub open spec fn tool_name(i: int) -> Seq<char> {
    if i == 0 {
        "rojo"@
    } else if i == 1 {
        "selene"@
    } else if i == 2 {
        "stylua"@
    } else if i == 3 {
        "wally"@
    } else {
        "aftman"@
    }
}

/// The tools the workflow depends on: rojo, selene and stylua.
pub open spec fn is_core(name: Seq<char>) -> bool {
    name == "rojo"@ || name == "selene"@ || name == "stylua"@
}

/// How to install each tool.
pub open spec fn hint_spec(name: Seq<char>) -> Seq<char> {
    if name == "rojo"@ {
        "install with: aftman add rojo-rbx/rojo"@
    } else if name == "selene"@ {
        "install with: aftman add Kampfkarren/selene"@
    } else if name == "stylua"@ {
        "install with: aftman add JohnnyMorganz/StyLua"@
    } else if name == "wally"@ {
        "install with: aftman add UpliftGames/wally"@
    } else if name == "aftman"@ {
        "install from https://github.com/rojo-rbx/aftman"@
    } else {
        ""@
    }
}

/// The name of tool `i` of the five the doctor checks.
pub fn tool(i: usize) -> (res: &'static str)
    requires
        i < 5,
    ensures
        res@ == tool_name(i as int),
{
    if i == 0 {
        "rojo"
    } else if i == 1 {
        "selene"
    } else if i == 2 {
        "stylua"
    } else if i == 3 {
        "wally"
    } else {
        "aftman"
    }
}

/// The install hint for a tool.
pub fn hint_for(name: &str) -> (res: &'static str)
    ensures
        res@ == hint_spec(name@),
{
    let v = chars_of(name);
    if same_str(&v, "rojo") {
        "install with: aftman add rojo-rbx/rojo"
    } else if same_str(&v, "selene") {
        "install with: aftman add Kampfkarren/selene"
    } else if same_str(&v, "stylua") {
        "install with: aftman add JohnnyMorganz/StyLua"
    } else if same_str(&v, "wally") {
        "install with: aftman add UpliftGames/wally"
    } else if same_str(&v, "aftman") {
        "install from https://github.com/rojo-rbx/aftman"
    } else {
        ""
    }
}

/// The row of a tool: whether it is on PATH and the version it reported.
pub fn tool_row(name: &'static str, present: bool, version: Option<String>) -> (res: ToolRow)
    ensures
        res.name == name,
        res.present == present,
        res.version == version,
        res.hint@ == hint_spec(name@),
{
    ToolRow { name, present, version, hint: hint_for(name) }
}

/// The first line of what a tool printed for `--version`, trimmed: standard output, or
/// standard error when standard output is blank.
pub open spec fn version_line_spec(stdout: Seq<char>, stderr: Seq<char>) -> Option<Seq<char>> {
    let text = if trim(stdout).len() == 0 {
        stderr
    } else {
        stdout
    };
    if lines(text).len() > 0 {
        Some(trim(lines(text)[0]))
    } else {
        None
    }
}

/// The version line of a tool's `--version` output.
pub fn version_line(stdout: &str, stderr: &str) -> (res: Option<String>)
    ensures
        match res {
            Some(s) => version_line_spec(stdout@, stderr@) == Some(s@),
            None => version_line_spec(stdout@, stderr@) is None,
        },
{
    let blank = trim_str(stdout).len() == 0;
    let ls = if blank {
        lines_of(stderr)
    } else {
        lines_of(stdout)
    };
    if ls.len() > 0 {
        assert(ls@.map_values(|p: Vec<char>| p@)[0] == ls@[0]@);
        Some(string_of(&trim_chars(&ls[0])))
    } else {
        None
    }
}

/// Whether a core tool is missing.
pub open spec fn doctor_fails(tools: Seq<ToolRow>) -> bool {
    exists|i: int| 0 <= i < tools.len() && is_core((#[trigger] tools[i]).name@) && !tools[i].present
}

/// The doctor fails exactly when the report has a row for rojo, selene or stylua that is
/// not present; other tools missing never make it fail.
pub proof fn lemma_doctor_fails_on_missing_core(tools: Seq<ToolRow>)
    ensures
        doctor_fails(tools) <==> exists|i: int|
            0 <= i < tools.len() && !(#[trigger] tools[i]).present && (tools[i].name@ == "rojo"@
                || tools[i].name@ == "selene"@ || tools[i].name@ == "stylua"@),
{
}

/// The doctor looks at rojo, selene and stylua, then wally and aftman; over the rows of
/// those five tools it fails exactly when one of the first three is missing.
pub proof fn lemma_doctor_tools(tools: Seq<ToolRow>)
    requires
        tools.len() == 5,
        forall|i: int| 0 <= i < 5 ==> (#[trigger] tools[i]).name@ == tool_name(i),
    ensures
        tool_name(0) == "rojo"@ && tool_name(1) == "selene"@ && tool_name(2) == "stylua"@,
        tool_name(3) == "wally"@ && tool_name(4) == "aftman"@,
        doctor_fails(tools) <==> !tools[0].present || !tools[1].present || !tools[2].present,
{
    reveal_strlit("rojo");
    reveal_strlit("selene");
    reveal_strlit("stylua");
    reveal_strlit("wally");
    reveal_strlit("aftman");
    assert(tools[0].name@ == tool_name(0));
    assert(tools[1].name@ == tool_name(1));
    assert(tools[2].name@ == tool_name(2));
    assert(tools[3].name@ == tool_name(3));
    assert(tools[4].name@ == tool_name(4));
    assert(!is_core(tools[3].name@)) by {
        assert(tools[3].name@.len() == 5);
    }
    assert(!is_core(tools[4].name@)) by {
        assert(tools[4].name@.len() == 6 && tools[4].name@[0] == 'a');
    }
}

/// How many rows are present.
pub open spec fn count_present(tools: Seq<ToolRow>) -> nat
    decreases tools.len(),
{
    if tools.len() == 0 {
        0
    } else {
        count_present(tools.drop_last()) + if tools.last().present {
            1nat
        } else {
            0nat
        }
    }
}

impl DoctorReport {
    /// The report on these tools, with the ready and missing ones counted.
    pub fn new(tools: Vec<ToolRow>) -> (r: DoctorReport)
        ensures
            r.tools == tools,
            r.ready == count_present(tools@),
            r.ready + r.missing == tools@.len(),
    {
        let mut ready: usize = 0;
        let mut missing: usize = 0;
        let mut i: usize = 0;
        while i < tools.len()
            invariant
                i <= tools.len(),
                ready == count_present(tools@.take(i as int)),
                ready + missing == i,
            decreases tools.len() - i,
        {
            assert(tools@.take(i + 1).drop_last() =~= tools@.take(i as int));
            if tools[i].present {
                ready += 1;
            } else {
                missing += 1;
            }
            i += 1;
        }
        assert(tools@.take(tools.len() as int) =~= tools@);
        DoctorReport { tools, ready, missing }
    }

    /// Whether a core tool (rojo, selene, stylua) is missing.
    pub fn fail(&self) -> (res: bool)
        ensures
            res == doctor_fails(self.tools@),
    {
        let mut i: usize = 0;
        while i < self.tools.len()
            invariant
                i <= self.tools.len(),
                forall|j: int|
                    0 <= j < i ==> !(is_core((#[trigger] self.tools@[j]).name@)
                        && !self.tools@[j].present),
            decreases self.tools.len() - i,
        {
            let t = &self.tools[i];
            let n = chars_of(t.name);
            if (same_str(&n, "rojo") || same_str(&n, "selene") || same_str(&n, "stylua"))
                && !t.present {
                return true;
            }
            i += 1;
        }
        false
    }
}

// ---- the terminal report ----

/// One tool: its mark, its name, the version it reported (dimmed), and for a missing tool
/// the install hint.
pub open spec fn tool_line(t: ToolRow) -> Seq<(Seq<char>, Style)> {
    let version = match t.version {
        Some(v) => v@,
        None => "-"@,
    };
    seq![
        ("  "@, Style::Plain),
        mark_span(t.present),
        (" "@ + pad_right(t.name@, 8) + " "@, Style::Plain),
        (version, Style::Dimmed),
    ] + if t.present {
        Seq::empty()
    } else {
        seq![("  "@, Style::Plain), (t.hint@, Style::Dimmed)]
    }
}

/// `N of M tools ready · K missing`, red and bold when a core tool is missing.
pub open spec fn doctor_summary(r: DoctorReport) -> (Seq<char>, Style) {
    (
        "  "@ + decimal(r.ready as nat) + " of "@ + decimal(r.tools@.len()) + " tools ready · "@
            + decimal(r.missing as nat) + " missing"@,
        if doctor_fails(r.tools@) {
            Style::RedBold
        } else {
            Style::Green
        },
    )
}

pub open spec fn doctor_lines_spec(r: DoctorReport) -> Seq<Seq<(Seq<char>, Style)>> {
    seq![
        seq![("  "@, Style::Plain), ("esmeril doctor"@, Style::Title), ("  local toolchain"@, Style::Plain)],
        Seq::empty(),
    ] + r.tools@.map_values(|t: ToolRow| tool_line(t)) + seq![Seq::empty(), seq![doctor_summary(r)]]
}

fn tool_line_of(t: &ToolRow) -> (res: Vec<Span>)
    ensures
        line_view(res) == tool_line(*t),
{
    let version = match &t.version {
        Some(v) => v.as_str(),
        None => "-",
    };
    let mut l: Vec<Span> = Vec::new();
    push_span(&mut l, span("  ", Style::Plain));
    push_span(&mut l, mark_span_of(t.present));
    let mut n: Vec<char> = Vec::new();
    extend_str(&mut n, " ");
    extend(&mut n, &pad(&chars_of(t.name), 8));
    extend_str(&mut n, " ");
    push_span(&mut l, span_of(&n, Style::Plain));
    push_span(&mut l, span(version, Style::Dimmed));
    if !t.present {
        push_span(&mut l, span("  ", Style::Plain));
        push_span(&mut l, span(t.hint, Style::Dimmed));
    }
    assert(line_view(l) =~= tool_line(*t));
    l
}

/// The lines of the terminal report.
pub fn doctor_lines(r: &DoctorReport) -> (res: Vec<Vec<Span>>)
    ensures
        lines_view(res@) == doctor_lines_spec(*r),
{
    let mut out: Vec<Vec<Span>> = Vec::new();
    let mut title: Vec<Span> = Vec::new();
    push_span(&mut title, span("  ", Style::Plain));
    push_span(&mut title, span("esmeril doctor", Style::Title));
    push_span(&mut title, span("  local toolchain", Style::Plain));
    assert(line_view(title) =~= seq![("  "@, Style::Plain), ("esmeril doctor"@, Style::Title), ("  local toolchain"@, Style::Plain)]);
    push_line(&mut out, title);
    push_line(&mut out, empty_line());
    let ghost head = lines_view(out@);
    let mut i: usize = 0;
    while i < r.tools.len()
        invariant
            i <= r.tools.len(),
            lines_view(out@) == head + r.tools@.map_values(|t: ToolRow| tool_line(t)).take(i as int),
        decreases r.tools.len() - i,
    {
        push_line(&mut out, tool_line_of(&r.tools[i]));
        assert(r.tools@.map_values(|t: ToolRow| tool_line(t)).take(i + 1) =~= r.tools@.map_values(
            |t: ToolRow| tool_line(t),
        ).take(i as int).push(tool_line(r.tools@[i as int])));
        i += 1;
    }
    assert(r.tools@.map_values(|t: ToolRow| tool_line(t)).take(r.tools.len() as int)
        =~= r.tools@.map_values(|t: ToolRow| tool_line(t)));
    let ghost mid = lines_view(out@);
    let mut t: Vec<char> = Vec::new();
    extend_str(&mut t, "  ");
    extend(&mut t, &number(r.ready as u64));
    extend_str(&mut t, " of ");
    extend(&mut t, &number(r.tools.len() as u64));
    extend_str(&mut t, " tools ready · ");
    extend(&mut t, &number(r.missing as u64));
    extend_str(&mut t, " missing");
    let style = if r.fail() {
        Style::RedBold
    } else {
        Style::Green
    };
    push_line(&mut out, empty_line());
    push_line(&mut out, line1(span_of(&t, style)));
    assert(lines_view(out@) =~= mid + seq![Seq::empty(), seq![doctor_summary(*r)]]);
    assert(lines_view(out@) =~= doctor_lines_spec(*r));
    out
}

} // verus!
