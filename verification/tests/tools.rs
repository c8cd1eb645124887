use esmeril::check::{inspect, ProjectFacts, Report};
use esmeril::data::FileState;
use esmeril::doctor::{doctor_lines, hint_for, tool, tool_row, version_line, DoctorReport};
use esmeril::fmt_cmd::{fmt_lines, fmt_tool_at, missing_row, ran_row, tool_args, FmtReport};
use esmeril::render::Style;
use esmeril::rojo_build::{build_gate, build_lines, output_name, BuildError, BuildReport};
use esmeril::tool::{summary, Outcome};

#[test]
fn summary_takes_last_lines() {
    let out = Outcome {
        code: 0,
        stdout: "a\nb\nc\n".into(),
        stderr: String::new(),
    };
    assert_eq!(summary(&out), "b · c");
}

#[test]
fn summary_skips_blank_lines() {
    let out = Outcome {
        code: 1,
        stdout: "a\n\n\n".into(),
        stderr: "boom\n".into(),
    };
    assert_eq!(summary(&out), "a · boom");
}

#[test]
fn summary_of_silence_is_empty() {
    let out = Outcome { code: 0, stdout: "  \n".into(), stderr: "\r\n".into() };
    assert_eq!(summary(&out), "");
    let one = Outcome { code: 0, stdout: "  only  ".into(), stderr: String::new() };
    assert_eq!(summary(&one), "only");
}

#[test]
fn doctor_rows_and_failure() {
    let names: Vec<&str> = (0..5).map(tool).collect();
    assert_eq!(names, vec!["rojo", "selene", "stylua", "wally", "aftman"]);
    assert_eq!(hint_for("wally"), "install with: aftman add UpliftGames/wally");
    assert_eq!(hint_for("other"), "");
    let rows = vec![
        tool_row("rojo", true, Some("Rojo 7.7.0".into())),
        tool_row("selene", true, None),
        tool_row("stylua", true, None),
        tool_row("wally", false, None),
        tool_row("aftman", false, None),
    ];
    let r = DoctorReport::new(rows);
    assert_eq!((r.ready, r.missing), (3, 2));
    assert!(!r.fail());
    let lines = doctor_lines(&r);
    assert_eq!(lines[2][3].text, "Rojo 7.7.0");
    assert_eq!(lines[2][2].text, format!(" {:<8} ", "rojo"));
    assert_eq!(lines[5][5].text, "install with: aftman add UpliftGames/wally");
    assert_eq!(lines.last().unwrap()[0].text, "  3 of 5 tools ready · 2 missing");
    assert_eq!(lines.last().unwrap()[0].style, Style::Green);
    let bad = DoctorReport::new(vec![tool_row("selene", false, None)]);
    assert!(bad.fail());
    assert_eq!(doctor_lines(&bad).last().unwrap()[0].style, Style::RedBold);
}

#[test]
fn version_line_prefers_stdout() {
    assert_eq!(version_line("rojo 7.7.0\nmore\n", "x").as_deref(), Some("rojo 7.7.0"));
    assert_eq!(version_line("   \n", "  selene 0.31\n").as_deref(), Some("selene 0.31"));
    assert_eq!(version_line("", ""), None);
}

#[test]
fn fmt_rows_and_report() {
    assert_eq!(fmt_tool_at(0).0, "stylua");
    assert_eq!(fmt_tool_at(1).0, "selene");
    assert_eq!(tool_args("stylua", true, "src"), vec!["--check", "src"]);
    assert_eq!(tool_args("stylua", false, "src"), vec!["src"]);
    assert_eq!(tool_args("selene", true, "src"), vec!["src"]);
    let ok = ran_row("stylua", 0, String::new());
    assert_eq!(ok.summary, "ok");
    let bad = ran_row("selene", 1, "2 errors".into());
    assert!(!bad.ok);
    let gone = missing_row("stylua", "install with: aftman add JohnnyMorganz/StyLua");
    let r = FmtReport::new("proj".into(), true, vec![ok, bad, gone]);
    assert_eq!(r.broken, 2);
    assert!(r.fail());
    let lines = fmt_lines(&r);
    assert_eq!(lines[0][2].text, "  proj (check)");
    assert_eq!(lines[2][3].text, "ok");
    assert_eq!(lines[2][3].style, Style::Dimmed);
    assert_eq!(lines[3][3].style, Style::Red);
    assert_eq!(lines[4][2].text, format!(" {:<8} missing · ", "stylua"));
    assert_eq!(lines.last().unwrap()[0].text, "  3 tools · 2 broken");
}

fn empty_facts() -> ProjectFacts {
    ProjectFacts {
        path: "p".into(),
        project: FileState::Missing,
        existing_paths: Vec::new(),
        src_dir: false,
        luaurc: FileState::Missing,
        selene: FileState::Missing,
        stylua: FileState::Missing,
        aftman: FileState::Missing,
        wally: FileState::Missing,
        has_ci: false,
        readme: false,
        gitignore: false,
        rojo_on_path: false,
        selene_on_path: false,
        stylua_on_path: false,
    }
}

#[test]
fn build_is_refused_on_a_failing_check() {
    let failing: Report = inspect(&empty_facts());
    assert!(matches!(build_gate(&failing, true), Err(BuildError::CheckFailed)));
    assert_eq!(
        BuildError::NoRojo.message(),
        "rojo is not installed - install with: aftman add rojo-rbx/rojo"
    );
    assert_eq!(output_name(None, true), "lib.rbxm");
    assert_eq!(output_name(None, false), "game.rbxl");
    assert_eq!(output_name(Some("x.rbxl".into()), false), "x.rbxl");
}

#[test]
fn build_report_lines() {
    let check = inspect(&empty_facts());
    let out = Outcome { code: 0, stdout: "Built project\n".into(), stderr: String::new() };
    let r = BuildReport::new("p".into(), &check, "game.rbxl".into(), &out);
    assert!(!r.fail());
    let lines = build_lines(&r);
    assert_eq!(lines[2][1].text, "F  (0/100)");
    assert_eq!(lines[3][2].text, " rojo  Built project");
    assert_eq!(lines[3][4].text, "game.rbxl");
    assert_eq!(lines[5][1].text, "wrote game.rbxl");
    let failed = Outcome { code: 2, stdout: String::new(), stderr: String::new() };
    let r = BuildReport::new("p".into(), &check, "game.rbxl".into(), &failed);
    assert!(r.fail());
    let lines = build_lines(&r);
    assert_eq!(lines[3][0].text, "  ✗ rojo  build failed");
    assert_eq!(lines[3][0].style, Style::Red);
    assert_eq!(lines[5][1].style, Style::RedBold);
}

#[test]
fn fmt_needs_sources() {
    let err = esmeril::fmt_cmd::fmt_gate("p/src", false).unwrap_err();
    assert_eq!(err.message(), "no src/ directory at 'p/src' - nothing to format");
    assert!(esmeril::fmt_cmd::fmt_gate("p/src", true).is_ok());
}
