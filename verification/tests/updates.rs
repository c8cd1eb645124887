use esmeril::data::TomlValue;
use esmeril::deps::resolve;
use esmeril::render::Style;
use esmeril::update::{
    apply_updates, should_write, update_lines, update_step, ApplyError, UpdateReport, UpdateRow,
    UpdateStep,
};
use esmeril::version::{parse_version, Version};

fn row(section: &str, name: &str, required: &str, latest: &str) -> UpdateRow {
    UpdateRow {
        section: section.into(),
        name: name.into(),
        required: required.into(),
        latest: latest.into(),
    }
}

#[test]
fn apply_preserves_comments_and_formatting() {
    let text = r#"[package]
name = "user/game"
version = "0.1.0"

[dependencies]
# pinned to the old release
Promise = "evaera/promise@0.2.1"
Cmdr = { version = "1.8.4" }
"#;
    let updates = vec![
        row("dependencies", "Promise", "evaera/promise@0.2.1", "evaera/promise@4.0.0"),
        row("dependencies", "Cmdr", "1.8.4", "evaera/cmdr@1.12.0"),
    ];
    let out = apply_updates(text, &updates).unwrap();
    assert!(out.contains("# pinned to the old release"));
    assert!(out.contains("Promise = \"evaera/promise@4.0.0\""));
    assert!(out.contains("version = \"1.12.0\""));
    assert!(out.contains("name = \"user/game\""));
}

#[test]
fn apply_errors_on_unknown_section() {
    let updates = vec![row("nope", "x", "a/b@1.0.0", "a/b@2.0.0")];
    assert!(apply_updates("[package]\nname = \"a/b\"\n", &updates).is_err());
}

#[test]
fn apply_names_each_error() {
    let updates = vec![row("nope", "x", "a/b@1.0.0", "a/b@2.0.0")];
    match apply_updates("[package]\nname = \"a/b\"\n", &updates) {
        Err(e @ ApplyError::MissingSection(_)) => assert_eq!(e.message(), "missing section [nope]"),
        other => panic!("unexpected {other:?}"),
    }
    let updates = vec![row("dependencies", "Gone", "a/b@1.0.0", "a/b@2.0.0")];
    match apply_updates("[dependencies]\nOther = \"a/o@1.0.0\"\n", &updates) {
        Err(e @ ApplyError::MissingDependency(_)) => {
            assert_eq!(e.message(), "missing dependency 'Gone'")
        }
        other => panic!("unexpected {other:?}"),
    }
    match apply_updates("not toml = =", &updates) {
        Err(e @ ApplyError::InvalidToml(_)) => {
            assert!(e.message().starts_with("invalid wally.toml: "))
        }
        other => panic!("unexpected {other:?}"),
    }
}

#[test]
fn apply_keeps_unnamed_entries_and_bare_versions() {
    let text = "[dependencies]\nA = \"s/a@1.0.0\"\nB = \"1.0.0\"\nC = 3\n";
    let updates = vec![
        row("dependencies", "B", "1.0.0", "s/b@2.0.0"),
        row("dependencies", "C", "3", "s/c@2.0.0"),
    ];
    let out = apply_updates(text, &updates).unwrap();
    assert!(out.contains("A = \"s/a@1.0.0\""));
    assert!(out.contains("B = \"2.0.0\""));
    assert!(out.contains("C = 3"));
}

#[test]
fn apply_twice_changes_nothing_more() {
    let text = "[dependencies]\nP = \"e/p@0.2.1\"\nQ = { version = \"1.0.0\" }\n";
    let updates = vec![
        row("dependencies", "P", "e/p@0.2.1", "e/p@4.0.0"),
        row("dependencies", "Q", "1.0.0", "e/q@1.1.0"),
    ];
    let once = apply_updates(text, &updates).unwrap();
    let twice = apply_updates(&once, &updates).unwrap();
    assert_eq!(once, twice);
}

#[test]
fn apply_without_updates_keeps_the_text() {
    let text = "[package]\nname = \"user/game\" # keep\n\n[dependencies]\n";
    assert_eq!(apply_updates(text, &[]).unwrap(), text);
}

fn versions(texts: &[&str]) -> Vec<Version> {
    texts.iter().map(|t| parse_version(t).unwrap()).collect()
}

#[test]
fn update_step_decides_each_dependency() {
    let value = TomlValue::Str("evaera/cmdr@1.8.4".into());
    let target = resolve("Cmdr", &value);
    let step = update_step("dependencies", "Cmdr", &value, &target, Ok(versions(&["1.8.4", "1.12.0", "2.0.0-rc.1"])));
    match step {
        UpdateStep::Current => {}
        other => panic!("unexpected {other:?}"),
    }
    let value = TomlValue::Str("evaera/cmdr@1.8.4".into());
    let step = update_step("dependencies", "Cmdr", &value, &target, Ok(versions(&["1.8.4", "2.0.0"])));
    match step {
        UpdateStep::Bump(r) => {
            assert_eq!(r.latest, "evaera/cmdr@2.0.0");
            assert_eq!(r.required, "evaera/cmdr@1.8.4");
            assert_eq!(r.section, "dependencies");
            assert_eq!(r.name, "Cmdr");
        }
        other => panic!("unexpected {other:?}"),
    }
    assert!(matches!(
        update_step("dependencies", "Cmdr", &value, &target, Err("status 500".into())),
        UpdateStep::Error
    ));
    assert!(matches!(
        update_step("dependencies", "Cmdr", &value, &target, Ok(Vec::new())),
        UpdateStep::Error
    ));
    let pinned = TomlValue::Str("evaera/cmdr@=1.8.4".into());
    let pt = resolve("Cmdr", &pinned);
    assert!(matches!(
        update_step("dependencies", "Cmdr", &pinned, &pt, Ok(versions(&["1.8.4", "2.0.0"]))),
        UpdateStep::Pinned
    ));
    assert!(matches!(
        update_step("dependencies", "Cmdr", &pinned, &pt, Ok(versions(&["1.8.4"]))),
        UpdateStep::Current
    ));
    let tilde = TomlValue::Str("evaera/cmdr@~1.8.0".into());
    let tt = resolve("Cmdr", &tilde);
    assert!(matches!(
        update_step("dependencies", "Cmdr", &tilde, &tt, Ok(versions(&["1.8.4", "1.9.0"]))),
        UpdateStep::Bump(_)
    ));
    assert!(matches!(
        update_step("dependencies", "Cmdr", &value, &target, Ok(versions(&["3.0.0-rc.1"]))),
        UpdateStep::Error
    ));
    let git = TomlValue::Table(Vec::new(), "{ git = \"x\" }".into());
    let g = resolve("G", &git);
    assert!(matches!(update_step("dependencies", "G", &git, &g, Ok(Vec::new())), UpdateStep::Skip));
}

#[test]
fn update_report_counts_and_lines() {
    let steps = vec![
        UpdateStep::Current,
        UpdateStep::Bump(row("dependencies", "P", "e/p@0.2.1", "e/p@4.0.0")),
        UpdateStep::Error,
        UpdateStep::Skip,
        UpdateStep::Pinned,
        UpdateStep::Bump(row("dev-dependencies", "T", "r/t@0.4.0", "r/t@0.5.0")),
    ];
    let r = UpdateReport::new("proj".into(), false, steps);
    assert_eq!(r.updates.len(), 2);
    assert_eq!(r.updates[0].name, "P");
    assert_eq!(r.updates[1].name, "T");
    assert_eq!((r.up_to_date, r.errors), (1, 1));
    assert!(r.fail());
    assert!(should_write(true, &r.updates));
    assert!(!should_write(false, &r.updates));
    assert!(!should_write(true, &Vec::new()));
    let lines = update_lines(&r);
    assert_eq!(lines[2][1].text, "dependencies");
    assert_eq!(lines[2][2].text, format!(" {:<28} ", "P"));
    assert_eq!(lines[2][7].text, "e/p@4.0.0");
    assert_eq!(lines[2][7].style, Style::Green);
    let last = lines.last().unwrap();
    assert_eq!(last[0].text, "  2 outdated · 1 up to date · 1 errors");
    assert_eq!(last[0].style, Style::RedBold);

    let clean = UpdateReport::new(
        "proj".into(),
        true,
        vec![UpdateStep::Bump(row("dependencies", "P", "e/p@0.2.1", "e/p@4.0.0"))],
    );
    let last = update_lines(&clean).pop().unwrap();
    assert_eq!(last[1].text, " · wally.toml updated");
    let none = UpdateReport::new("proj".into(), false, vec![UpdateStep::Current]);
    let lines = update_lines(&none);
    assert_eq!(lines[2][0].text, "  everything is up to date");
    assert_eq!(lines.last().unwrap()[0].style, Style::Green);
}
