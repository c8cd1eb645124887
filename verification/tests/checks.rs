use esmeril::check::{
    aftman_ok, collect_paths, grade, inspect, luaurc_ok, project_facts, project_file_state,
    project_paths, render_markdown, report_lines, valid_tool_spec, wally_ok, CheckRow,
    ProjectFacts, ProjectFiles, Report,
};
use esmeril::data::{file_state_json, file_state_toml, FileState, JsonValue, TomlValue};
use esmeril::render::Style;
use esmeril::template::files;

type Files = Vec<(String, String)>;

fn json_of(v: &serde_json::Value) -> JsonValue {
    match v {
        serde_json::Value::String(s) => JsonValue::Str(s.clone()),
        serde_json::Value::Array(a) => JsonValue::Array(a.iter().map(json_of).collect()),
        serde_json::Value::Object(m) => {
            JsonValue::Object(m.iter().map(|(k, x)| (k.clone(), json_of(x))).collect())
        }
        _ => JsonValue::Other,
    }
}

fn toml_of(v: &toml::Value) -> TomlValue {
    match v {
        toml::Value::String(s) => TomlValue::Str(s.clone()),
        toml::Value::Table(t) => TomlValue::Table(
            t.iter().map(|(k, x)| (k.clone(), toml_of(x))).collect(),
            v.to_string(),
        ),
        other => TomlValue::Other(other.to_string()),
    }
}

fn text_of<'a>(fs: &'a Files, rel: &str) -> Option<&'a str> {
    fs.iter().find(|(r, _)| r == rel).map(|(_, c)| c.as_str())
}

fn read(fs: &Files, rel: &str) -> (bool, Option<String>) {
    (present_at(fs, rel), text_of(fs, rel).map(|t| t.to_string()))
}

fn present_at(fs: &Files, rel: &str) -> bool {
    let dir = format!("{rel}/");
    fs.iter().any(|(r, _)| r == rel || r.starts_with(&dir))
}

/// The facts a directory holding exactly `fs` shows, with every tool on PATH.
fn facts(fs: &Files) -> ProjectFacts {
    let project = text_of(fs, "default.project.json").map(|t| t.to_string());
    let state = project_file_state(project.as_deref());
    let existing_paths = project_paths(&state)
        .into_iter()
        .filter(|p| present_at(fs, p))
        .collect();
    project_facts(ProjectFiles {
        path: "proj".to_string(),
        project,
        existing_paths,
        src_dir: present_at(fs, "src"),
        luaurc: read(fs, ".luaurc"),
        selene: read(fs, ".selene.toml"),
        stylua: read(fs, "stylua.toml"),
        aftman: read(fs, "aftman.toml"),
        wally: read(fs, "wally.toml"),
        has_ci: present_at(fs, ".github/workflows"),
        readme: present_at(fs, "README.md"),
        gitignore: present_at(fs, ".gitignore"),
        rojo_on_path: true,
        selene_on_path: true,
        stylua_on_path: true,
    })
}

fn template() -> Files {
    files("template", false, false)
}

fn put(fs: &mut Files, rel: &str, content: &str) {
    fs.retain(|(r, _)| r != rel);
    fs.push((rel.to_string(), content.to_string()));
}

fn remove_tree(fs: &mut Files, rel: &str) {
    let dir = format!("{rel}/");
    fs.retain(|(r, _)| r != rel && !r.starts_with(&dir));
}

fn find<'a>(r: &'a Report, label: &str) -> &'a CheckRow {
    r.checks.iter().find(|c| c.label == label).unwrap()
}

#[test]
fn grade_boundaries() {
    assert_eq!(grade(100), 'A');
    assert_eq!(grade(90), 'A');
    assert_eq!(grade(89), 'B');
    assert_eq!(grade(75), 'B');
    assert_eq!(grade(74), 'C');
    assert_eq!(grade(60), 'C');
    assert_eq!(grade(59), 'D');
    assert_eq!(grade(45), 'D');
    assert_eq!(grade(44), 'F');
    assert_eq!(grade(0), 'F');
}

#[test]
fn fresh_template_scores_full() {
    let r = inspect(&facts(&template()));
    assert_eq!(r.score, 100, "{:?}", r.checks);
    assert_eq!(r.grade, 'A');
    assert!(!r.fail());
}

#[test]
fn init_produces_an_a_project() {
    let report = inspect(&facts(&files("esmeril-init-a", false, false)));
    assert_eq!(report.score, 100);
    assert_eq!(report.grade, 'A');
    assert!(!report.fail());
}

#[test]
fn init_lib_produces_an_a_project() {
    let fs = files("esmeril-init-lib", false, true);
    let report = inspect(&facts(&fs));
    assert_eq!(report.score, 100);
    assert_eq!(report.grade, 'A');
    assert!(present_at(&fs, "src/init.lua"));
    assert!(!present_at(&fs, "src/server"));
}

#[test]
fn init_strict_sets_language_mode() {
    let fs = files("esmeril-init-strict", true, false);
    assert!(text_of(&fs, ".luaurc").unwrap().contains("Strict"));
}

#[test]
fn init_kebab_cases_wally_name() {
    let fs = files("My Game", false, false);
    let wally = text_of(&fs, "wally.toml").unwrap();
    assert!(wally.contains("name = \"user/my-game\""), "{wally}");
    let report = inspect(&facts(&fs));
    assert_eq!(report.score, 100);
    assert_eq!(report.grade, 'A');
}

#[test]
fn empty_dir_scores_zero() {
    let r = inspect(&facts(&Vec::new()));
    assert_eq!(r.score, 0);
    assert_eq!(r.grade, 'F');
    assert!(r.fail());
}

#[test]
fn missing_src_fails_paths_and_src() {
    let mut fs = template();
    remove_tree(&mut fs, "src");
    let r = inspect(&facts(&fs));
    assert!(!find(&r, "project paths").ok);
    assert!(!find(&r, "src/").ok);
    assert_eq!(r.score, 80);
    assert!(r.fail());
}

#[test]
fn broken_project_json_fails_parse_and_paths() {
    let mut fs = template();
    put(&mut fs, "default.project.json", "{ not json");
    let r = inspect(&facts(&fs));
    assert!(!find(&r, "default.project.json").ok);
    assert!(!find(&r, "project paths").ok);
}

#[test]
fn luaurc_without_language_mode_is_broken() {
    let mut fs = template();
    put(&mut fs, ".luaurc", "{}\n");
    let r = inspect(&facts(&fs));
    let luaurc = find(&r, ".luaurc");
    assert!(!luaurc.ok);
    assert_eq!(luaurc.state.as_str(), "broken");
    assert_eq!(r.score, 90);
}

#[test]
fn states_distinguish_missing_invalid_broken() {
    let mut fs = template();
    put(&mut fs, "default.project.json", "{ not json");
    let r = inspect(&facts(&fs));
    assert_eq!(find(&r, "default.project.json").state.as_str(), "invalid");
    assert_eq!(find(&r, "project paths").state.as_str(), "invalid");
    put(&mut fs, ".selene.toml", "not toml =");
    let r = inspect(&facts(&fs));
    assert_eq!(find(&r, ".selene.toml").state.as_str(), "invalid");
    remove_tree(&mut fs, ".selene.toml");
    let r = inspect(&facts(&fs));
    assert_eq!(find(&r, ".selene.toml").state.as_str(), "missing");
}

#[test]
fn luaurc_with_invalid_mode_is_broken() {
    let mut fs = template();
    put(&mut fs, ".luaurc", "{\"languageMode\": {\"src/\": \"Typo\"}}\n");
    let r = inspect(&facts(&fs));
    let luaurc = find(&r, ".luaurc");
    assert!(!luaurc.ok);
    assert_eq!(luaurc.state.as_str(), "broken");
}

#[test]
fn aftman_bad_spec_format_is_broken() {
    let mut fs = template();
    put(
        &mut fs,
        "aftman.toml",
        "[tools]\nrojo = \"not-a-spec\"\nselene = \"Kampfkarren/selene@0.31.0\"\nstylua = \"JohnnyMorganz/StyLua@2.5.0\"\n",
    );
    let r = inspect(&facts(&fs));
    let aftman = find(&r, "aftman.toml");
    assert!(!aftman.ok);
    assert_eq!(aftman.state.as_str(), "broken");
}

#[test]
fn wally_without_package_is_broken() {
    let mut fs = template();
    put(&mut fs, "wally.toml", "[dependencies]\n");
    let r = inspect(&facts(&fs));
    let wally = find(&r, "wally.toml");
    assert!(!wally.ok);
    assert_eq!(wally.state.as_str(), "broken");
    assert_eq!(r.score, 95);
}

#[test]
fn missing_aftman_tool_fails() {
    let mut fs = template();
    put(&mut fs, "aftman.toml", "[tools]\nrojo = \"rojo-rbx/rojo@7.7.0\"\n");
    let r = inspect(&facts(&fs));
    assert!(!find(&r, "aftman.toml").ok);
    assert_eq!(r.score, 85);
}

#[test]
fn recommended_missing_keeps_a_grade() {
    let mut fs = template();
    remove_tree(&mut fs, "wally.toml");
    remove_tree(&mut fs, ".github");
    let r = inspect(&facts(&fs));
    assert_eq!(r.score, 90);
    assert_eq!(r.grade, 'A');
    assert!(!r.fail());
}

#[test]
fn markdown_renders_table() {
    let r = inspect(&facts(&template()));
    let md = render_markdown(&r);
    assert!(md.contains("| default.project.json | 15 | ✓ |"));
    assert!(md.contains("**grade: A (100/100)**"));
    assert!(md.contains("info: ✓ README.md, ✓ .gitignore"));
}

#[test]
fn collect_paths_nested() {
    let value: serde_json::Value = serde_json::from_str(
        r#"{ "a": { "$path": "src/a" }, "b": { "c": { "$path": "src/b/c" } } }"#,
    )
    .unwrap();
    assert_eq!(collect_paths(&json_of(&value)), vec!["src/a", "src/b/c"]);
}

#[test]
fn score_is_the_sum_of_passing_weights() {
    let r = inspect(&facts(&template()));
    let total: u32 = r.checks.iter().map(|c| c.weight as u32).sum();
    assert_eq!(total, 100);
    let mut fs = template();
    remove_tree(&mut fs, "stylua.toml");
    let r = inspect(&facts(&fs));
    let passing: u32 = r.checks.iter().filter(|c| c.ok).map(|c| c.weight as u32).sum();
    assert_eq!(r.score as u32, passing);
    assert_eq!(r.score, 85);
    assert_eq!(find(&r, "stylua.toml").fix, Some("add stylua.toml"));
}

#[test]
fn project_paths_detail_lists_declared_paths() {
    let r = inspect(&facts(&template()));
    assert_eq!(
        find(&r, "project paths").detail.as_deref(),
        Some("src/shared, src/server, src/client")
    );
    assert!(find(&r, "src/").detail.is_none());
}

#[test]
fn config_predicates() {
    assert!(valid_tool_spec("rojo-rbx/rojo@7.7.0"));
    assert!(valid_tool_spec("owner/tool.exe@1"));
    assert!(!valid_tool_spec("rojo-rbx/rojo@"));
    assert!(!valid_tool_spec("rojo@7.7.0"));
    assert!(!valid_tool_spec("a/b/c@1"));
    let luau = |t: &str| json_of(&serde_json::from_str::<serde_json::Value>(t).unwrap());
    assert!(luaurc_ok(&luau("{\"languageMode\": \"Strict\"}")));
    assert!(!luaurc_ok(&luau("{\"languageMode\": {}}")));
    assert!(!luaurc_ok(&luau("{\"languageMode\": 3}")));
    let tml = |t: &str| toml_of(&toml::from_str::<toml::Value>(t).unwrap());
    assert!(!aftman_ok(&tml("tools = 3")));
    assert!(wally_ok(&tml(
        "[package]\nname = \"a/b\"\nversion = \"0.1.0\"\nregistry = \"https://x\"\nrealm = \"server\"\n"
    )));
    assert!(!wally_ok(&tml(
        "[package]\nname = \"a/b\"\nversion = \"0.1.0\"\nregistry = \"http://x\"\nrealm = \"server\"\n"
    )));
    assert!(!wally_ok(&tml(
        "[package]\nname = \"ab\"\nversion = \"0.1.0\"\nregistry = \"https://x\"\nrealm = \"shared\"\n"
    )));
}

#[test]
fn text_report_lines() {
    let mut fs = template();
    put(&mut fs, ".luaurc", "{}\n");
    let r = inspect(&facts(&fs));
    let lines = report_lines(&r);
    assert_eq!(lines[0][1].text, "esmeril check");
    assert_eq!(lines[2][0].text, "  tooling");
    let luau_line = &lines[3 + 3];
    assert_eq!(luau_line[1].text, "✗");
    assert_eq!(luau_line[1].style, Style::Red);
    let last = lines.last().unwrap();
    assert_eq!(last[1].text, "A  (90/100)");
    assert_eq!(last[1].style, Style::GreenBold);
}

#[test]
fn check_bails_on_missing_path() {
    let err = esmeril::check::check_gate("esmeril-missing-path", false, false).unwrap_err();
    assert!(err.message().contains("does not exist"));
    assert_eq!(
        err.message(),
        "path 'esmeril-missing-path' does not exist (use --fix to scaffold it)"
    );
    assert!(esmeril::check::check_gate("x", true, false).is_ok());
    assert!(esmeril::check::check_gate("x", false, true).is_ok());
}

#[test]
fn fix_report_lines() {
    let r = esmeril::fix::FixResult {
        created: vec!["a.toml".to_string()],
        needs_attention: vec![".luaurc".to_string()],
    };
    let lines = esmeril::fix::fix_lines(&r, 'A', 95);
    assert_eq!(lines[1][0].text, "  fixing");
    assert_eq!(lines[2][2].text, " a.toml ");
    assert_eq!(lines[2][3].text, "created");
    assert_eq!(lines[3][3].text, "exists but invalid - remove it and run --fix again");
    assert_eq!(lines.last().unwrap()[1].text, "A  (95/100)");
    let none = esmeril::fix::FixResult { created: Vec::new(), needs_attention: Vec::new() };
    let lines = esmeril::fix::fix_lines(&none, 'F', 0);
    assert_eq!(lines[2][0].text, "  nothing to fix");
}

#[test]
fn project_without_paths_passes_the_paths_row() {
    let mut fs = template();
    put(&mut fs, "default.project.json", "{\"name\": \"g\", \"tree\": {\"$className\": \"DataModel\"}}");
    let r = inspect(&facts(&fs));
    let paths = find(&r, "project paths");
    assert!(paths.ok);
    assert!(paths.detail.is_none());
    assert_eq!(r.score, 100);
}

#[test]
fn file_states_read_the_text() {
    assert!(matches!(file_state_json(false, None), FileState::Missing));
    assert!(matches!(file_state_json(true, None), FileState::Invalid));
    assert!(matches!(file_state_json(true, Some("{ nope")), FileState::Invalid));
    match file_state_json(true, Some("{\"b\": \"x\", \"a\": [1]}")) {
        FileState::Parsed(JsonValue::Object(es)) => {
            assert_eq!(es.len(), 2);
            assert_eq!(es[0].0, "a");
            assert!(matches!(&es[1].1, JsonValue::Str(s) if s == "x"));
        }
        other => panic!("unexpected {other:?}"),
    }
    assert!(matches!(file_state_toml(true, Some("x = =")), FileState::Invalid));
    match file_state_toml(true, Some("[t]\nk = \"v\"\nn = 3\n")) {
        FileState::Parsed(TomlValue::Table(es, _)) => match &es[0].1 {
            TomlValue::Table(inner, _) => {
                assert!(matches!(&inner[0].1, TomlValue::Str(s) if s == "v"));
                assert!(matches!(&inner[1].1, TomlValue::Other(t) if t == "3"));
            }
            other => panic!("unexpected {other:?}"),
        },
        other => panic!("unexpected {other:?}"),
    }
    assert!(matches!(project_file_state(None), FileState::Missing));
}
