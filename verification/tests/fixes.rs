use esmeril::check::{inspect, project_paths, ProjectFacts};
use esmeril::data::{FileState, JsonValue, TomlValue};
use esmeril::check::project_file_state;
use esmeril::fix::{
    apply, config_invalid, finish, is_lib, path_entries, path_state_of, project_name,
    sorted_paths, FixEntry, FixResult, PathState,
};
use esmeril::template::files;

type Files = Vec<(String, String)>;

fn json_of(v: &serde_json::Value) -> JsonValue {
    match v {
        serde_json::Value::String(s) => JsonValue::Str(s.clone()),
        serde_json::Value::Array(a) => JsonValue::Array(a.iter().map(json_of).collect()),
        serde_json::Value::Object(m) => {
            JsonValue::Object(m.iter().map(|(k, x)| (k.clone(), json_of(x))).collect())
        }
        _ => JsonValue::Other,
    }
}

fn toml_of(v: &toml::Value) -> TomlValue {
    match v {
        toml::Value::String(s) => TomlValue::Str(s.clone()),
        toml::Value::Table(t) => TomlValue::Table(
            t.iter().map(|(k, x)| (k.clone(), toml_of(x))).collect(),
            v.to_string(),
        ),
        other => TomlValue::Other(other.to_string()),
    }
}

fn text_of<'a>(fs: &'a Files, rel: &str) -> Option<&'a str> {
    fs.iter().find(|(r, _)| r == rel).map(|(_, c)| c.as_str())
}

fn present_at(fs: &Files, rel: &str) -> bool {
    let dir = format!("{rel}/");
    fs.iter().any(|(r, _)| r == rel || r.starts_with(&dir))
}

fn is_dir(fs: &Files, rel: &str) -> bool {
    let dir = format!("{rel}/");
    fs.iter().any(|(r, _)| r.starts_with(&dir))
}

fn json_file(fs: &Files, rel: &str) -> FileState<JsonValue> {
    match text_of(fs, rel) {
        None => FileState::Missing,
        Some(t) => match serde_json::from_str::<serde_json::Value>(t) {
            Ok(v) => FileState::Parsed(json_of(&v)),
            Err(_) => FileState::Invalid,
        },
    }
}

fn toml_file(fs: &Files, rel: &str) -> FileState<TomlValue> {
    match text_of(fs, rel) {
        None => FileState::Missing,
        Some(t) => match toml::from_str::<toml::Value>(t) {
            Ok(v) => FileState::Parsed(toml_of(&v)),
            Err(_) => FileState::Invalid,
        },
    }
}

fn facts(fs: &Files) -> ProjectFacts {
    let project = json_file(fs, "default.project.json");
    let existing_paths = project_paths(&project)
        .into_iter()
        .filter(|p| present_at(fs, p))
        .collect();
    ProjectFacts {
        path: "proj".to_string(),
        project,
        existing_paths,
        src_dir: is_dir(fs, "src"),
        luaurc: json_file(fs, ".luaurc"),
        selene: toml_file(fs, ".selene.toml"),
        stylua: toml_file(fs, "stylua.toml"),
        aftman: toml_file(fs, "aftman.toml"),
        wally: toml_file(fs, "wally.toml"),
        has_ci: is_dir(fs, ".github/workflows"),
        readme: present_at(fs, "README.md"),
        gitignore: present_at(fs, ".gitignore"),
        rojo_on_path: true,
        selene_on_path: true,
        stylua_on_path: true,
    }
}

fn state(fs: &Files, rel: &str) -> PathState {
    path_state_of(present_at(fs, rel), text_of(fs, rel))
}

/// A fix run on a directory named `dir` holding `fs`, as the command performs it.
fn run_fix(dir: &str, fs: &mut Files) -> (Vec<String>, Vec<String>) {
    let project = project_file_state(text_of(fs, "default.project.json"));
    let name = project_name(&project, Some(dir));
    let lib = is_lib(&project, present_at(fs, "src/init.lua"), present_at(fs, "src/server"));
    let project_exists = present_at(fs, "default.project.json");
    let entries: Vec<FixEntry> = files(&name, false, lib)
        .into_iter()
        .map(|(rel, content)| {
            let st = state(fs, &rel);
            FixEntry { rel, content, state: st }
        })
        .collect();
    let plan = apply(&entries, project_exists);
    for (rel, content) in &plan.writes {
        fs.push((rel.clone(), content.clone()));
    }
    let project = project_file_state(text_of(fs, "default.project.json"));
    let paths = sorted_paths(&project_paths(&project));
    let dirs: Vec<(String, bool)> = paths.iter().map(|p| (p.clone(), is_dir(fs, p))).collect();
    let (writes, result) = finish(plan.result, &dirs);
    for (rel, content) in &writes {
        fs.push((rel.clone(), content.clone()));
    }
    (result.created, result.needs_attention)
}

#[test]
fn fix_upgrades_a_bare_dir_to_an_a_grade() {
    let mut fs: Files = vec![("README.md".into(), "hello".into())];
    let (created, attention) = run_fix("bare", &mut fs);
    assert!(!created.is_empty());
    assert!(attention.is_empty());
    let report = inspect(&facts(&fs));
    assert_eq!(report.score, 100);
    assert_eq!(report.grade, 'A');
    assert_eq!(text_of(&fs, "README.md"), Some("hello"));
}

#[test]
fn fix_creates_missing_path_dirs() {
    let mut fs: Files = vec![(
        "default.project.json".into(),
        r#"{"name": "g", "tree": { "a": { "$path": "src/custom" } }}"#.into(),
    )];
    let (created, _) = run_fix("paths", &mut fs);
    assert!(created.contains(&"src/custom/init.lua".to_string()));
    assert!(present_at(&fs, "src/custom/init.lua"));
    assert!(!created.contains(&"default.project.json".to_string()));
}

#[test]
fn fix_reports_invalid_configs_without_touching_them() {
    let mut fs: Files = vec![(".selene.toml".into(), "not toml =".into())];
    let (created, attention) = run_fix("invalid", &mut fs);
    assert!(attention.contains(&".selene.toml".to_string()));
    assert!(!created.contains(&".selene.toml".to_string()));
    assert_eq!(text_of(&fs, ".selene.toml"), Some("not toml ="));
}

#[test]
fn fix_is_idempotent() {
    let mut fs: Files = Vec::new();
    run_fix("idem", &mut fs);
    let (created, attention) = run_fix("idem", &mut fs);
    assert!(created.is_empty());
    assert!(attention.is_empty());
}

#[test]
fn fix_names_the_project_after_its_file_or_directory() {
    let mut fs: Files = Vec::new();
    run_fix("My Dir", &mut fs);
    assert!(text_of(&fs, "wally.toml").unwrap().contains("name = \"user/my-dir\""));
    let parsed = json_file(&fs, "default.project.json");
    assert_eq!(project_name(&parsed, Some("other")), "My Dir");
    assert_eq!(project_name(&FileState::Invalid, None), "game");
}

#[test]
fn library_is_recognised() {
    let lib_fs = files("l", false, true);
    let p = json_file(&lib_fs, "default.project.json");
    assert!(is_lib(&p, false, false));
    let game_fs = files("g", false, false);
    let p = json_file(&game_fs, "default.project.json");
    assert!(!is_lib(&p, false, false));
    assert!(is_lib(&FileState::Missing, true, false));
    assert!(!is_lib(&FileState::Missing, true, true));
}

#[test]
fn invalid_configs_by_name() {
    let broken = PathState::Present { read: true, json: false, toml: false };
    assert!(config_invalid("default.project.json", broken));
    assert!(config_invalid("wally.toml", broken));
    assert!(!config_invalid("README.md", broken));
    assert!(!config_invalid(".luaurc", PathState::Present { read: false, json: false, toml: false }));
    assert!(!config_invalid(".luaurc", PathState::Absent));
    let toml_only = PathState::Present { read: true, json: false, toml: true };
    assert!(!config_invalid("stylua.toml", toml_only));
    assert!(config_invalid(".luaurc", toml_only));
}

#[test]
fn fix_writes_only_absent_files() {
    let mut fs: Files = vec![
        ("stylua.toml".into(), "custom = 1\n".into()),
        (".luaurc".into(), "{ bad".into()),
    ];
    let (created, attention) = run_fix("w", &mut fs);
    assert!(!created.contains(&"stylua.toml".to_string()));
    assert!(!created.contains(&".luaurc".to_string()));
    assert_eq!(attention, vec![".luaurc".to_string()]);
    assert_eq!(text_of(&fs, "stylua.toml"), Some("custom = 1\n"));
}

#[test]
fn sorted_paths_drop_repeats() {
    let ps = vec!["src/b".to_string(), "src/a".to_string(), "src/b".to_string()];
    assert_eq!(sorted_paths(&ps), vec!["src/a", "src/b"]);
    let dirs = vec![("src/a".to_string(), true), ("src/b".to_string(), false)];
    assert_eq!(path_entries(&dirs), vec!["src/b/init.lua"]);
}

#[test]
fn fix_flags_an_invalid_project_file() {
    let mut fs: Files = vec![("default.project.json".into(), "{ not json".into())];
    let (created, attention) = run_fix("broken", &mut fs);
    assert!(attention.contains(&"default.project.json".to_string()));
    assert!(!created.contains(&"default.project.json".to_string()));
    assert_eq!(text_of(&fs, "default.project.json"), Some("{ not json"));
}

#[test]
fn path_writes_hold_an_empty_module() {
    let dirs = vec![("src/a".to_string(), true), ("src/b".to_string(), false)];
    let start = FixResult { created: vec!["x".to_string()], needs_attention: vec!["y".to_string()] };
    let (writes, result) = finish(start, &dirs);
    assert_eq!(writes, vec![("src/b/init.lua".to_string(), "return {}\n".to_string())]);
    assert_eq!(result.created, vec!["x", "src/b/init.lua"]);
    assert_eq!(result.needs_attention, vec!["y"]);
}

#[test]
fn path_state_reads_the_text() {
    assert!(matches!(path_state_of(false, None), PathState::Absent));
    assert!(matches!(
        path_state_of(true, None),
        PathState::Present { read: false, json: false, toml: false }
    ));
    assert!(matches!(
        path_state_of(true, Some("{}")),
        PathState::Present { read: true, json: true, toml: false }
    ));
    assert!(matches!(
        path_state_of(true, Some("a = 1")),
        PathState::Present { read: true, json: false, toml: true }
    ));
}

#[test]
fn fix_never_creates_what_it_flags() {
    let mut fs: Files = vec![
        (".selene.toml".into(), "not toml =".into()),
        (".luaurc".into(), "{ nope".into()),
        ("wally.toml".into(), "[package".into()),
    ];
    let (created, attention) = run_fix("mixed", &mut fs);
    assert_eq!(attention.len(), 3);
    assert!(!created.is_empty());
    assert!(created.iter().all(|c| !attention.contains(c)));
}
