use esmeril::data::TomlValue;
use esmeril::deps::{
    arrange_versions, audit, deps_lines, manifest_url, parse_manifest, parse_specs, raw_base,
    registry, resolve, wally_document, DepStatus, DepsError, DepsReport, Target,
};
use esmeril::render::Style;
use esmeril::requirement::latest_stable;
use esmeril::version::{parse_version, Version};

const CMDR_MANIFEST: &str = r#"{"package":{"name":"evaera/cmdr","version":"1.8.4","registry":"https://github.com/UpliftGames/wally-index","realm":"server"}}
{"package":{"name":"evaera/cmdr","version":"1.9.0","registry":"https://github.com/UpliftGames/wally-index","realm":"shared"}}
{"package":{"name":"evaera/cmdr","version":"1.12.0","registry":"https://github.com/UpliftGames/wally-index","realm":"shared"}}
{"package":{"name":"evaera/cmdr","version":"1.13.0-rc.3","registry":"https://github.com/UpliftGames/wally-index","realm":"server"}}
"#;

fn toml_of(v: &toml::Value) -> TomlValue {
    match v {
        toml::Value::String(s) => TomlValue::Str(s.clone()),
        toml::Value::Table(t) => TomlValue::Table(
            t.iter().map(|(k, x)| (k.clone(), toml_of(x))).collect(),
            v.to_string(),
        ),
        other => TomlValue::Other(other.to_string()),
    }
}

fn toml_doc(text: &str) -> Option<TomlValue> {
    toml::from_str::<toml::Value>(text).ok().map(|v| toml_of(&v))
}

fn specs_of(text: &str) -> Vec<(String, String)> {
    parse_specs(text)
        .iter()
        .map(|(s, a, _)| (s.clone(), a.clone()))
        .collect()
}

fn v(s: &str) -> Version {
    parse_version(s).unwrap()
}

#[test]
fn latest_prefers_stable() {
    let versions = parse_manifest(CMDR_MANIFEST);
    assert_eq!(versions.len(), 4);
    let latest = latest_stable(&versions).unwrap();
    assert_eq!(latest.to_string(), "1.12.0");
}

#[test]
fn manifest_ignores_garbage_lines() {
    let text = format!(
        "not json\n{CMDR_MANIFEST}\n{{\"package\":{{\"name\":\"x\",\"version\":\"oops\"}}}}\n"
    );
    assert_eq!(parse_manifest(&text).len(), 4);
}

#[test]
fn raw_base_conversions() {
    assert_eq!(
        raw_base("https://github.com/UpliftGames/wally-index").unwrap(),
        "https://raw.githubusercontent.com/UpliftGames/wally-index/main"
    );
    assert_eq!(
        raw_base("https://github.com/UpliftGames/wally-index.git/").unwrap(),
        "https://raw.githubusercontent.com/UpliftGames/wally-index/main"
    );
}

#[test]
fn raw_base_rejects_other_hosts() {
    assert!(raw_base("https://gitlab.com/x/y").is_err());
    assert!(raw_base("https://github.com/onlyowner").is_err());
}

#[test]
fn raw_base_errors_name_the_registry() {
    match raw_base("https://gitlab.com/x/y") {
        Err(e @ DepsError::UnsupportedRegistry(_)) => assert_eq!(
            e.message(),
            "unsupported registry 'https://gitlab.com/x/y': only github.com registries are supported"
        ),
        other => panic!("unexpected {other:?}"),
    }
    match raw_base("https://github.com/onlyowner") {
        Err(e @ DepsError::BadRegistry(_)) => {
            assert_eq!(e.message(), "cannot parse registry 'https://github.com/onlyowner'")
        }
        other => panic!("unexpected {other:?}"),
    }
    assert_eq!(
        raw_base("http://github.com/a/b/").unwrap(),
        "https://raw.githubusercontent.com/a/b/main"
    );
}

#[test]
fn registry_reads_the_package_table() {
    let doc = toml_doc("[package]\nregistry = \"https://github.com/a/b\"\n").unwrap();
    assert_eq!(registry(&doc).unwrap(), "https://github.com/a/b");
    let none = toml_doc("[package]\nname = \"a/b\"\n").unwrap();
    assert!(matches!(registry(&none), Err(DepsError::NoRegistry)));
    assert_eq!(
        DepsError::NoRegistry.message(),
        "wally.toml has no [package].registry"
    );
}

#[test]
fn specs_parse_all_sections() {
    let text = r#"
[package]
name = "user/game"
version = "0.1.0"

[dependencies]
Promise = "evaera/promise@0.2.1"
Cmdr = { version = "1.12.0" }
GitDep = { git = "https://github.com/user/repo.git", rev = "abc" }

[server-dependencies]
Fusion = "elttob/fusion@0.3.0"

[dev-dependencies]
TestEZ = "roblox/testez@0.4.2"
"#;
    let specs = specs_of(text);
    assert_eq!(specs.len(), 5);
    let values: Vec<(&str, &str)> = specs
        .iter()
        .map(|(s, a)| (s.as_str(), a.as_str()))
        .collect();
    assert!(values.contains(&("dependencies", "Promise")));
    assert!(values.contains(&("dependencies", "Cmdr")));
    assert!(values.contains(&("dependencies", "GitDep")));
    assert!(values.contains(&("server-dependencies", "Fusion")));
    assert!(values.contains(&("dev-dependencies", "TestEZ")));
}

#[test]
fn specs_come_sorted_by_section_then_alias() {
    let text = "[server-dependencies]\nB = \"a/b@1.0.0\"\nA = \"a/a@1.0.0\"\n[dependencies]\nZ = \"a/z@1.0.0\"\n";
    let specs = specs_of(text);
    let got: Vec<(&str, &str)> = specs.iter().map(|(s, a)| (s.as_str(), a.as_str())).collect();
    assert_eq!(
        got,
        vec![("dependencies", "Z"), ("server-dependencies", "A"), ("server-dependencies", "B")]
    );
}

#[test]
fn resolve_registry_spec() {
    let value: toml::Value = toml::from_str("s = \"evaera/cmdr@1.8.4\"").unwrap();
    let t = resolve("Cmdr", &toml_of(value.get("s").unwrap()));
    match t {
        Target::Registry { name, req } => {
            assert_eq!(name, "evaera/cmdr");
            assert!(req.satisfies(&parse_version("1.8.4").unwrap()));
        }
        _ => panic!("expected registry target"),
    }
}

#[test]
fn resolve_git_and_short_names() {
    let value: toml::Value =
        toml::from_str("g = { git = \"https://github.com/x/y.git\" }").unwrap();
    assert!(matches!(
        resolve("Dep", &toml_of(value.get("g").unwrap())),
        Target::Git
    ));

    let value: toml::Value = toml::from_str("v = \"0.2.1\"").unwrap();
    assert!(matches!(
        resolve("Promise", &toml_of(value.get("v").unwrap())),
        Target::Unsupported(_)
    ));
    assert!(matches!(
        resolve("evaera/promise", &toml_of(value.get("v").unwrap())),
        Target::Registry { .. }
    ));
}

#[test]
fn resolve_explains_what_it_cannot_use() {
    let s = |t: &str| TomlValue::Str(t.to_string());
    match resolve("Promise", &s("0.2.1")) {
        Target::Unsupported(n) => assert_eq!(
            n,
            "short name without scope; use 'Promise@<version>' or 'scope/Promise@<version>'"
        ),
        _ => panic!("expected unsupported"),
    }
    match resolve("X", &s("a/b@what")) {
        Target::Unsupported(n) => assert_eq!(n, "cannot parse version requirement 'what'"),
        _ => panic!("expected unsupported"),
    }
    match resolve("X", &s("nonsense")) {
        Target::Unsupported(n) => assert_eq!(n, "cannot parse 'nonsense'"),
        _ => panic!("expected unsupported"),
    }
    let value: toml::Value = toml::from_str("o = 3").unwrap();
    match resolve("X", &toml_of(value.get("o").unwrap())) {
        Target::Unsupported(n) => assert_eq!(n, "unknown dependency form '3'"),
        _ => panic!("expected unsupported"),
    }
    let value: toml::Value = toml::from_str("t = { version = \"^1.2.0\" }").unwrap();
    match resolve("sc/name", &toml_of(value.get("t").unwrap())) {
        Target::Registry { name, req } => {
            assert_eq!(name, "sc/name");
            assert!(req.satisfies(&v("1.9.9")));
        }
        _ => panic!("expected registry"),
    }
}

#[test]
fn specs_empty_without_deps() {
    assert!(specs_of("[package]\nname = \"a/b\"\n").is_empty());
}

#[test]
fn specs_invalid_toml_is_empty() {
    assert!(specs_of("not toml = =").is_empty());
}

fn reg(text: &str) -> (TomlValue, Target) {
    let value = TomlValue::Str(text.to_string());
    let t = resolve("Cmdr", &value);
    (value, t)
}

#[test]
fn audit_reports_each_status() {
    let versions = parse_manifest(CMDR_MANIFEST);
    let dup = |vs: &Vec<Version>| vs.iter().map(|x| x.duplicate()).collect::<Vec<_>>();

    let (val, t) = reg("evaera/cmdr@1.12.0");
    let row = audit("dependencies", "Cmdr", &val, &t, Ok(dup(&versions)));
    assert_eq!(row.status, DepStatus::Current);
    assert_eq!(row.latest.as_deref(), Some("1.12.0"));
    assert_eq!(row.required, "evaera/cmdr@1.12.0");

    let (val, t) = reg("evaera/cmdr@=1.9.0");
    let row = audit("dependencies", "Cmdr", &val, &t, Ok(dup(&versions)));
    assert_eq!(row.status, DepStatus::Outdated);
    assert!(row.note.is_none());

    let (val, t) = reg("evaera/cmdr@2.0.0");
    let row = audit("dependencies", "Cmdr", &val, &t, Ok(dup(&versions)));
    assert_eq!(row.status, DepStatus::Missing);
    assert_eq!(
        row.note.as_deref(),
        Some("nothing satisfies the requirement; available: 1.8.4, 1.9.0, 1.12.0, 1.13.0-rc.3")
    );

    let (val, t) = reg("evaera/cmdr@1.0.0");
    let row = audit("dependencies", "Cmdr", &val, &t, Err("status 404".to_string()));
    assert_eq!(row.status, DepStatus::NotFound);
    assert_eq!(row.note.as_deref(), Some("package not in registry"));

    let row = audit("dependencies", "Cmdr", &val, &t, Err("timed out".to_string()));
    assert_eq!(row.status, DepStatus::Error);
    assert_eq!(row.note.as_deref(), Some("timed out"));

    let git = TomlValue::Table(Vec::new(), "{ git = \"x\" }".to_string());
    let row = audit("dependencies", "G", &git, &Target::Git, Err("unused".into()));
    assert_eq!(row.status, DepStatus::Git);
    assert_eq!(row.required, "{ git = \"x\" }");
    assert_eq!(row.status.as_str(), "git");
}

#[test]
fn missing_note_lists_at_most_eight_sorted_versions() {
    let texts = ["0.9.0", "0.1.0", "0.2.0", "0.3.0", "0.4.0", "0.5.0", "0.6.0", "0.7.0", "0.8.0", "0.1.0"];
    let vs: Vec<Version> = texts.iter().map(|t| v(t)).collect();
    let (val, t) = reg("evaera/cmdr@9.0.0");
    let row = audit("dependencies", "Cmdr", &val, &t, Ok(vs));
    assert_eq!(
        row.note.as_deref(),
        Some("nothing satisfies the requirement; available: 0.1.0, 0.2.0, 0.3.0, 0.4.0, 0.5.0, 0.6.0, 0.7.0, 0.8.0, ... (9 published)")
    );
}

#[test]
fn arranged_versions_are_sorted_without_repeats() {
    let vs: Vec<Version> = ["2.0.0", "1.0.0", "2.0.0", "1.0.0-rc.1"].iter().map(|t| v(t)).collect();
    let out: Vec<String> = arrange_versions(&vs).iter().map(|x| x.to_string()).collect();
    assert_eq!(out, vec!["1.0.0-rc.1", "1.0.0", "2.0.0"]);
}

#[test]
fn arranged_versions_keep_equal_ranks_in_order() {
    let vs: Vec<Version> = ["1.0.0-rc.01", "0.1.0", "1.0.0-rc.1", "1.0.0-rc.01", "1.0.0-rc.01"]
        .iter()
        .map(|t| v(t))
        .collect();
    let out: Vec<String> = arrange_versions(&vs).iter().map(|x| x.to_string()).collect();
    assert_eq!(out, vec!["0.1.0", "1.0.0-rc.01", "1.0.0-rc.1", "1.0.0-rc.01"]);
}

fn row(status: DepStatus) -> esmeril::deps::DepRow {
    esmeril::deps::DepRow {
        name: "N".into(),
        section: "dependencies".into(),
        required: "a/b@1.0.0".into(),
        latest: None,
        status,
        note: None,
    }
}

#[test]
fn report_counts_outdated_and_broken() {
    let rows = vec![
        row(DepStatus::Current),
        row(DepStatus::Outdated),
        row(DepStatus::Missing),
        row(DepStatus::Git),
        row(DepStatus::NotFound),
        row(DepStatus::Error),
        row(DepStatus::Unsupported),
    ];
    let r = DepsReport::new("p".into(), rows);
    assert_eq!(r.outdated, 1);
    assert_eq!(r.broken, 4);
    assert!(r.fail());
    let ok = DepsReport::new("p".into(), vec![row(DepStatus::Current), row(DepStatus::Git)]);
    assert!(!ok.fail());
}

#[test]
fn deps_report_lines() {
    let mut r1 = row(DepStatus::Outdated);
    r1.latest = Some("2.0.0".into());
    r1.note = Some("hm".into());
    let r = DepsReport::new("proj".into(), vec![r1]);
    let lines = deps_lines(&r);
    assert_eq!(lines.len(), 6);
    assert_eq!(lines[0][1].text, "esmeril deps");
    assert_eq!(lines[0][1].style, Style::Title);
    assert_eq!(
        lines[2][0].text,
        format!("  {:<28} {:<20} {:<28} {:<12} status", "package", "section", "required", "latest")
    );
    assert_eq!(
        lines[3][0].text,
        format!("  {:<28} {:<20} {:<28} {:<12} ", "N", "dependencies", "a/b@1.0.0", "2.0.0")
    );
    assert_eq!(lines[3][1].text, "outdated");
    assert_eq!(lines[3][1].style, Style::Yellow);
    assert_eq!(lines[3][3].text, "hm");
    assert_eq!(lines[3][3].style, Style::Dimmed);
    assert_eq!(lines[5][0].text, "  1 deps · 1 outdated · 1 broken");
    assert_eq!(lines[5][0].style, Style::RedBold);
    let empty = DepsReport::new("proj".into(), Vec::new());
    let lines = deps_lines(&empty);
    assert_eq!(lines[2][0].text, "  no dependencies");
    assert_eq!(lines[4][0].style, Style::Green);
}

#[test]
fn manifest_urls_join_base_and_name() {
    assert_eq!(
        manifest_url("https://raw.githubusercontent.com/a/b/main", "evaera/cmdr"),
        "https://raw.githubusercontent.com/a/b/main/evaera/cmdr"
    );
}

#[test]
fn wally_document_reports_invalid_toml() {
    match wally_document("not toml = =") {
        Err(e @ DepsError::InvalidWally(_)) => assert!(e.message().starts_with("invalid wally.toml: ")),
        other => panic!("unexpected {other:?}"),
    }
    let doc = wally_document("[package]\nregistry = \"https://github.com/a/b\"\n").unwrap();
    assert_eq!(registry(&doc).unwrap(), "https://github.com/a/b");
}
