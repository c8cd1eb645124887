//! The project check: which tooling configs are there and valid, and the grade they earn.
use vstd::prelude::*;

use crate::data::{
    file_state_json, file_state_toml, json_file, opt_seq, toml_file,
    entries_paths, items_paths, json_get, json_get_str, json_paths, toml_get, toml_get_str,
    FileState, JsonValue, TomlValue,
};
use crate::text::{
    decimal, extend, extend_str, join, join_chars, string_of, chars_of, contains_char, rsplit_once, rsplit_once_chars, same_str, split, split_chars,
    starts_with, strip_suffix, strip_suffix_chars, lemma_split_cons, lemma_split_no_sep,
};
use crate::version::{parse_version, parse_version_spec};
use crate::render::{
    empty_line, line1, line_view, lines_view, number, pad, pad_right, push_line, push_span, span, span_of,
    span_view, Span, Style,
};

verus! {

/// A config's `name/other` form: exactly two non-empty parts around one `/`.
pub open spec fn two_part_name(s: Seq<char>) -> bool {
    let parts = split(s, '/');
    parts.len() == 2 && parts[0].len() > 0 && parts[1].len() > 0
}

/// An Aftman pin: `owner/repo@tag`, with a `.exe` allowed after the repo.
pub open spec fn tool_spec_ok(s: Seq<char>) -> bool {
    match rsplit_once(s, '@') {
        None => false,
        Some((name, tag)) => tag.len() > 0 && two_part_name(
            match strip_suffix(name, ".exe"@) {
                Some(n) => n,
                None => name,
            },
        ),
    }
}

/// An accepted pin holds an `@` with a non-empty tag after it and a `/` before it.
pub proof fn lemma_pin_shape(s: Seq<char>)
    requires
        tool_spec_ok(s),
    ensures
        exists|i: int| 0 <= i < s.len() - 1 && s[i] == '@' && #[trigger] s.take(i).contains('/'),
{
    s.index_of_last_ensures('@');
    let i = s.index_of_last('@')->0;
    let name = s.take(i);
    let n = match strip_suffix(name, ".exe"@) {
        Some(m) => m,
        None => name,
    };
    if !n.contains('/') {
        lemma_split_no_sep(n, '/');
    }
    let k = choose|k: int| 0 <= k < n.len() && n[k] == '/';
    assert(name[k] == n[k]);
    assert(name.contains('/'));
}

/// Every pin `owner/repo@tag` is accepted whose owner and repo are non-empty and hold no
/// `/`, `@` or `.`, and whose tag is non-empty and holds no `@`.
pub proof fn lemma_pin_accepted(owner: Seq<char>, repo: Seq<char>, tag: Seq<char>)
    requires
        owner.len() > 0,
        repo.len() > 0,
        tag.len() > 0,
        !owner.contains('/') && !owner.contains('@') && !owner.contains('.'),
        !repo.contains('/') && !repo.contains('@') && !repo.contains('.'),
        !tag.contains('@'),
    ensures
        tool_spec_ok(owner + seq!['/'] + repo + seq!['@'] + tag),
{
    let name = owner + seq!['/'] + repo;
    let s = name + seq!['@'] + tag;
    assert(!name.contains('@')) by {
        if name.contains('@') {
            let k = choose|k: int| 0 <= k < name.len() && name[k] == '@';
            if k < owner.len() {
                assert(owner[k] == '@');
            } else if k > owner.len() {
                assert(repo[k - owner.len() - 1] == '@');
            }
        }
    }
    assert(s[name.len() as int] == '@');
    assert(s.contains('@'));
    s.index_of_last_ensures('@');
    let i = s.index_of_last('@')->0;
    if i > name.len() {
        assert(tag[i - name.len() - 1] == '@');
    }
    if i < name.len() {
        assert(name[i] == '@');
    }
    assert(i == name.len());
    assert(s.take(i) =~= name);
    assert(s.skip(i + 1) =~= tag);
    reveal_strlit(".exe");
    if ".exe"@.is_suffix_of(name) {
        let j = name.len() - 4;
        let t = name.subrange(j, name.len() as int);
        assert(".exe"@ =~= t);
        assert(".exe"@[0] == '.');
        assert(t[0] == name[j]);
        assert(name[j] == '.');
        if j < owner.len() {
            assert(owner[j] == '.');
        } else if j > owner.len() {
            assert(repo[j - owner.len() - 1] == '.');
        }
    }
    lemma_split_cons(owner, '/', repo);
    lemma_split_no_sep(repo, '/');
    assert(split(name, '/') =~= seq![owner, repo]);
}

pub fn two_part(s: &Vec<char>) -> (res: bool)
    ensures
        res == two_part_name(s@),
{
    let parts = split_chars(s, '/');
    proof {
        assert(parts@.map_values(|p: Vec<char>| p@).len() == parts@.len());
        if parts@.len() == 2 {
            assert(parts@.map_values(|p: Vec<char>| p@)[0] == parts@[0]@);
            assert(parts@.map_values(|p: Vec<char>| p@)[1] == parts@[1]@);
        }
    }
    parts.len() == 2 && parts[0].len() > 0 && parts[1].len() > 0
}

/// Whether `spec` pins a tool as `owner/repo@tag`.
pub fn valid_tool_spec(spec: &str) -> (res: bool)
    ensures
        res == tool_spec_ok(spec@),
{
    let v = chars_of(spec);
    match rsplit_once_chars(&v, '@') {
        None => false,
        Some((name, tag)) => {
            if tag.len() == 0 {
                return false;
            }
            let n = match strip_suffix_chars(&name, ".exe") {
                Some(n) => n,
                None => name,
            };
            two_part(&n)
        },
    }
}

/// The `languageMode` of a `.luaurc`: one mode, or an object of modes; each one
/// `NonStrict` or `Strict`, and at least one.
pub open spec fn valid_mode(v: JsonValue) -> bool {
    match v {
        JsonValue::Str(s) => s@ == "NonStrict"@ || s@ == "Strict"@,
        _ => false,
    }
}

pub open spec fn luaurc_ok_spec(v: JsonValue) -> bool {
    match json_get(v, "languageMode"@) {
        Some(JsonValue::Str(s)) => valid_mode(JsonValue::Str(s)),
        Some(JsonValue::Object(es)) => es@.len() > 0 && forall|i: int|
            0 <= i < es@.len() ==> valid_mode(#[trigger] es@[i].1),
        _ => false,
    }
}

fn mode_ok(v: &JsonValue) -> (res: bool)
    ensures
        res == valid_mode(*v),
{
    match v {
        JsonValue::Str(s) => {
            let c = chars_of(s.as_str());
            same_str(&c, "NonStrict") || same_str(&c, "Strict")
        },
        _ => false,
    }
}

/// Whether a parsed `.luaurc` sets a valid language mode.
pub fn luaurc_ok(v: &JsonValue) -> (res: bool)
    ensures
        res == luaurc_ok_spec(*v),
{
    match v.get("languageMode") {
        Some(lang) => match lang {
            JsonValue::Str(_) => mode_ok(lang),
            JsonValue::Object(es) => {
                if es.len() == 0 {
                    return false;
                }
                let mut i: usize = 0;
                while i < es.len()
                    invariant
                        i <= es.len(),
                        es@.len() > 0,
                        json_get(*v, "languageMode"@) == Some(*lang),
                        *lang == JsonValue::Object(*es),
                        forall|j: int| 0 <= j < i ==> valid_mode(#[trigger] es@[j].1),
                    decreases es.len() - i,
                {
                    if !mode_ok(&es[i].1) {
                        assert(!valid_mode(es@[i as int].1));
                        return false;
                    }
                    i += 1;
                }
                true
            },
            _ => false,
        },
        None => false,
    }
}

pub open spec fn is_table(v: Option<TomlValue>) -> bool {
    v matches Some(TomlValue::Table(_, _))
}

/// An `aftman.toml` with rojo, selene and stylua pinned under `[tools]`.
pub open spec fn aftman_ok_spec(v: TomlValue) -> bool {
    let tools = toml_get(v, "tools"@);
    &&& is_table(tools)
    &&& toml_get_str(tools->0, "rojo"@) matches Some(s) && tool_spec_ok(s)
    &&& toml_get_str(tools->0, "selene"@) matches Some(s) && tool_spec_ok(s)
    &&& toml_get_str(tools->0, "stylua"@) matches Some(s) && tool_spec_ok(s)
}

fn tool_pinned(tools: &TomlValue, name: &str) -> (res: bool)
    ensures
        res == (toml_get_str(*tools, name@) matches Some(s) && tool_spec_ok(s)),
{
    match tools.get(name) {
        Some(t) => match t.as_str() {
            Some(s) => valid_tool_spec(s),
            None => false,
        },
        None => false,
    }
}

/// Whether a parsed `aftman.toml` pins the three core tools.
pub fn aftman_ok(v: &TomlValue) -> (res: bool)
    ensures
        res == aftman_ok_spec(*v),
{
    match v.get("tools") {
        Some(tools) => match tools {
            TomlValue::Table(_, _) => tool_pinned(tools, "rojo") && tool_pinned(tools, "selene")
                && tool_pinned(tools, "stylua"),
            _ => false,
        },
        None => false,
    }
}

/// A `wally.toml` whose `[package]` has a `scope/name`, a version, an `https://` registry
/// and a realm of `shared`, `server` or `client`.
pub open spec fn wally_ok_spec(v: TomlValue) -> bool {
    let pkg = toml_get(v, "package"@);
    &&& is_table(pkg)
    &&& toml_get_str(pkg->0, "name"@) matches Some(n) && two_part_name(n)
    &&& toml_get_str(pkg->0, "version"@) matches Some(x) && parse_version_spec(x) is Some
    &&& toml_get_str(pkg->0, "registry"@) matches Some(r) && "https://"@.is_prefix_of(r)
    &&& toml_get_str(pkg->0, "realm"@) matches Some(r) && (r == "shared"@ || r == "server"@ || r
        == "client"@)
}

fn str_field(t: &TomlValue, key: &str) -> (res: Option<Vec<char>>)
    ensures
        match res {
            Some(s) => toml_get_str(*t, key@) == Some(s@),
            None => toml_get_str(*t, key@) is None,
        },
{
    match t.get(key) {
        Some(x) => match x.as_str() {
            Some(s) => Some(chars_of(s)),
            None => None,
        },
        None => None,
    }
}

/// Whether a parsed `wally.toml` has a complete `[package]`.
pub fn wally_ok(v: &TomlValue) -> (res: bool)
    ensures
        res == wally_ok_spec(*v),
{
    let pkg = match v.get("package") {
        Some(p) => match p {
            TomlValue::Table(_, _) => p,
            _ => {
                return false;
            },
        },
        None => {
            return false;
        },
    };
    let name_ok = match str_field(pkg, "name") {
        Some(n) => two_part(&n),
        None => false,
    };
    let version_ok = match str_field(pkg, "version") {
        Some(x) => {
            let s = crate::text::string_of(&x);
            parse_version(s.as_str()).is_some()
        },
        None => false,
    };
    let registry_ok = match str_field(pkg, "registry") {
        Some(r) => starts_with(&r, &chars_of("https://")),
        None => false,
    };
    let realm_ok = match str_field(pkg, "realm") {
        Some(r) => crate::text::same_str(&r, "shared") || crate::text::same_str(&r, "server")
            || crate::text::same_str(&r, "client"),
        None => false,
    };
    name_ok && version_ok && registry_ok && realm_ok
}

/// The `$path` strings below a JSON value.
pub fn collect_paths(v: &JsonValue) -> (res: Vec<String>)
    ensures
        res@.map_values(|p: String| p@) == json_paths(*v),
    decreases v,
{
    let mut out: Vec<String> = Vec::new();
    match v {
        JsonValue::Object(es) => {
            match v.get("$path") {
                Some(p) => match p {
                    JsonValue::Str(s) => {
                        out.push(s.clone());
                    },
                    _ => {},
                },
                None => {},
            }
            let ghost own = out@.map_values(|p: String| p@);
            let mut i: usize = 0;
            assert(es@.take(0) =~= Seq::<(String, JsonValue)>::empty());
            while i < es.len()
                invariant
                    i <= es.len(),
                    *v == JsonValue::Object(*es),
                    own == out@.map_values(|p: String| p@).take(own.len() as int),
                    out@.map_values(|p: String| p@) == own + entries_paths(es@.take(i as int)),
                decreases es.len() - i,
            {
                assert(es@.take(i + 1).drop_last() =~= es@.take(i as int));
                assert(es@.take(i + 1).last() == es@[i as int]);
                proof {
                    assert(decreases_to!(*v => v->Object_0));
                    assert(decreases_to!(*es => es@));
                    assert(decreases_to!(es@ => es@[i as int]));
                    assert(decreases_to!(es@[i as int] => es@[i as int].1));
                }
                let sub = collect_paths(&es[i].1);
                let ghost before = out@.map_values(|p: String| p@);
                append_all(&mut out, &sub);
                assert(out@.map_values(|p: String| p@) =~= before + sub@.map_values(
                    |p: String| p@,
                ));
                i += 1;
            }
            assert(es@.take(es.len() as int) =~= es@);
        },
        JsonValue::Array(items) => {
            let mut i: usize = 0;
            assert(items@.take(0) =~= Seq::<JsonValue>::empty());
            while i < items.len()
                invariant
                    i <= items.len(),
                    *v == JsonValue::Array(*items),
                    out@.map_values(|p: String| p@) == items_paths(items@.take(i as int)),
                decreases items.len() - i,
            {
                assert(items@.take(i + 1).drop_last() =~= items@.take(i as int));
                assert(items@.take(i + 1).last() == items@[i as int]);
                proof {
                    assert(decreases_to!(*v => v->Array_0));
                    assert(decreases_to!(*items => items@));
                    assert(decreases_to!(items@ => items@[i as int]));
                }
                let sub = collect_paths(&items[i]);
                let ghost before = out@.map_values(|p: String| p@);
                append_all(&mut out, &sub);
                assert(out@.map_values(|p: String| p@) =~= before + sub@.map_values(
                    |p: String| p@,
                ));
                i += 1;
            }
            assert(items@.take(items.len() as int) =~= items@);
        },
        _ => {},
    }
    out
}

/// Appends copies of `b` to `out`.
pub fn append_all(out: &mut Vec<String>, b: &Vec<String>)
    ensures
        final(out)@ == old(out)@ + b@,
{
    let mut i: usize = 0;
    while i < b.len()
        invariant
            i <= b.len(),
            out@ == old(out)@ + b@.take(i as int),
        decreases b.len() - i,
    {
        out.push(b[i].clone());
        assert(old(out)@ + b@.take(i as int).push(b@[i as int]) =~= old(out)@ + b@.take(i + 1));
        i += 1;
    }
    assert(b@.take(b.len() as int) =~= b@);
}


/// How a check came out.
#[derive(Debug, Clone, Copy, PartialEq, Eq, Structural)]
pub enum CheckState {
    Pass,
    /// The file or directory is not there.
    Missing,
    /// The file is there but does not parse.
    Invalid,
    /// The file parses but its content does not pass.
    Broken,
}

impl CheckState {
    pub open spec fn text(self) -> Seq<char> {
        match self {
            CheckState::Pass => "ok"@,
            CheckState::Missing => "missing"@,
            CheckState::Invalid => "invalid"@,
            CheckState::Broken => "broken"@,
        }
    }

    /// The state's name: `ok`, `missing`, `invalid` or `broken`.
    pub fn as_str(&self) -> (res: &'static str)
        ensures
            res@ == self.text(),
    {
        match self {
            CheckState::Pass => "ok",
            CheckState::Missing => "missing",
            CheckState::Invalid => "invalid",
            CheckState::Broken => "broken",
        }
    }
}

/// One scored check of the report.
#[derive(Debug)]
pub struct CheckRow {
    pub label: &'static str,
    pub weight: u8,
    pub ok: bool,
    pub state: CheckState,
    pub detail: Option<String>,
    pub fix: Option<&'static str>,
}

/// One unscored observation of the report.
#[derive(Debug)]
pub struct InfoRow {
    pub label: String,
    pub ok: bool,
}

/// What a fix run created and what it left for a person to repair.
#[derive(Debug)]
pub struct FixSummary {
    pub created: Vec<String>,
    pub needs_attention: Vec<String>,
}

/// The outcome of a project check.
#[derive(Debug)]
pub struct Report {
    pub path: String,
    pub score: u8,
    pub grade: char,
    pub checks: Vec<CheckRow>,
    pub info: Vec<InfoRow>,
    pub fix: Option<FixSummary>,
}

/// What the file system shows of a project, gathered before it is graded.
#[derive(Debug)]
pub struct ProjectFacts {
    /// The project directory as displayed.
    pub path: String,
    /// `default.project.json`; missing when it cannot be read.
    pub project: FileState<JsonValue>,
    /// The `$path` targets of the project tree that exist.
    pub existing_paths: Vec<String>,
    /// Whether `src/` is a directory.
    pub src_dir: bool,
    pub luaurc: FileState<JsonValue>,
    pub selene: FileState<TomlValue>,
    pub stylua: FileState<TomlValue>,
    pub aftman: FileState<TomlValue>,
    pub wally: FileState<TomlValue>,
    /// Whether `.github/workflows` holds an entry.
    pub has_ci: bool,
    pub readme: bool,
    pub gitignore: bool,
    pub rojo_on_path: bool,
    pub selene_on_path: bool,
    pub stylua_on_path: bool,
}

/// `A` from 90, `B` from 75, `C` from 60, `D` from 45, otherwise `F`.
pub open spec fn grade_of(score: u8) -> char {
    if 90 <= score <= 100 {
        'A'
    } else if 75 <= score <= 89 {
        'B'
    } else if 60 <= score <= 74 {
        'C'
    } else if 45 <= score <= 59 {
        'D'
    } else {
        'F'
    }
}

/// The letter grade of a score out of 100.
pub fn grade(score: u8) -> (res: char)
    ensures
        res == grade_of(score),
{
    if 90 <= score && score <= 100 {
        'A'
    } else if 75 <= score && score <= 89 {
        'B'
    } else if 60 <= score && score <= 74 {
        'C'
    } else if 45 <= score && score <= 59 {
        'D'
    } else {
        'F'
    }
}

/// A row that Rojo needs: the project file or its paths.
pub open spec fn blocks_build(label: Seq<char>) -> bool {
    label == "default.project.json"@ || label == "project paths"@
}

/// A report fails when Rojo could not build the project or the grade is D or F.
pub open spec fn report_fails(r: Report) -> bool {
    (exists|i: int|
        0 <= i < r.checks@.len() && blocks_build((#[trigger] r.checks@[i]).label@)
            && !r.checks@[i].ok) || r.grade == 'D' || r.grade == 'F'
}

impl Report {
    /// Whether the check should fail a CI run.
    pub fn fail(&self) -> (res: bool)
        ensures
            res == report_fails(*self),
    {
        let mut i: usize = 0;
        while i < self.checks.len()
            invariant
                i <= self.checks.len(),
                forall|j: int|
                    0 <= j < i ==> !(blocks_build((#[trigger] self.checks@[j]).label@)
                        && !self.checks@[j].ok),
            decreases self.checks.len() - i,
        {
            let c = &self.checks[i];
            let label = chars_of(c.label);
            if (same_str(&label, "default.project.json") || same_str(&label, "project paths"))
                && !c.ok {
                return true;
            }
            i += 1;
        }
        self.grade == 'D' || self.grade == 'F'
    }
}

pub open spec fn names(v: Seq<String>) -> Seq<Seq<char>> {
    v.map_values(|s: String| s@)
}

pub open spec fn project_state(p: FileState<JsonValue>) -> CheckState {
    match p {
        FileState::Missing => CheckState::Missing,
        FileState::Invalid => CheckState::Invalid,
        FileState::Parsed(v) => if json_get_str(v, "name"@) is Some {
            CheckState::Pass
        } else {
            CheckState::Invalid
        },
    }
}

/// The `$path` targets that the project tree declares.
pub open spec fn declared_paths(p: FileState<JsonValue>) -> Seq<Seq<char>> {
    match p {
        FileState::Parsed(v) => match json_get(v, "tree"@) {
            Some(t) => json_paths(t),
            None => Seq::<Seq<char>>::empty(),
        },
        _ => Seq::<Seq<char>>::empty(),
    }
}

pub open spec fn paths_exist(f: ProjectFacts) -> bool {
    let d = declared_paths(f.project);
    forall|i: int| 0 <= i < d.len() ==> names(f.existing_paths@).contains(
        #[trigger] d[i],
    )
}

pub open spec fn paths_state(f: ProjectFacts) -> CheckState {
    match f.project {
        FileState::Missing => CheckState::Missing,
        FileState::Invalid => CheckState::Invalid,
        FileState::Parsed(_) => if paths_exist(f) {
            CheckState::Pass
        } else {
            CheckState::Broken
        },
    }
}

pub open spec fn paths_detail(f: ProjectFacts) -> Option<Seq<char>> {
    if declared_paths(f.project).len() > 0 {
        Some(join(declared_paths(f.project), ", "@))
    } else {
        None
    }
}

pub open spec fn present(b: bool) -> CheckState {
    if b {
        CheckState::Pass
    } else {
        CheckState::Missing
    }
}

pub open spec fn luaurc_state(s: FileState<JsonValue>) -> CheckState {
    match s {
        FileState::Missing => CheckState::Missing,
        FileState::Invalid => CheckState::Invalid,
        FileState::Parsed(v) => if luaurc_ok_spec(v) {
            CheckState::Pass
        } else {
            CheckState::Broken
        },
    }
}

/// A TOML config that only has to parse.
pub open spec fn toml_state_of(s: FileState<TomlValue>) -> CheckState {
    match s {
        FileState::Missing => CheckState::Missing,
        FileState::Invalid => CheckState::Invalid,
        FileState::Parsed(_) => CheckState::Pass,
    }
}

pub open spec fn aftman_state(s: FileState<TomlValue>) -> CheckState {
    match s {
        FileState::Missing => CheckState::Missing,
        FileState::Invalid => CheckState::Invalid,
        FileState::Parsed(v) => if aftman_ok_spec(v) {
            CheckState::Pass
        } else {
            CheckState::Broken
        },
    }
}

/// A language mode that `.luaurc` may name.
pub open spec fn luau_mode_name(v: JsonValue) -> bool {
    v matches JsonValue::Str(m) && (m@ == "NonStrict"@ || m@ == "Strict"@)
}

/// The scored checks as the project's table lists them: each row's label and weight, and
/// when it passes. A config that is not there is missing and one that does not parse is
/// invalid, whatever else the row asks of it.
pub proof fn lemma_check_table(f: ProjectFacts)
    ensures
        check_label(0) == "default.project.json"@ && check_weight(0) == 15,
        check_label(1) == "project paths"@ && check_weight(1) == 10,
        check_label(2) == "src/"@ && check_weight(2) == 10,
        check_label(3) == ".luaurc"@ && check_weight(3) == 10,
        check_label(4) == ".selene.toml"@ && check_weight(4) == 15,
        check_label(5) == "stylua.toml"@ && check_weight(5) == 15,
        check_label(6) == "aftman.toml"@ && check_weight(6) == 15,
        check_label(7) == "wally.toml"@ && check_weight(7) == 5,
        check_weight(8) == 5,
        check_state(f, 0) == CheckState::Pass <==> (f.project matches FileState::Parsed(v)
            && json_get(v, "name"@) matches Some(JsonValue::Str(_))),
        check_state(f, 1) == CheckState::Pass <==> (f.project is Parsed && forall|i: int|
            0 <= i < declared_paths(f.project).len() ==> names(f.existing_paths@).contains(
                #[trigger] declared_paths(f.project)[i],
            )),
        check_state(f, 2) == CheckState::Pass <==> f.src_dir,
        check_state(f, 3) == CheckState::Pass <==> (f.luaurc matches FileState::Parsed(v) && (
        (json_get(v, "languageMode"@) matches Some(m) && luau_mode_name(m)) || (json_get(
            v,
            "languageMode"@,
        ) matches Some(JsonValue::Object(es)) && es@.len() > 0 && forall|i: int|
            0 <= i < es@.len() ==> luau_mode_name(#[trigger] es@[i].1)))),
        check_state(f, 4) == CheckState::Pass <==> f.selene is Parsed,
        check_state(f, 5) == CheckState::Pass <==> f.stylua is Parsed,
        check_state(f, 7) == CheckState::Pass <==> (f.wally matches FileState::Parsed(v)
            && toml_get(v, "package"@) matches Some(TomlValue::Table(_, _)) && {
            let p = toml_get(v, "package"@)->0;
            &&& toml_get_str(p, "name"@) matches Some(n) && two_part_name(n)
            &&& toml_get_str(p, "version"@) matches Some(x) && parse_version_spec(x) is Some
            &&& toml_get_str(p, "registry"@) matches Some(r) && "https://"@.is_prefix_of(r)
            &&& toml_get_str(p, "realm"@) matches Some(r) && (r == "shared"@ || r == "server"@
                || r == "client"@)
        }),
        check_state(f, 8) == CheckState::Pass <==> f.has_ci,
        check_state(f, 3) == CheckState::Missing <==> f.luaurc is Missing,
        check_state(f, 3) == CheckState::Invalid <==> f.luaurc is Invalid,
        check_state(f, 4) == CheckState::Missing <==> f.selene is Missing,
        check_state(f, 4) == CheckState::Invalid <==> f.selene is Invalid,
        check_state(f, 5) == CheckState::Missing <==> f.stylua is Missing,
        check_state(f, 5) == CheckState::Invalid <==> f.stylua is Invalid,
        check_state(f, 6) == CheckState::Missing <==> f.aftman is Missing,
        check_state(f, 6) == CheckState::Invalid <==> f.aftman is Invalid,
        check_state(f, 7) == CheckState::Missing <==> f.wally is Missing,
        check_state(f, 7) == CheckState::Invalid <==> f.wally is Invalid,
{
    match f.project {
        FileState::Parsed(v) => {
            match json_get(v, "name"@) {
                Some(JsonValue::Str(_)) => {},
                _ => {},
            }
        },
        _ => {},
    }
    match f.luaurc {
        FileState::Parsed(v) => {
            match json_get(v, "languageMode"@) {
                Some(JsonValue::Object(es)) => {
                    assert(luaurc_ok_spec(v) == (es@.len() > 0 && forall|i: int|
                        0 <= i < es@.len() ==> luau_mode_name(#[trigger] es@[i].1)));
                },
                _ => {},
            }
        },
        _ => {},
    }
}

/// The letter grade of a score: `A` from 90, `B` from 75, `C` from 60, `D` from 45, and `F`
/// below; a higher score never earns a later letter.
pub proof fn lemma_grade_bands(s: u8, t: u8)
    requires
        s <= 100,
        t <= 100,
    ensures
        s >= 90 <==> grade_of(s) == 'A',
        75 <= s < 90 <==> grade_of(s) == 'B',
        60 <= s < 75 <==> grade_of(s) == 'C',
        45 <= s < 60 <==> grade_of(s) == 'D',
        s < 45 <==> grade_of(s) == 'F',
        s <= t ==> grade_of(t) <= grade_of(s),
{
}

/// The `aftman.toml` row passes exactly when `[tools]` is a table that pins each of
/// rojo, selene and stylua as `owner/repo@tag`; a missing or broken pin of any one of them
/// marks the row broken.
pub proof fn lemma_aftman_needs_every_core_pin(f: ProjectFacts, v: TomlValue)
    requires
        f.aftman == FileState::Parsed(v),
    ensures
        check_state(f, 6) == CheckState::Pass <==> ({
            &&& toml_get(v, "tools"@) matches Some(TomlValue::Table(_, _))
            &&& toml_get_str(toml_get(v, "tools"@)->0, "rojo"@) matches Some(a) && tool_spec_ok(a)
            &&& toml_get_str(toml_get(v, "tools"@)->0, "selene"@) matches Some(b) && tool_spec_ok(b)
            &&& toml_get_str(toml_get(v, "tools"@)->0, "stylua"@) matches Some(c) && tool_spec_ok(c)
        }),
        check_state(f, 6) != CheckState::Pass ==> check_state(f, 6) == CheckState::Broken,
{
}

pub open spec fn wally_state(s: FileState<TomlValue>) -> CheckState {
    match s {
        FileState::Missing => CheckState::Missing,
        FileState::Invalid => CheckState::Invalid,
        FileState::Parsed(v) => if wally_ok_spec(v) {
            CheckState::Pass
        } else {
            CheckState::Broken
        },
    }
}

/// The nine checks in report order: label, weight, and the hint shown when it fails.
pub open spec fn check_label(i: int) -> Seq<char> {
    if i == 0 {
        "default.project.json"@
    } else if i == 1 {
        "project paths"@
    } else if i == 2 {
        "src/"@
    } else if i == 3 {
        ".luaurc"@
    } else if i == 4 {
        ".selene.toml"@
    } else if i == 5 {
        "stylua.toml"@
    } else if i == 6 {
        "aftman.toml"@
    } else if i == 7 {
        "wally.toml"@
    } else {
        ".github/workflows"@
    }
}

pub open spec fn check_weight(i: int) -> u8 {
    if i == 0 || i == 4 || i == 5 || i == 6 {
        15
    } else if i == 7 || i == 8 {
        5
    } else {
        10
    }
}

pub open spec fn check_hint(i: int) -> Seq<char> {
    if i == 0 {
        "add default.project.json with a name and a tree"@
    } else if i == 1 {
        "create the directories referenced by $path"@
    } else if i == 2 {
        "create src/ for Rojo to sync"@
    } else if i == 3 {
        "add .luaurc with languageMode NonStrict or Strict"@
    } else if i == 4 {
        "add .selene.toml with std = \"roblox\""@
    } else if i == 5 {
        "add stylua.toml"@
    } else if i == 6 {
        "add aftman.toml with rojo, selene and stylua as owner/repo@tag under [tools]"@
    } else if i == 7 {
        "add wally.toml with [package] name, version, registry and realm"@
    } else {
        "add a CI workflow, e.g. with Roblox/setup-aftman-action"@
    }
}

pub open spec fn check_state(f: ProjectFacts, i: int) -> CheckState {
    if i == 0 {
        project_state(f.project)
    } else if i == 1 {
        paths_state(f)
    } else if i == 2 {
        present(f.src_dir)
    } else if i == 3 {
        luaurc_state(f.luaurc)
    } else if i == 4 {
        toml_state_of(f.selene)
    } else if i == 5 {
        toml_state_of(f.stylua)
    } else if i == 6 {
        aftman_state(f.aftman)
    } else if i == 7 {
        wally_state(f.wally)
    } else {
        present(f.has_ci)
    }
}

pub open spec fn opt_text(s: Option<String>) -> Option<Seq<char>> {
    match s {
        Some(t) => Some(t@),
        None => None,
    }
}

/// Row `i` of the report on `f`.
pub open spec fn row_matches(row: CheckRow, f: ProjectFacts, i: int) -> bool {
    &&& row.label@ == check_label(i)
    &&& row.weight == check_weight(i)
    &&& row.state == check_state(f, i)
    &&& row.ok == (row.state == CheckState::Pass)
    &&& opt_text(row.detail) == if i == 1 {
        paths_detail(f)
    } else {
        None
    }
    &&& row.fix matches Some(h) && h@ == check_hint(i)
}

/// The sum of the weights of the rows that pass.
pub open spec fn score_of(rows: Seq<CheckRow>) -> int
    decreases rows.len(),
{
    if rows.len() == 0 {
        0
    } else {
        score_of(rows.drop_last()) + if rows.last().ok {
            rows.last().weight as int
        } else {
            0
        }
    }
}

/// The unscored rows: README, .gitignore and the three core tools on PATH.
pub open spec fn info_matches(info: Seq<InfoRow>, f: ProjectFacts) -> bool {
    &&& info.len() == 5
    &&& info[0].label@ == "README.md"@ && info[0].ok == f.readme
    &&& info[1].label@ == ".gitignore"@ && info[1].ok == f.gitignore
    &&& info[2].label@ == "rojo on PATH"@ && info[2].ok == f.rojo_on_path
    &&& info[3].label@ == "selene on PATH"@ && info[3].ok == f.selene_on_path
    &&& info[4].label@ == "stylua on PATH"@ && info[4].ok == f.stylua_on_path
}

/// The `$path` targets that a parsed project file declares.
pub fn project_paths(project: &FileState<JsonValue>) -> (res: Vec<String>)
    ensures
        names(res@) == declared_paths(*project),
{
    match project {
        FileState::Parsed(v) => match v.get("tree") {
            Some(t) => collect_paths(t),
            None => Vec::new(),
        },
        _ => Vec::new(),
    }
}

fn contains_string(v: &Vec<String>, s: &String) -> (res: bool)
    ensures
        res == names(v@).contains(s@),
{
    let target = chars_of(s.as_str());
    let mut i: usize = 0;
    while i < v.len()
        invariant
            i <= v.len(),
            target@ == s@,
            forall|j: int| 0 <= j < i ==> v@[j]@ != s@,
        decreases v.len() - i,
    {
        let c = chars_of(v[i].as_str());
        if crate::text::same(&c, &target) {
            assert(names(v@)[i as int] == s@);
            return true;
        }
        i += 1;
    }
    assert forall|j: int| 0 <= j < names(v@).len() implies names(v@)[j] != s@ by {
        assert(names(v@)[j] == v@[j]@);
    }
    false
}

fn row(
    label: &'static str,
    weight: u8,
    state: CheckState,
    detail: Option<String>,
    fix: &'static str,
) -> (res: CheckRow)
    ensures
        res.label == label,
        res.weight == weight,
        res.state == state,
        res.ok == (state == CheckState::Pass),
        res.detail == detail,
        res.fix == Some(fix),
{
    CheckRow { label, weight, ok: state == CheckState::Pass, state, detail, fix: Some(fix) }
}

fn info_row(label: &str, ok: bool) -> (res: InfoRow)
    ensures
        res.label@ == label@,
        res.ok == ok,
{
    InfoRow { label: string_of(&chars_of(label)), ok }
}

fn luaurc_state_of(s: &FileState<JsonValue>) -> (res: CheckState)
    ensures
        res == luaurc_state(*s),
{
    match s {
        FileState::Missing => CheckState::Missing,
        FileState::Invalid => CheckState::Invalid,
        FileState::Parsed(v) => if luaurc_ok(v) {
            CheckState::Pass
        } else {
            CheckState::Broken
        },
    }
}

/// The state of a TOML config that only has to parse.
pub fn toml_state(s: &FileState<TomlValue>) -> (res: CheckState)
    ensures
        res == toml_state_of(*s),
{
    match s {
        FileState::Missing => CheckState::Missing,
        FileState::Invalid => CheckState::Invalid,
        FileState::Parsed(_) => CheckState::Pass,
    }
}

fn aftman_state_of(s: &FileState<TomlValue>) -> (res: CheckState)
    ensures
        res == aftman_state(*s),
{
    match s {
        FileState::Missing => CheckState::Missing,
        FileState::Invalid => CheckState::Invalid,
        FileState::Parsed(v) => if aftman_ok(v) {
            CheckState::Pass
        } else {
            CheckState::Broken
        },
    }
}

fn wally_state_of(s: &FileState<TomlValue>) -> (res: CheckState)
    ensures
        res == wally_state(*s),
{
    match s {
        FileState::Missing => CheckState::Missing,
        FileState::Invalid => CheckState::Invalid,
        FileState::Parsed(v) => if wally_ok(v) {
            CheckState::Pass
        } else {
            CheckState::Broken
        },
    }
}

fn present_state(b: bool) -> (res: CheckState)
    ensures
        res == present(b),
{
    if b {
        CheckState::Pass
    } else {
        CheckState::Missing
    }
}

/// Grades a project from what the file system shows of it.
pub fn inspect(f: &ProjectFacts) -> (r: Report)
    ensures
        r.path@ == f.path@,
        r.checks@.len() == 9,
        forall|i: int| 0 <= i < 9 ==> row_matches(#[trigger] r.checks@[i], *f, i),
        r.score == score_of(r.checks@),
        r.score <= 100,
        r.grade == grade_of(r.score),
        info_matches(r.info@, *f),
        r.fix is None,
{
    // default.project.json and the paths its tree declares
    let project_state_now = match &f.project {
        FileState::Missing => CheckState::Missing,
        FileState::Invalid => CheckState::Invalid,
        FileState::Parsed(v) => match v.get("name") {
            Some(n) => match n.as_str() {
                Some(_) => CheckState::Pass,
                None => CheckState::Invalid,
            },
            None => CheckState::Invalid,
        },
    };
    let paths = project_paths(&f.project);
    let mut all_exist = true;
    let mut k: usize = 0;
    while k < paths.len()
        invariant
            k <= paths.len(),
            all_exist == forall|j: int| 0 <= j < k ==> names(f.existing_paths@).contains(
                #[trigger] names(paths@)[j],
            ),
        decreases paths.len() - k,
    {
        let here = contains_string(&f.existing_paths, &paths[k]);
        assert(names(paths@)[k as int] == paths@[k as int]@);
        all_exist = all_exist && here;
        k += 1;
    }
    let paths_ok = all_exist;
    let paths_state_now = match &f.project {
        FileState::Missing => CheckState::Missing,
        FileState::Invalid => CheckState::Invalid,
        FileState::Parsed(_) => if paths_ok {
            CheckState::Pass
        } else {
            CheckState::Broken
        },
    };
    let detail = if paths.len() > 0 {
        let mut pieces: Vec<Vec<char>> = Vec::new();
        let mut j: usize = 0;
        while j < paths.len()
            invariant
                j <= paths.len(),
                pieces@.map_values(|p: Vec<char>| p@) == names(paths@).take(j as int),
            decreases paths.len() - j,
        {
            let ghost before = pieces@.map_values(|p: Vec<char>| p@);
            pieces.push(chars_of(paths[j].as_str()));
            assert(pieces@.map_values(|p: Vec<char>| p@) =~= before.push(paths@[j as int]@));
            assert(names(paths@).take(j + 1) =~= names(paths@).take(j as int).push(
                paths@[j as int]@,
            ));
            j += 1;
        }
        assert(names(paths@).take(paths.len() as int) =~= names(paths@));
        Some(string_of(&join_chars(&pieces, ", ")))
    } else {
        None
    };
    let mut checks: Vec<CheckRow> = Vec::new();
    checks.push(
        row(
            "default.project.json",
            15,
            project_state_now,
            None,
            "add default.project.json with a name and a tree",
        ),
    );
    checks.push(
        row(
            "project paths",
            10,
            paths_state_now,
            detail,
            "create the directories referenced by $path",
        ),
    );
    checks.push(
        row("src/", 10, present_state(f.src_dir), None, "create src/ for Rojo to sync"),
    );
    checks.push(
        row(
            ".luaurc",
            10,
            luaurc_state_of(&f.luaurc),
            None,
            "add .luaurc with languageMode NonStrict or Strict",
        ),
    );
    checks.push(
        row(
            ".selene.toml",
            15,
            toml_state(&f.selene),
            None,
            "add .selene.toml with std = \"roblox\"",
        ),
    );
    checks.push(row("stylua.toml", 15, toml_state(&f.stylua), None, "add stylua.toml"));
    checks.push(
        row(
            "aftman.toml",
            15,
            aftman_state_of(&f.aftman),
            None,
            "add aftman.toml with rojo, selene and stylua as owner/repo@tag under [tools]",
        ),
    );
    checks.push(
        row(
            "wally.toml",
            5,
            wally_state_of(&f.wally),
            None,
            "add wally.toml with [package] name, version, registry and realm",
        ),
    );
    checks.push(
        row(
            ".github/workflows",
            5,
            present_state(f.has_ci),
            None,
            "add a CI workflow, e.g. with Roblox/setup-aftman-action",
        ),
    );
    assert(paths_ok == paths_exist(*f)) by {
        if paths_ok {
            assert forall|i: int|
                0 <= i < declared_paths(f.project).len() implies names(
                f.existing_paths@,
            ).contains(#[trigger] declared_paths(f.project)[i]) by {
                assert(names(paths@)[i] == declared_paths(f.project)[i]);
            }
        }
        if paths_exist(*f) {
            assert forall|j: int| 0 <= j < paths.len() implies names(
                f.existing_paths@,
            ).contains(#[trigger] names(paths@)[j]) by {
                assert(names(paths@)[j] == declared_paths(f.project)[j]);
            }
        }
    }
    assert forall|i: int| 0 <= i < 9 implies row_matches(#[trigger] checks@[i], *f, i) by {}
    // the score: the weights of the rows that pass
    let mut score: u8 = 0;
    let mut i: usize = 0;
    while i < checks.len()
        invariant
            checks@.len() == 9,
            i <= 9,
            forall|j: int| 0 <= j < 9 ==> (#[trigger] checks@[j]).weight <= 15,
            score as int == score_of(checks@.take(i as int)),
            score <= 15 * i,
        decreases 9 - i,
    {
        assert(checks@.take(i + 1).drop_last() =~= checks@.take(i as int));
        if checks[i].ok {
            score = score + checks[i].weight;
        }
        i += 1;
    }
    assert(checks@.take(9) =~= checks@);
    proof {
        lemma_score_at_most_100(checks@, *f);
    }
    let mut info: Vec<InfoRow> = Vec::new();
    info.push(info_row("README.md", f.readme));
    info.push(info_row(".gitignore", f.gitignore));
    info.push(info_row("rojo on PATH", f.rojo_on_path));
    info.push(info_row("selene on PATH", f.selene_on_path));
    info.push(info_row("stylua on PATH", f.stylua_on_path));
    Report {
        path: string_of(&chars_of(f.path.as_str())),
        score,
        grade: grade(score),
        checks,
        info,
        fix: None,
    }
}

proof fn lemma_score_step(rows: Seq<CheckRow>, k: int)
    requires
        0 <= k < rows.len(),
    ensures
        score_of(rows.take(k + 1)) == score_of(rows.take(k)) + if rows[k].ok {
            rows[k].weight as int
        } else {
            0
        },
{
    assert(rows.take(k + 1).drop_last() =~= rows.take(k));
    assert(rows.take(k + 1).last() == rows[k]);
}

/// The weights add up to 100, so no report scores more.
pub proof fn lemma_score_at_most_100(rows: Seq<CheckRow>, f: ProjectFacts)
    requires
        rows.len() == 9,
        forall|i: int| 0 <= i < 9 ==> row_matches(#[trigger] rows[i], f, i),
    ensures
        score_of(rows) <= 100,
        score_of(rows) == 100 <==> forall|i: int| 0 <= i < 9 ==> (#[trigger] rows[i]).ok,
{
    assert(row_matches(rows[0], f, 0));
    assert(row_matches(rows[1], f, 1));
    assert(row_matches(rows[2], f, 2));
    assert(row_matches(rows[3], f, 3));
    assert(row_matches(rows[4], f, 4));
    assert(row_matches(rows[5], f, 5));
    assert(row_matches(rows[6], f, 6));
    assert(row_matches(rows[7], f, 7));
    assert(row_matches(rows[8], f, 8));
    assert(score_of(rows.take(0)) == 0);
    lemma_score_step(rows, 0);
    lemma_score_step(rows, 1);
    lemma_score_step(rows, 2);
    lemma_score_step(rows, 3);
    lemma_score_step(rows, 4);
    lemma_score_step(rows, 5);
    lemma_score_step(rows, 6);
    lemma_score_step(rows, 7);
    lemma_score_step(rows, 8);
    assert(rows.take(9) =~= rows);
}


/// `wally.toml` and the CI workflow are recommended, not required: a project that passes
/// every other check scores at least 90 and grades A without them.
pub proof fn lemma_recommended_checks_optional(rows: Seq<CheckRow>, f: ProjectFacts)
    requires
        rows.len() == 9,
        forall|i: int| 0 <= i < 9 ==> row_matches(#[trigger] rows[i], f, i),
        forall|i: int| 0 <= i < 7 ==> #[trigger] check_state(f, i) == CheckState::Pass,
    ensures
        90 <= score_of(rows) <= 100,
        grade_of(score_of(rows) as u8) == 'A',
{
    lemma_score_at_most_100(rows, f);
    assert(row_matches(rows[0], f, 0) && check_state(f, 0) == CheckState::Pass);
    assert(row_matches(rows[1], f, 1) && check_state(f, 1) == CheckState::Pass);
    assert(row_matches(rows[2], f, 2) && check_state(f, 2) == CheckState::Pass);
    assert(row_matches(rows[3], f, 3) && check_state(f, 3) == CheckState::Pass);
    assert(row_matches(rows[4], f, 4) && check_state(f, 4) == CheckState::Pass);
    assert(row_matches(rows[5], f, 5) && check_state(f, 5) == CheckState::Pass);
    assert(row_matches(rows[6], f, 6) && check_state(f, 6) == CheckState::Pass);
    assert(row_matches(rows[7], f, 7));
    assert(row_matches(rows[8], f, 8));
    assert(score_of(rows.take(0)) == 0);
    lemma_score_step(rows, 0);
    lemma_score_step(rows, 1);
    lemma_score_step(rows, 2);
    lemma_score_step(rows, 3);
    lemma_score_step(rows, 4);
    lemma_score_step(rows, 5);
    lemma_score_step(rows, 6);
    lemma_score_step(rows, 7);
    lemma_score_step(rows, 8);
    assert(rows.take(9) =~= rows);
}

/// `✓` for a pass, `✗` otherwise.
pub open spec fn mark(ok: bool) -> Seq<char> {
    if ok {
        "✓"@
    } else {
        "✗"@
    }
}

fn mark_text(ok: bool) -> (res: &'static str)
    ensures
        res@ == mark(ok),
{
    if ok {
        "✓"
    } else {
        "✗"
    }
}

pub open spec fn markdown_row(c: CheckRow) -> Seq<char> {
    "| "@ + c.label@ + " | "@ + decimal(c.weight as nat) + " | "@ + mark(c.ok) + " |\n"@
}

pub open spec fn markdown_rows(rows: Seq<CheckRow>) -> Seq<char>
    decreases rows.len(),
{
    if rows.len() == 0 {
        Seq::<char>::empty()
    } else {
        markdown_rows(rows.drop_last()) + markdown_row(rows.last())
    }
}

pub open spec fn info_item(i: InfoRow) -> Seq<char> {
    mark(i.ok) + " "@ + i.label@
}

/// The report as a markdown table, the grade, and the info items on one line.
pub open spec fn markdown_spec(r: Report) -> Seq<char> {
    "| check | weight | status |\n"@ + "|---|---|---|\n"@ + markdown_rows(r.checks@)
        + "\n**grade: "@ + seq![r.grade] + " ("@ + decimal(r.score as nat) + "/100)**\n"@
        + "info: "@ + join(r.info@.map_values(|i: InfoRow| info_item(i)), ", "@) + "\n"@
}

/// The report as markdown, ready to paste into a pull request.
pub fn render_markdown(r: &Report) -> (res: String)
    ensures
        res@ == markdown_spec(*r),
{
    let mut out: Vec<char> = Vec::new();
    extend_str(&mut out, "| check | weight | status |\n");
    extend_str(&mut out, "|---|---|---|\n");
    let ghost head = out@;
    let mut i: usize = 0;
    assert(r.checks@.take(0) =~= Seq::<CheckRow>::empty());
    while i < r.checks.len()
        invariant
            i <= r.checks.len(),
            out@ == head + markdown_rows(r.checks@.take(i as int)),
        decreases r.checks.len() - i,
    {
        let c = &r.checks[i];
        assert(r.checks@.take(i + 1).drop_last() =~= r.checks@.take(i as int));
        assert(r.checks@.take(i + 1).last() == *c);
        let ghost before = out@;
        extend_str(&mut out, "| ");
        extend_str(&mut out, c.label);
        extend_str(&mut out, " | ");
        let w = number(c.weight as u64);
        extend(&mut out, &w);
        extend_str(&mut out, " | ");
        extend_str(&mut out, mark_text(c.ok));
        extend_str(&mut out, " |\n");
        assert(out@ =~= before + markdown_row(*c));
        i += 1;
    }
    assert(r.checks@.take(r.checks.len() as int) =~= r.checks@);
    extend_str(&mut out, "\n**grade: ");
    out.push(r.grade);
    extend_str(&mut out, " (");
    let sc = number(r.score as u64);
    extend(&mut out, &sc);
    extend_str(&mut out, "/100)**\n");
    extend_str(&mut out, "info: ");
    let mut items: Vec<Vec<char>> = Vec::new();
    let mut j: usize = 0;
    while j < r.info.len()
        invariant
            j <= r.info.len(),
            items@.map_values(|p: Vec<char>| p@) == r.info@.map_values(
                |i: InfoRow| info_item(i),
            ).take(j as int),
        decreases r.info.len() - j,
    {
        let mut item: Vec<char> = Vec::new();
        extend_str(&mut item, mark_text(r.info[j].ok));
        extend_str(&mut item, " ");
        extend_str(&mut item, r.info[j].label.as_str());
        let ghost before = items@.map_values(|p: Vec<char>| p@);
        items.push(item);
        assert(items@.map_values(|p: Vec<char>| p@) =~= before.push(info_item(r.info@[j as int])));
        assert(r.info@.map_values(|i: InfoRow| info_item(i)).take(j + 1) =~= r.info@.map_values(
            |i: InfoRow| info_item(i),
        ).take(j as int).push(info_item(r.info@[j as int])));
        j += 1;
    }
    assert(r.info@.map_values(|i: InfoRow| info_item(i)).take(r.info.len() as int)
        =~= r.info@.map_values(|i: InfoRow| info_item(i)));
    let joined = join_chars(&items, ", ");
    extend(&mut out, &joined);
    extend_str(&mut out, "\n");
    assert(out@ =~= markdown_spec(*r));
    string_of(&out)
}

pub open spec fn grade_style(g: char) -> Style {
    if g == 'A' || g == 'B' {
        Style::GreenBold
    } else if g == 'C' {
        Style::YellowBold
    } else {
        Style::RedBold
    }
}

/// `G  (score/100)`, green for A and B, yellow for C, red below.
pub open spec fn grade_span(g: char, score: u8) -> (Seq<char>, Style) {
    (seq![g] + "  ("@ + decimal(score as nat) + "/100)"@, grade_style(g))
}

/// The grade and score as one styled span.
pub fn colored_grade(g: char, score: u8) -> (res: Span)
    ensures
        span_view(res) == grade_span(g, score),
{
    let mut t: Vec<char> = Vec::new();
    t.push(g);
    extend_str(&mut t, "  (");
    let n = number(score as u64);
    extend(&mut t, &n);
    extend_str(&mut t, "/100)");
    let style = if g == 'A' || g == 'B' {
        Style::GreenBold
    } else if g == 'C' {
        Style::YellowBold
    } else {
        Style::RedBold
    };
    span_of(&t, style)
}

pub open spec fn mark_span(ok: bool) -> (Seq<char>, Style) {
    (mark(ok), if ok {
        Style::Green
    } else {
        Style::Red
    })
}

/// What a failing check is called in the text report.
pub open spec fn verb(s: CheckState) -> Seq<char> {
    match s {
        CheckState::Missing => "missing"@,
        CheckState::Invalid => "invalid"@,
        _ => "broken"@,
    }
}

/// The tail of a check's line after its padded label.
pub open spec fn row_tail(c: CheckRow) -> Seq<(Seq<char>, Style)> {
    if c.ok {
        match c.detail {
            Some(d) => seq![(" "@, Style::Plain), (d@, Style::Dimmed)],
            None => seq![(" ok"@, Style::Plain)],
        }
    } else {
        match c.fix {
            Some(h) => seq![
                (" "@ + verb(c.state) + " · "@ + h@ + match c.detail {
                    Some(d) => " ("@ + d@ + ")"@,
                    None => Seq::<char>::empty(),
                }, Style::Plain),
            ],
            None => seq![(" missing"@, Style::Plain)],
        }
    }
}

pub open spec fn row_line(c: CheckRow) -> Seq<(Seq<char>, Style)> {
    seq![("  "@, Style::Plain), mark_span(c.ok), (" "@ + pad_right(c.label@, 20), Style::Plain)]
        + row_tail(c)
}

pub open spec fn info_line(i: InfoRow) -> Seq<(Seq<char>, Style)> {
    seq![("  "@, Style::Plain), mark_span(i.ok), (" "@ + i.label@, Style::Plain)]
}

/// The text report: title, one line per check, the info items and the grade.
pub open spec fn report_lines_spec(r: Report) -> Seq<Seq<(Seq<char>, Style)>> {
    seq![
        seq![("  "@, Style::Plain), ("esmeril check"@, Style::Title), ("  "@ + r.path@, Style::Plain)],
        Seq::empty(),
        seq![("  tooling"@, Style::Plain)],
    ] + r.checks@.map_values(|c: CheckRow| row_line(c)) + seq![
        Seq::empty(),
        seq![("  info"@, Style::Plain)],
    ] + r.info@.map_values(|i: InfoRow| info_line(i)) + seq![
        Seq::empty(),
        seq![("  grade  "@, Style::Plain), grade_span(r.grade, r.score)],
    ]
}

pub fn mark_span_of(ok: bool) -> (res: Span)
    ensures
        span_view(res) == mark_span(ok),
{
    span(mark_text(ok), if ok {
        Style::Green
    } else {
        Style::Red
    })
}

fn verb_text(s: CheckState) -> (res: &'static str)
    ensures
        res@ == verb(s),
{
    match s {
        CheckState::Missing => "missing",
        CheckState::Invalid => "invalid",
        _ => "broken",
    }
}

fn row_line_of(c: &CheckRow) -> (res: Vec<Span>)
    ensures
        line_view(res) == row_line(*c),
{
    let mut l: Vec<Span> = Vec::new();
    push_span(&mut l, span("  ", Style::Plain));
    push_span(&mut l, mark_span_of(c.ok));
    let mut lab: Vec<char> = Vec::new();
    extend_str(&mut lab, " ");
    let padded = pad(&chars_of(c.label), 20);
    extend(&mut lab, &padded);
    push_span(&mut l, span_of(&lab, Style::Plain));
    let ghost head = line_view(l);
    if c.ok {
        match &c.detail {
            Some(d) => {
                push_span(&mut l, span(" ", Style::Plain));
                push_span(&mut l, span(d.as_str(), Style::Dimmed));
            },
            None => {
                push_span(&mut l, span(" ok", Style::Plain));
            },
        }
        assert(line_view(l) =~= head + row_tail(*c));
    } else {
        match c.fix {
            Some(h) => {
                let mut t: Vec<char> = Vec::new();
                extend_str(&mut t, " ");
                extend_str(&mut t, verb_text(c.state));
                extend_str(&mut t, " · ");
                extend_str(&mut t, h);
                match &c.detail {
                    Some(d) => {
                        let ghost t0 = t@;
                        extend_str(&mut t, " (");
                        extend_str(&mut t, d.as_str());
                        extend_str(&mut t, ")");
                        assert(t@ =~= t0 + (" ("@ + d@ + ")"@));
                    },
                    None => {
                        assert(t@ =~= t@ + Seq::<char>::empty());
                    },
                }
                push_span(&mut l, span_of(&t, Style::Plain));
                assert(line_view(l) =~= head + row_tail(*c));
            },
            None => {
                push_span(&mut l, span(" missing", Style::Plain));
                assert(line_view(l) =~= head + row_tail(*c));
            },
        }
    }
    assert(head =~= seq![("  "@, Style::Plain), mark_span(c.ok), (" "@ + pad_right(c.label@, 20), Style::Plain)]);
    assert(line_view(l) =~= row_line(*c));
    l
}

fn info_line_of(i: &InfoRow) -> (res: Vec<Span>)
    ensures
        line_view(res) == info_line(*i),
{
    let mut l: Vec<Span> = Vec::new();
    push_span(&mut l, span("  ", Style::Plain));
    push_span(&mut l, mark_span_of(i.ok));
    let mut t: Vec<char> = Vec::new();
    extend_str(&mut t, " ");
    extend_str(&mut t, i.label.as_str());
    push_span(&mut l, span_of(&t, Style::Plain));
    assert(line_view(l) =~= info_line(*i));
    l
}

/// The text report of a check, line by line.
pub fn report_lines(r: &Report) -> (res: Vec<Vec<Span>>)
    ensures
        lines_view(res@) == report_lines_spec(*r),
{
    let mut out: Vec<Vec<Span>> = Vec::new();
    let mut title: Vec<Span> = Vec::new();
    push_span(&mut title, span("  ", Style::Plain));
    push_span(&mut title, span("esmeril check", Style::Title));
    let mut p: Vec<char> = Vec::new();
    extend_str(&mut p, "  ");
    extend_str(&mut p, r.path.as_str());
    push_span(&mut title, span_of(&p, Style::Plain));
    let ghost tv = line_view(title);
    push_line(&mut out, title);
    push_line(&mut out, empty_line());
    push_line(&mut out, line1(span("  tooling", Style::Plain)));
    let ghost head = lines_view(out@);
    assert(head =~= seq![tv, Seq::empty(), seq![("  tooling"@, Style::Plain)]]);
    assert(tv =~= seq![("  "@, Style::Plain), ("esmeril check"@, Style::Title), ("  "@ + r.path@, Style::Plain)]);
    let mut i: usize = 0;
    while i < r.checks.len()
        invariant
            i <= r.checks.len(),
            lines_view(out@) == head + r.checks@.map_values(|c: CheckRow| row_line(c)).take(
                i as int,
            ),
        decreases r.checks.len() - i,
    {
        push_line(&mut out, row_line_of(&r.checks[i]));
        assert(r.checks@.map_values(|c: CheckRow| row_line(c)).take(i + 1) =~= r.checks@.map_values(
            |c: CheckRow| row_line(c),
        ).take(i as int).push(row_line(r.checks@[i as int])));
        i += 1;
    }
    assert(r.checks@.map_values(|c: CheckRow| row_line(c)).take(r.checks.len() as int)
        =~= r.checks@.map_values(|c: CheckRow| row_line(c)));
    let ghost before_info = lines_view(out@);
    push_line(&mut out, empty_line());
    push_line(&mut out, line1(span("  info", Style::Plain)));
    let ghost mid = lines_view(out@);
    assert(mid =~= before_info + seq![Seq::empty(), seq![("  info"@, Style::Plain)]]);
    let mut j: usize = 0;
    while j < r.info.len()
        invariant
            j <= r.info.len(),
            lines_view(out@) == mid + r.info@.map_values(|x: InfoRow| info_line(x)).take(
                j as int,
            ),
        decreases r.info.len() - j,
    {
        push_line(&mut out, info_line_of(&r.info[j]));
        assert(r.info@.map_values(|x: InfoRow| info_line(x)).take(j + 1) =~= r.info@.map_values(
            |x: InfoRow| info_line(x),
        ).take(j as int).push(info_line(r.info@[j as int])));
        j += 1;
    }
    assert(r.info@.map_values(|x: InfoRow| info_line(x)).take(r.info.len() as int)
        =~= r.info@.map_values(|x: InfoRow| info_line(x)));
    let ghost before_grade = lines_view(out@);
    push_line(&mut out, empty_line());
    let mut g: Vec<Span> = Vec::new();
    push_span(&mut g, span("  grade  ", Style::Plain));
    push_span(&mut g, colored_grade(r.grade, r.score));
    let ghost gv = line_view(g);
    assert(gv =~= seq![("  grade  "@, Style::Plain), grade_span(r.grade, r.score)]);
    push_line(&mut out, g);
    assert(lines_view(out@) =~= before_grade + seq![Seq::empty(), gv]);
    assert(lines_view(out@) =~= report_lines_spec(*r));
    out
}

/// Why a project is not checked.
#[derive(Debug)]
pub enum CheckError {
    /// The directory does not exist and `--fix` was not given.
    NoSuchPath(String),
}

impl CheckError {
    pub open spec fn text(self) -> Seq<char> {
        match self {
            CheckError::NoSuchPath(p) => "path '"@ + p@ + "' does not exist (use --fix to scaffold it)"@,
        }
    }

    /// The error as a sentence.
    pub fn message(&self) -> (res: String)
        ensures
            res@ == self.text(),
    {
        match self {
            CheckError::NoSuchPath(p) => {
                let mut out: Vec<char> = Vec::new();
                extend_str(&mut out, "path '");
                extend_str(&mut out, p.as_str());
                extend_str(&mut out, "' does not exist (use --fix to scaffold it)");
                string_of(&out)
            },
        }
    }
}

/// A missing directory is only checked with `--fix`, which scaffolds it.
pub fn check_gate(path: &str, fix: bool, exists: bool) -> (res: Result<(), CheckError>)
    ensures
        res is Ok <==> (fix || exists),
        res matches Err(CheckError::NoSuchPath(p)) ==> p@ == path@,
{
    if !fix && !exists {
        return Err(CheckError::NoSuchPath(string_of(&chars_of(path))));
    }
    Ok(())
}

/// What reading a project's files gave: for each config whether it is there and its text
/// when it could be read, the project file's text when it could be read, which of its
/// `$path` targets exist, and the other observations.
#[derive(Debug)]
pub struct ProjectFiles {
    pub path: String,
    pub project: Option<String>,
    pub existing_paths: Vec<String>,
    pub src_dir: bool,
    pub luaurc: (bool, Option<String>),
    pub selene: (bool, Option<String>),
    pub stylua: (bool, Option<String>),
    pub aftman: (bool, Option<String>),
    pub wally: (bool, Option<String>),
    pub has_ci: bool,
    pub readme: bool,
    pub gitignore: bool,
    pub rojo_on_path: bool,
    pub selene_on_path: bool,
    pub stylua_on_path: bool,
}

pub open spec fn json_at(f: (bool, Option<String>)) -> FileState<JsonValue> {
    json_file(f.0, opt_text(f.1))
}

pub open spec fn toml_at(f: (bool, Option<String>)) -> FileState<TomlValue> {
    toml_file(f.0, opt_text(f.1))
}

fn json_state_at(f: &(bool, Option<String>)) -> (r: FileState<JsonValue>)
    ensures
        r == json_at(*f),
{
    match &f.1 {
        Some(t) => file_state_json(f.0, Some(t.as_str())),
        None => file_state_json(f.0, None),
    }
}

fn toml_state_at(f: &(bool, Option<String>)) -> (r: FileState<TomlValue>)
    ensures
        r == toml_at(*f),
{
    match &f.1 {
        Some(t) => file_state_toml(f.0, Some(t.as_str())),
        None => file_state_toml(f.0, None),
    }
}

/// The project file as the checks read it: missing when it cannot be read, invalid when it
/// is not JSON.
pub fn project_file_state(text: Option<&str>) -> (r: FileState<JsonValue>)
    ensures
        r == json_file(text is Some, opt_seq(text)),
{
    file_state_json(text.is_some(), text)
}

/// The facts the checks read, from the files' texts: each config parsed as JSON or TOML.
pub fn project_facts(files: ProjectFiles) -> (f: ProjectFacts)
    ensures
        f.path == files.path,
        f.project == json_file(files.project is Some, opt_text(files.project)),
        f.existing_paths == files.existing_paths,
        f.src_dir == files.src_dir,
        f.luaurc == json_at(files.luaurc),
        f.selene == toml_at(files.selene),
        f.stylua == toml_at(files.stylua),
        f.aftman == toml_at(files.aftman),
        f.wally == toml_at(files.wally),
        f.has_ci == files.has_ci,
        f.readme == files.readme,
        f.gitignore == files.gitignore,
        f.rojo_on_path == files.rojo_on_path,
        f.selene_on_path == files.selene_on_path,
        f.stylua_on_path == files.stylua_on_path,
{
    let project = match &files.project {
        Some(t) => project_file_state(Some(t.as_str())),
        None => project_file_state(None),
    };
    let luaurc = json_state_at(&files.luaurc);
    let selene = toml_state_at(&files.selene);
    let stylua = toml_state_at(&files.stylua);
    let aftman = toml_state_at(&files.aftman);
    let wally = toml_state_at(&files.wally);
    ProjectFacts {
        path: files.path,
        project,
        existing_paths: files.existing_paths,
        src_dir: files.src_dir,
        luaurc,
        selene,
        stylua,
        aftman,
        wally,
        has_ci: files.has_ci,
        readme: files.readme,
        gitignore: files.gitignore,
        rojo_on_path: files.rojo_on_path,
        selene_on_path: files.selene_on_path,
        stylua_on_path: files.stylua_on_path,
    }
}

} // verus!
