//! Repairing a project: which standard files to create, and which to leave to a person.
use vstd::prelude::*;

use crate::check::{colored_grade, declared_paths, grade_span, mark_span, mark_span_of, names, project_paths};
use crate::render::{
    empty_line, line1, line_view, lines_view, push_line, push_span, span, span_of, Span, Style,
};
use crate::data::{json_text_value, opt_seq, parse_json, parse_toml, toml_text_value, first_key_index, json_get, json_get_str, FileState, JsonValue};
use crate::text::{
    chars_of, contains_char, extend, extend_str, rsplit_once, rsplit_once_chars, same_str,
    starts_with, string_of,
};
use crate::version::{lemma_text_order_dual, lemma_text_order_refl, lemma_text_order_trans, text_compare, text_order, Precedence};

verus! {

/// What a fix run created and what exists but is invalid.
#[derive(Debug)]
pub struct FixResult {
    pub created: Vec<String>,
    pub needs_attention: Vec<String>,
}

/// What the file system shows at a path.
#[derive(Debug, Clone, Copy)]
pub enum PathState {
    Absent,
    /// There; whether its text could be read, and whether it parses as JSON and as TOML.
    Present { read: bool, json: bool, toml: bool },
}

/// A file of the standard layout and what is at its path.
#[derive(Debug)]
pub struct FixEntry {
    pub rel: String,
    pub content: String,
    pub state: PathState,
}

/// The files to write, and the report of the run so far.
#[derive(Debug)]
pub struct FixPlan {
    pub writes: Vec<(String, String)>,
    pub result: FixResult,
}

/// The last component of a relative path.
pub open spec fn file_name(rel: Seq<char>) -> Seq<char> {
    match rsplit_once(rel, '/') {
        Some((_, f)) => f,
        None => rel,
    }
}

/// A config that is there and readable but does not parse as its format.
pub open spec fn config_invalid_spec(rel: Seq<char>, st: PathState) -> bool {
    let name = file_name(rel);
    match st {
        PathState::Absent => false,
        PathState::Present { read, json, toml } => read && if name == "default.project.json"@
            || name == ".luaurc"@ {
            !json
        } else if name == ".selene.toml"@ || name == "stylua.toml"@ || name == "aftman.toml"@
            || name == "wally.toml"@ {
            !toml
        } else {
            false
        },
    }
}

/// A standard config that is there and readable is broken exactly when it does not parse
/// in its format: JSON for `default.project.json` and `.luaurc`, TOML for `.selene.toml`,
/// `stylua.toml`, `aftman.toml` and `wally.toml`; a file that is absent or unreadable is
/// never broken.
pub proof fn lemma_broken_configs(rel: Seq<char>, json: bool, toml: bool)
    ensures
        (file_name(rel) == "default.project.json"@ || file_name(rel) == ".luaurc"@)
            ==> (config_invalid_spec(rel, PathState::Present { read: true, json, toml }) <==> !json),
        (file_name(rel) == ".selene.toml"@ || file_name(rel) == "stylua.toml"@ || file_name(rel)
            == "aftman.toml"@ || file_name(rel) == "wally.toml"@) ==> (config_invalid_spec(
            rel,
            PathState::Present { read: true, json, toml },
        ) <==> !toml),
        !config_invalid_spec(rel, PathState::Absent),
        !config_invalid_spec(rel, PathState::Present { read: false, json, toml }),
{
    reveal_strlit("default.project.json");
    reveal_strlit(".luaurc");
    reveal_strlit(".selene.toml");
    reveal_strlit("stylua.toml");
    reveal_strlit("aftman.toml");
    reveal_strlit("wally.toml");
    let n = file_name(rel);
    if n == ".selene.toml"@ || n == "stylua.toml"@ || n == "aftman.toml"@ || n == "wally.toml"@ {
        assert(n.len() != 20 || n[0] != 'd');
        assert(n != "default.project.json"@);
        assert(n.len() != 7 || n[1] != 'l');
        assert(n != ".luaurc"@);
    }
}

/// Whether the config at `rel` is there but broken.
pub fn config_invalid(rel: &str, st: PathState) -> (res: bool)
    ensures
        res == config_invalid_spec(rel@, st),
{
    let v = chars_of(rel);
    let name = match rsplit_once_chars(&v, '/') {
        Some((_, f)) => f,
        None => v,
    };
    match st {
        PathState::Absent => false,
        PathState::Present { read, json, toml } => {
            if !read {
                return false;
            }
            if same_str(&name, "default.project.json") || same_str(&name, ".luaurc") {
                !json
            } else if same_str(&name, ".selene.toml") || same_str(&name, "stylua.toml")
                || same_str(&name, "aftman.toml") || same_str(&name, "wally.toml") {
                !toml
            } else {
                false
            }
        },
    }
}

/// When the project file exists, the project file and the sources are its owner's.
pub open spec fn kept(rel: Seq<char>, project_exists: bool) -> bool {
    project_exists && (rel == "default.project.json"@ || "src/"@.is_prefix_of(rel))
}

pub open spec fn to_write(e: FixEntry, project_exists: bool) -> bool {
    !kept(e.rel@, project_exists) && e.state is Absent
}

/// A config that is there but does not parse is listed for attention, the project file
/// included; it is never written over.
pub open spec fn to_flag(e: FixEntry, project_exists: bool) -> bool {
    config_invalid_spec(e.rel@, e.state)
}

/// The entries that get written, in order.
pub open spec fn writes_spec(es: Seq<FixEntry>, project_exists: bool) -> Seq<(Seq<char>, Seq<char>)>
    decreases es.len(),
{
    if es.len() == 0 {
        Seq::empty()
    } else {
        let init = writes_spec(es.drop_last(), project_exists);
        if to_write(es.last(), project_exists) {
            init.push((es.last().rel@, es.last().content@))
        } else {
            init
        }
    }
}

/// The entries that exist but are invalid, in order.
pub open spec fn flagged_spec(es: Seq<FixEntry>, project_exists: bool) -> Seq<Seq<char>>
    decreases es.len(),
{
    if es.len() == 0 {
        Seq::empty()
    } else {
        let init = flagged_spec(es.drop_last(), project_exists);
        if to_flag(es.last(), project_exists) {
            init.push(es.last().rel@)
        } else {
            init
        }
    }
}

pub open spec fn pair_views(v: Seq<(String, String)>) -> Seq<(Seq<char>, Seq<char>)> {
    v.map_values(|e: (String, String)| (e.0@, e.1@))
}

/// Plans the first part of a fix: each standard file that is not there gets written; one
/// that is there is never touched, and is listed for attention when it does not parse.
/// With a project file present, the project file and the sources are not written.
pub fn apply(entries: &Vec<FixEntry>, project_exists: bool) -> (plan: FixPlan)
    ensures
        pair_views(plan.writes@) == writes_spec(entries@, project_exists),
        names(plan.result.created@) == writes_spec(entries@, project_exists).map_values(
            |w: (Seq<char>, Seq<char>)| w.0,
        ),
        names(plan.result.needs_attention@) == flagged_spec(entries@, project_exists),
{
    let mut writes: Vec<(String, String)> = Vec::new();
    let mut created: Vec<String> = Vec::new();
    let mut flagged: Vec<String> = Vec::new();
    let mut i: usize = 0;
    while i < entries.len()
        invariant
            i <= entries.len(),
            pair_views(writes@) == writes_spec(entries@.take(i as int), project_exists),
            names(created@) == writes_spec(entries@.take(i as int), project_exists).map_values(
                |w: (Seq<char>, Seq<char>)| w.0,
            ),
            names(flagged@) == flagged_spec(entries@.take(i as int), project_exists),
        decreases entries.len() - i,
    {
        let e = &entries[i];
        assert(entries@.take(i + 1).drop_last() =~= entries@.take(i as int));
        assert(entries@.take(i + 1).last() == *e);
        let rel = chars_of(e.rel.as_str());
        let keep = project_exists && (same_str(&rel, "default.project.json") || starts_with(
            &rel,
            &chars_of("src/"),
        ));
        let ghost w0 = pair_views(writes@);
        let ghost c0 = names(created@);
        let ghost f0 = names(flagged@);
        if !keep {
            match e.state {
                PathState::Absent => {
                    writes.push((e.rel.clone(), e.content.clone()));
                    created.push(e.rel.clone());
                    assert(pair_views(writes@) =~= w0.push((e.rel@, e.content@)));
                    assert(names(created@) =~= c0.push(e.rel@));
                    assert(writes_spec(entries@.take(i + 1), project_exists).map_values(
                        |w: (Seq<char>, Seq<char>)| w.0,
                    ) =~= writes_spec(entries@.take(i as int), project_exists).map_values(
                        |w: (Seq<char>, Seq<char>)| w.0,
                    ).push(e.rel@));
                },
                PathState::Present { .. } => {},
            }
        }
        if config_invalid(e.rel.as_str(), e.state) {
            flagged.push(e.rel.clone());
            assert(names(flagged@) =~= f0.push(e.rel@));
        }
        i += 1;
    }
    assert(entries@.take(entries.len() as int) =~= entries@);
    FixPlan { writes, result: FixResult { created, needs_attention: flagged } }
}


/// Paths in strictly increasing text order.
pub open spec fn strictly_sorted(s: Seq<Seq<char>>) -> bool {
    forall|i: int, j: int| 0 <= i < j < s.len() ==> text_order(#[trigger] s[i], #[trigger] s[j])
        == Precedence::Less
}

proof fn lemma_text_order_equal(x: Seq<char>, y: Seq<char>)
    ensures
        text_order(x, y) == Precedence::Equal <==> x == y,
    decreases x.len(),
{
    if x.len() > 0 && y.len() > 0 {
        lemma_text_order_equal(x.drop_first(), y.drop_first());
        if x[0] == y[0] && x.drop_first() == y.drop_first() {
            assert(x =~= seq![x[0]] + x.drop_first());
            assert(y =~= seq![y[0]] + y.drop_first());
        }
        if x == y {
            assert(x.drop_first() == y.drop_first());
        }
    } else if x.len() == 0 && y.len() == 0 {
        assert(x =~= y);
    }
}

/// The paths sorted, each once, as sorting and deduplicating a `Vec<String>` gives them.
pub fn sorted_paths(paths: &Vec<String>) -> (res: Vec<String>)
    ensures
        strictly_sorted(names(res@)),
        names(res@).to_set() == names(paths@).to_set(),
{
    let ghost all = names(paths@);
    let mut out: Vec<String> = Vec::new();
    let mut i: usize = 0;
    assert(names(out@).to_set() =~= all.take(0).to_set());
    while i < paths.len()
        invariant
            i <= paths.len(),
            all == names(paths@),
            strictly_sorted(names(out@)),
            names(out@).to_set() == all.take(i as int).to_set(),
        decreases paths.len() - i,
    {
        let x = chars_of(paths[i].as_str());
        let ghost ov = names(out@);
        let mut p: usize = 0;
        let mut dup = false;
        while p < out.len()
            invariant_except_break
                !dup,
            invariant
                p <= out.len(),
                ov == names(out@),
                x@ == all[i as int],
                i < paths.len(),
                all == names(paths@),
                forall|k: int| 0 <= k < p ==> text_order(#[trigger] ov[k], x@) == Precedence::Less,
            ensures
                p <= out.len(),
                forall|k: int| 0 <= k < p ==> text_order(#[trigger] ov[k], x@) == Precedence::Less,
                dup ==> p < out.len() && ov[p as int] == x@,
                !dup ==> (p < out.len() ==> text_order(ov[p as int], x@) == Precedence::Greater),
            decreases out.len() - p,
        {
            let o = text_compare(&chars_of(out[p].as_str()), &x);
            assert(ov[p as int] == out@[p as int]@);
            match o {
                Precedence::Less => {},
                Precedence::Equal => {
                    proof {
                        lemma_text_order_equal(ov[p as int], x@);
                    }
                    dup = true;
                    break;
                },
                Precedence::Greater => {
                    break;
                },
            }
            p += 1;
        }
        proof {
            assert(all.take(i + 1) =~= all.take(i as int).push(x@));
            crate::deps::lemma_push_to_set(all.take(i as int), x@);
        }
        if !dup {
            out.insert(p, string_of(&x));
            proof {
                assert(names(out@) =~= ov.insert(p as int, x@));
                crate::deps::lemma_insert_to_set(ov, p as int, x@);
                let nv = ov.insert(p as int, x@);
                assert forall|a: int, b: int| 0 <= a < b < nv.len() implies text_order(
                    #[trigger] nv[a],
                    #[trigger] nv[b],
                ) == Precedence::Less by {
                    if b < p {
                        assert(nv[a] == ov[a] && nv[b] == ov[b]);
                    } else if b == p {
                        assert(nv[a] == ov[a]);
                    } else if a > p {
                        assert(nv[a] == ov[a - 1] && nv[b] == ov[b - 1]);
                    } else if a == p {
                        assert(nv[b] == ov[b - 1]);
                        lemma_text_order_dual(ov[p as int], x@);
                        if b - 1 > p {
                            lemma_text_order_trans(x@, ov[p as int], ov[b - 1]);
                        }
                    } else {
                        assert(nv[a] == ov[a] && nv[b] == ov[b - 1]);
                        lemma_text_order_dual(ov[p as int], x@);
                        lemma_text_order_trans(ov[a], x@, ov[p as int]);
                        if b - 1 > p {
                            lemma_text_order_trans(ov[a], ov[p as int], ov[b - 1]);
                        }
                    }
                }
            }
        } else {
            proof {
                assert(ov.contains(x@));
                assert(ov.to_set().insert(x@) =~= ov.to_set());
            }
        }
        i += 1;
    }
    assert(all.take(paths.len() as int) =~= all);
    out
}

/// The module entry written into each declared directory that is not there.
pub open spec fn path_entries_spec(dirs: Seq<(Seq<char>, bool)>) -> Seq<Seq<char>>
    decreases dirs.len(),
{
    if dirs.len() == 0 {
        Seq::empty()
    } else {
        let init = path_entries_spec(dirs.drop_last());
        if dirs.last().1 {
            init
        } else {
            init.push(dirs.last().0 + "/init.lua"@)
        }
    }
}

/// The `init.lua` entries to create, `{path}/init.lua` for each path that is not a
/// directory, given each declared path with whether it is one.
pub fn path_entries(dirs: &Vec<(String, bool)>) -> (res: Vec<String>)
    ensures
        names(res@) == path_entries_spec(dirs@.map_values(|d: (String, bool)| (d.0@, d.1))),
{
    let ghost dv = dirs@.map_values(|d: (String, bool)| (d.0@, d.1));
    let mut out: Vec<String> = Vec::new();
    let mut i: usize = 0;
    while i < dirs.len()
        invariant
            i <= dirs.len(),
            dv == dirs@.map_values(|d: (String, bool)| (d.0@, d.1)),
            names(out@) == path_entries_spec(dv.take(i as int)),
        decreases dirs.len() - i,
    {
        assert(dv.take(i + 1).drop_last() =~= dv.take(i as int));
        assert(dv.take(i + 1).last() == dv[i as int]);
        if !dirs[i].1 {
            let mut t = chars_of(dirs[i].0.as_str());
            extend_str(&mut t, "/init.lua");
            let ghost before = names(out@);
            out.push(string_of(&t));
            assert(names(out@) =~= before.push(t@));
        }
        i += 1;
    }
    assert(dv.take(dirs.len() as int) =~= dv);
    out
}

/// The name a repaired project keeps: the project file's, else the directory's, else `game`.
pub open spec fn project_name_spec(project: FileState<JsonValue>, dir_name: Option<Seq<char>>) -> Seq<char> {
    match project {
        FileState::Parsed(v) if json_get_str(v, "name"@) is Some => json_get_str(v, "name"@)->0,
        _ => match dir_name {
            Some(d) => d,
            None => "game"@,
        },
    }
}

/// The project's name, from its project file or its directory.
pub fn project_name(project: &FileState<JsonValue>, dir_name: Option<&str>) -> (res: String)
    ensures
        res@ == project_name_spec(*project, match dir_name {
            Some(d) => Some(d@),
            None => None,
        }),
{
    match project {
        FileState::Parsed(v) => match v.get("name") {
            Some(n) => match n.as_str() {
                Some(s) => {
                    return string_of(&chars_of(s));
                },
                None => {},
            },
            None => {},
        },
        _ => {},
    }
    match dir_name {
        Some(d) => string_of(&chars_of(d)),
        None => string_of(&chars_of("game")),
    }
}

/// A library maps its whole `src` as the tree; without a readable tree, a library has
/// `src/init.lua` and no `src/server`.
pub open spec fn is_lib_spec(project: FileState<JsonValue>, src_init: bool, src_server: bool) -> bool {
    (project matches FileState::Parsed(v) && json_get(v, "tree"@) matches Some(
        JsonValue::Object(es),
    ) && es@.len() == 1 && first_key_index(es@, "$path"@) is Some) || (src_init && !src_server)
}

/// Whether the project is a library rather than a game.
pub fn is_lib(project: &FileState<JsonValue>, src_init: bool, src_server: bool) -> (res: bool)
    ensures
        res == is_lib_spec(*project, src_init, src_server),
{
    match project {
        FileState::Parsed(v) => match v.get("tree") {
            Some(t) => match t {
                JsonValue::Object(es) => {
                    if es.len() == 1 && crate::data::find_key(es, "$path").is_some() {
                        return true;
                    }
                },
                _ => {},
            },
            None => {},
        },
        _ => {},
    }
    src_init && !src_server
}

/// A fix writes only files that were not there.
pub proof fn lemma_fix_writes_only_absent(es: Seq<FixEntry>, project_exists: bool)
    ensures
        forall|k: int| 0 <= k < writes_spec(es, project_exists).len() ==> exists|j: int|
            0 <= j < es.len() && (#[trigger] es[j]).state is Absent && es[j].rel@
                == (#[trigger] writes_spec(es, project_exists)[k]).0,
    decreases es.len(),
{
    if es.len() > 0 {
        lemma_fix_writes_only_absent(es.drop_last(), project_exists);
        let w = writes_spec(es, project_exists);
        let w0 = writes_spec(es.drop_last(), project_exists);
        assert forall|k: int| 0 <= k < w.len() implies exists|j: int|
            0 <= j < es.len() && (#[trigger] es[j]).state is Absent && es[j].rel@ == (#[trigger] w[k]).0 by {
            if k < w0.len() {
                assert(w[k] == w0[k]);
                let j = choose|j: int|
                    0 <= j < es.drop_last().len() && (#[trigger] es.drop_last()[j]).state is Absent
                        && es.drop_last()[j].rel@ == w0[k].0;
                assert(es[j] == es.drop_last()[j]);
            } else {
                assert(es[es.len() - 1] == es.last());
            }
        }
    }
}

proof fn lemma_flagged_source(es: Seq<FixEntry>, project_exists: bool, k: int) -> (j: int)
    requires
        0 <= k < flagged_spec(es, project_exists).len(),
    ensures
        0 <= j < es.len(),
        es[j].state is Present,
        config_invalid_spec(es[j].rel@, es[j].state),
        es[j].rel@ == flagged_spec(es, project_exists)[k],
    decreases es.len(),
{
    let f0 = flagged_spec(es.drop_last(), project_exists);
    if k < f0.len() {
        let j = lemma_flagged_source(es.drop_last(), project_exists, k);
        assert(es[j] == es.drop_last()[j]);
        j
    } else {
        assert(to_flag(es.last(), project_exists));
        es.len() - 1
    }
}

/// Whether `rel` is the path of one of `es` that is there but broken.
pub open spec fn broken_among(es: Seq<FixEntry>, rel: Seq<char>) -> bool {
    exists|j: int|
        0 <= j < es.len() && (#[trigger] es[j]).rel@ == rel && config_invalid_spec(rel, es[j].state)
}

proof fn lemma_write_source(es: Seq<FixEntry>, project_exists: bool, k: int) -> (j: int)
    requires
        0 <= k < writes_spec(es, project_exists).len(),
    ensures
        0 <= j < es.len(),
        to_write(es[j], project_exists),
        writes_spec(es, project_exists)[k] == (es[j].rel@, es[j].content@),
    decreases es.len(),
{
    let w0 = writes_spec(es.drop_last(), project_exists);
    if k < w0.len() {
        let j = lemma_write_source(es.drop_last(), project_exists, k);
        assert(es[j] == es.drop_last()[j]);
        j
    } else {
        assert(to_write(es.last(), project_exists));
        es.len() - 1
    }
}

proof fn lemma_plan_holds(es: Seq<FixEntry>, project_exists: bool, i: int)
    requires
        0 <= i < es.len(),
    ensures
        to_write(es[i], project_exists) ==> writes_spec(es, project_exists).contains(
            (es[i].rel@, es[i].content@),
        ),
        to_flag(es[i], project_exists) ==> flagged_spec(es, project_exists).contains(es[i].rel@),
    decreases es.len(),
{
    let n = es.len() - 1;
    let w = writes_spec(es, project_exists);
    let w0 = writes_spec(es.drop_last(), project_exists);
    let f = flagged_spec(es, project_exists);
    let f0 = flagged_spec(es.drop_last(), project_exists);
    assert(es.last() == es[n]);
    if i < n {
        assert(es.drop_last()[i] == es[i]);
        lemma_plan_holds(es.drop_last(), project_exists, i);
        if to_write(es[i], project_exists) {
            let k = choose|k: int| 0 <= k < w0.len() && w0[k] == (es[i].rel@, es[i].content@);
            if to_write(es.last(), project_exists) {
                assert(w[k] == w0[k]);
            }
            assert(w.contains((es[i].rel@, es[i].content@)));
        }
        if to_flag(es[i], project_exists) {
            let k = choose|k: int| 0 <= k < f0.len() && f0[k] == es[i].rel@;
            if to_flag(es.last(), project_exists) {
                assert(f[k] == f0[k]);
            }
            assert(f.contains(es[i].rel@));
        }
    } else {
        if to_write(es[i], project_exists) {
            assert(w[w.len() - 1] == (es[i].rel@, es[i].content@));
        }
        if to_flag(es[i], project_exists) {
            assert(f[f.len() - 1] == es[i].rel@);
        }
    }
}

/// What a fix plans, entry by entry: every standard file that is not there is written
/// with its content, except that once the project file exists, neither it nor anything
/// under `src/` is ever written; every config that is there but broken is listed for
/// attention, and nothing else is.
pub proof fn lemma_fix_plan(es: Seq<FixEntry>, project_exists: bool)
    ensures
        forall|i: int|
            0 <= i < es.len() && (#[trigger] es[i]).state is Absent && !(project_exists && (
            es[i].rel@ == "default.project.json"@ || "src/"@.is_prefix_of(es[i].rel@)))
                ==> writes_spec(es, project_exists).contains((es[i].rel@, es[i].content@)),
        project_exists ==> forall|k: int|
            0 <= k < writes_spec(es, project_exists).len() ==> (#[trigger] writes_spec(
                es,
                project_exists,
            )[k]).0 != "default.project.json"@ && !"src/"@.is_prefix_of(
                writes_spec(es, project_exists)[k].0,
            ),
        forall|i: int|
            0 <= i < es.len() && config_invalid_spec((#[trigger] es[i]).rel@, es[i].state)
                ==> flagged_spec(es, project_exists).contains(es[i].rel@),
        forall|k: int|
            0 <= k < flagged_spec(es, project_exists).len() ==> broken_among(
                es,
                #[trigger] flagged_spec(es, project_exists)[k],
            ),
{
    assert forall|i: int|
        0 <= i < es.len() && (#[trigger] es[i]).state is Absent && !(project_exists && (
        es[i].rel@ == "default.project.json"@ || "src/"@.is_prefix_of(es[i].rel@)))
        implies writes_spec(es, project_exists).contains((es[i].rel@, es[i].content@)) by {
        lemma_plan_holds(es, project_exists, i);
    }
    if project_exists {
        assert forall|k: int| 0 <= k < writes_spec(es, project_exists).len() implies (
        #[trigger] writes_spec(es, project_exists)[k]).0 != "default.project.json"@
            && !"src/"@.is_prefix_of(writes_spec(es, project_exists)[k].0) by {
            let j = lemma_write_source(es, project_exists, k);
        }
    }
    assert forall|i: int|
        0 <= i < es.len() && config_invalid_spec((#[trigger] es[i]).rel@, es[i].state)
        implies flagged_spec(es, project_exists).contains(es[i].rel@) by {
        lemma_plan_holds(es, project_exists, i);
    }
    assert forall|k: int| 0 <= k < flagged_spec(es, project_exists).len() implies broken_among(
        es,
        #[trigger] flagged_spec(es, project_exists)[k],
    ) by {
        let j = lemma_flagged_source(es, project_exists, k);
        assert(es[j].rel@ == flagged_spec(es, project_exists)[k]);
    }
}

/// When the standard files have distinct paths, no path a fix writes is also one it lists
/// for attention.
pub proof fn lemma_fix_created_and_flagged_disjoint(es: Seq<FixEntry>, project_exists: bool)
    requires
        forall|i: int, j: int| 0 <= i < j < es.len() ==> (#[trigger] es[i]).rel@ != (#[trigger] es[j]).rel@,
    ensures
        forall|k: int, l: int|
            0 <= k < writes_spec(es, project_exists).len() && 0 <= l < flagged_spec(
                es,
                project_exists,
            ).len() ==> (#[trigger] writes_spec(es, project_exists)[k]).0 != #[trigger] flagged_spec(
                es,
                project_exists,
            )[l],
{
    lemma_fix_writes_only_absent(es, project_exists);
    let w = writes_spec(es, project_exists);
    let f = flagged_spec(es, project_exists);
    assert forall|k: int, l: int| 0 <= k < w.len() && 0 <= l < f.len() implies (#[trigger] w[k]).0
        != #[trigger] f[l] by {
        let a = choose|j: int| 0 <= j < es.len() && (#[trigger] es[j]).state is Absent && es[j].rel@ == w[k].0;
        let b = lemma_flagged_source(es, project_exists, l);
        if w[k].0 == f[l] {
            if a < b {
                assert(es[a].rel@ != es[b].rel@);
            } else if b < a {
                assert(es[b].rel@ != es[a].rel@);
            }
        }
    }
}

/// What is at a path: absent when it is not there; there, with whether its text could be
/// read and whether that text is JSON and is TOML.
pub open spec fn path_state_spec(exists: bool, text: Option<Seq<char>>) -> PathState {
    if !exists {
        PathState::Absent
    } else {
        match text {
            None => PathState::Present { read: false, json: false, toml: false },
            Some(t) => PathState::Present {
                read: true,
                json: json_text_value(t) is Some,
                toml: toml_text_value(t) is Ok,
            },
        }
    }
}

/// The state of a path, from whether it is there and its text when it could be read.
pub fn path_state_of(exists: bool, text: Option<&str>) -> (r: PathState)
    ensures
        r == path_state_spec(exists, opt_seq(text)),
{
    if !exists {
        return PathState::Absent;
    }
    match text {
        None => PathState::Present { read: false, json: false, toml: false },
        Some(t) => {
            let json = match parse_json(t) {
                Some(_) => true,
                None => false,
            };
            let toml = match parse_toml(t) {
                Ok(_) => true,
                Err(_) => false,
            };
            PathState::Present { read: true, json, toml }
        },
    }
}

/// The `init.lua` written into each declared path that is not a directory.
pub open spec fn path_writes_spec(dirs: Seq<(Seq<char>, bool)>) -> Seq<(Seq<char>, Seq<char>)> {
    path_entries_spec(dirs).map_values(|e: Seq<char>| (e, "return {}\n"@))
}

/// The second part of a fix: an `init.lua` holding `return {}` in each declared path that
/// is not a directory, given each path with whether it is one; each is added to what the
/// run created.
pub fn finish(result: FixResult, dirs: &Vec<(String, bool)>) -> (r: (Vec<(String, String)>, FixResult))
    ensures
        pair_views(r.0@) == path_writes_spec(dirs@.map_values(|d: (String, bool)| (d.0@, d.1))),
        names(r.1.created@) == names(result.created@) + path_entries_spec(
            dirs@.map_values(|d: (String, bool)| (d.0@, d.1)),
        ),
        r.1.needs_attention == result.needs_attention,
{
    let ghost dv = dirs@.map_values(|d: (String, bool)| (d.0@, d.1));
    let entries = path_entries(dirs);
    let ghost ev = names(entries@);
    let mut writes: Vec<(String, String)> = Vec::new();
    let mut created = result.created;
    let ghost c0 = names(created@);
    let mut i: usize = 0;
    while i < entries.len()
        invariant
            i <= entries.len(),
            ev == names(entries@),
            ev == path_entries_spec(dv),
            pair_views(writes@) == ev.take(i as int).map_values(|e: Seq<char>| (e, "return {}\n"@)),
            names(created@) == c0 + ev.take(i as int),
        decreases entries.len() - i,
    {
        let ghost w0 = pair_views(writes@);
        let ghost n0 = names(created@);
        writes.push((entries[i].clone(), string_of(&chars_of("return {}\n"))));
        created.push(entries[i].clone());
        assert(ev[i as int] == entries@[i as int]@);
        assert(pair_views(writes@) =~= w0.push((ev[i as int], "return {}\n"@)));
        assert(ev.take(i + 1) =~= ev.take(i as int).push(ev[i as int]));
        assert(ev.take(i + 1).map_values(|e: Seq<char>| (e, "return {}\n"@)) =~= ev.take(
            i as int,
        ).map_values(|e: Seq<char>| (e, "return {}\n"@)).push((ev[i as int], "return {}\n"@)));
        assert(names(created@) =~= n0.push(entries@[i as int]@));
        i += 1;
    }
    assert(ev.take(entries.len() as int) =~= ev);
    (writes, FixResult { created, needs_attention: result.needs_attention })
}

/// A fix never both writes a file and lists it for attention: it writes only what is not
/// there, and lists only what is there.
pub proof fn lemma_fix_written_never_flagged(e: FixEntry, project_exists: bool)
    ensures
        !(to_write(e, project_exists) && to_flag(e, project_exists)),
{
}

/// A second fix writes nothing: once the files that a fix wrote are there (and the project
/// file, if it was written, makes the sources its owner's), no standard file is left to write.
pub proof fn lemma_fix_second_run_writes_nothing(
    es: Seq<FixEntry>,
    es2: Seq<FixEntry>,
    project_exists: bool,
    project_exists_now: bool,
)
    requires
        es2.len() == es.len(),
        project_exists ==> project_exists_now,
        forall|i: int| 0 <= i < es.len() ==> (#[trigger] es2[i]).rel@ == es[i].rel@,
        forall|i: int|
            0 <= i < es.len() ==> (to_write(#[trigger] es[i], project_exists)
                ==> es2[i].state is Present),
        forall|i: int|
            0 <= i < es.len() ==> (!to_write(#[trigger] es[i], project_exists) ==> es2[i].state
                == es[i].state),
    ensures
        writes_spec(es2, project_exists_now).len() == 0,
    decreases es.len(),
{
    if es.len() > 0 {
        let n = es.len() - 1;
        assert forall|i: int| 0 <= i < es.drop_last().len() implies (#[trigger] es2.drop_last()[i]).rel@
            == es.drop_last()[i].rel@ && (to_write(es.drop_last()[i], project_exists)
            ==> es2.drop_last()[i].state is Present) && (!to_write(es.drop_last()[i], project_exists)
            ==> es2.drop_last()[i].state == es.drop_last()[i].state) by {
            assert(es2.drop_last()[i] == es2[i] && es.drop_last()[i] == es[i]);
        }
        lemma_fix_second_run_writes_nothing(
            es.drop_last(),
            es2.drop_last(),
            project_exists,
            project_exists_now,
        );
        assert(es2.last() == es2[n] && es.last() == es[n]);
        assert(!to_write(es2[n], project_exists_now));
    }
}

proof fn lemma_flagged_none(es: Seq<FixEntry>, project_exists: bool)
    ensures
        flagged_spec(es, project_exists).len() == 0 <==> forall|i: int|
            0 <= i < es.len() ==> !to_flag(#[trigger] es[i], project_exists),
    decreases es.len(),
{
    if es.len() > 0 {
        lemma_flagged_none(es.drop_last(), project_exists);
        if flagged_spec(es, project_exists).len() == 0 {
            assert forall|i: int| 0 <= i < es.len() implies !to_flag(#[trigger] es[i], project_exists) by {
                if i < es.len() - 1 {
                    assert(es[i] == es.drop_last()[i]);
                }
            }
        } else {
            if forall|i: int| 0 <= i < es.len() ==> !to_flag(#[trigger] es[i], project_exists) {
                assert forall|i: int| 0 <= i < es.drop_last().len() implies !to_flag(
                    #[trigger] es.drop_last()[i],
                    project_exists,
                ) by {
                    assert(es[i] == es.drop_last()[i]);
                }
                assert(!to_flag(es[es.len() - 1], project_exists));
            }
        }
    }
}

/// A second fix lists nothing for attention when the first listed nothing: each file the
/// first wrote reads back as the text it was given, which parses in its format, and every
/// other file is as it was.
pub proof fn lemma_fix_second_run_flags_nothing(
    es: Seq<FixEntry>,
    es2: Seq<FixEntry>,
    project_exists: bool,
    project_exists_now: bool,
)
    requires
        es2.len() == es.len(),
        forall|i: int| 0 <= i < es.len() ==> (#[trigger] es2[i]).rel@ == es[i].rel@,
        flagged_spec(es, project_exists).len() == 0,
        forall|i: int|
            0 <= i < es.len() ==> (to_write(#[trigger] es[i], project_exists) ==> es2[i].state
                == path_state_spec(true, Some(es[i].content@))),
        forall|i: int|
            0 <= i < es.len() ==> (to_write(#[trigger] es[i], project_exists)
                ==> !config_invalid_spec(es[i].rel@, path_state_spec(true, Some(es[i].content@)))),
        forall|i: int|
            0 <= i < es.len() ==> (!to_write(#[trigger] es[i], project_exists) ==> es2[i].state
                == es[i].state),
    ensures
        flagged_spec(es2, project_exists_now).len() == 0,
{
    lemma_flagged_none(es, project_exists);
    lemma_flagged_none(es2, project_exists_now);
    assert forall|i: int| 0 <= i < es2.len() implies !to_flag(#[trigger] es2[i], project_exists_now) by {
        assert(!to_flag(es[i], project_exists));
    }
}

/// Whether anything among the paths `fs` lies inside directory `p`.
pub open spec fn holds_under(fs: Set<Seq<char>>, p: Seq<char>) -> bool {
    exists|q: Seq<char>| fs.contains(q) && (p + "/"@).is_prefix_of(q)
}

proof fn lemma_path_entry_source(dirs: Seq<(Seq<char>, bool)>, k: int) -> (j: int)
    requires
        0 <= k < path_entries_spec(dirs).len(),
    ensures
        0 <= j < dirs.len(),
        !dirs[j].1,
        path_entries_spec(dirs)[k] == dirs[j].0 + "/init.lua"@,
    decreases dirs.len(),
{
    let init = path_entries_spec(dirs.drop_last());
    if k < init.len() {
        let j = lemma_path_entry_source(dirs.drop_last(), k);
        assert(dirs[j] == dirs.drop_last()[j]);
        j
    } else {
        dirs.len() - 1
    }
}

/// A fix overwrites no file: every standard file it writes was not there, and every
/// `{path}/init.lua` it writes was not there when the declared paths were looked at,
/// given that `fs` holds the paths there before the fix, that an entry is absent
/// exactly when its path is not among them, and that a path with anything inside it is
/// reported as a directory.
pub proof fn lemma_fix_overwrites_nothing(
    fs: Set<Seq<char>>,
    es: Seq<FixEntry>,
    project_exists: bool,
    fs_later: Set<Seq<char>>,
    dirs: Seq<(Seq<char>, bool)>,
)
    requires
        forall|i: int|
            0 <= i < es.len() ==> ((#[trigger] es[i]).state is Absent <==> !fs.contains(
                es[i].rel@,
            )),
        fs.subset_of(fs_later),
        forall|i: int|
            0 <= i < dirs.len() ==> (holds_under(fs_later, (#[trigger] dirs[i]).0) ==> dirs[i].1),
    ensures
        forall|k: int|
            0 <= k < writes_spec(es, project_exists).len() ==> !fs.contains(
                (#[trigger] writes_spec(es, project_exists)[k]).0,
            ),
        forall|k: int|
            0 <= k < path_writes_spec(dirs).len() ==> !fs_later.contains(
                (#[trigger] path_writes_spec(dirs)[k]).0,
            ),
{
    lemma_fix_writes_only_absent(es, project_exists);
    let w = writes_spec(es, project_exists);
    assert forall|k: int| 0 <= k < w.len() implies !fs.contains((#[trigger] w[k]).0) by {
        let j = choose|j: int|
            0 <= j < es.len() && (#[trigger] es[j]).state is Absent && es[j].rel@ == w[k].0;
    }
    let pw = path_writes_spec(dirs);
    assert forall|k: int| 0 <= k < pw.len() implies !fs_later.contains((#[trigger] pw[k]).0) by {
        let j = lemma_path_entry_source(dirs, k);
        let p = dirs[j].0;
        let q = p + "/init.lua"@;
        assert(pw[k].0 == q);
        reveal_strlit("/init.lua");
        reveal_strlit("/");
        assert(q.subrange(0, (p + "/"@).len() as int) =~= p + "/"@);
        assert((p + "/"@).is_prefix_of(q));
        if fs_later.contains(q) {
            assert(holds_under(fs_later, p));
        }
    }
}

/// The files `fs`, path to text, after the writes in order.
pub open spec fn after_writes(
    fs: Map<Seq<char>, Seq<char>>,
    w: Seq<(Seq<char>, Seq<char>)>,
) -> Map<Seq<char>, Seq<char>>
    decreases w.len(),
{
    if w.len() == 0 {
        fs
    } else {
        after_writes(fs, w.drop_last()).insert(w.last().0, w.last().1)
    }
}

/// What is at `rel` among the files `fs`, each of them readable.
pub open spec fn state_in(fs: Map<Seq<char>, Seq<char>>, rel: Seq<char>) -> PathState {
    path_state_spec(
        fs.dom().contains(rel),
        if fs.dom().contains(rel) {
            Some(fs[rel])
        } else {
            None
        },
    )
}

proof fn lemma_after_writes_untouched(
    fs: Map<Seq<char>, Seq<char>>,
    es: Seq<FixEntry>,
    project_exists: bool,
    r: Seq<char>,
)
    requires
        forall|j: int| 0 <= j < es.len() && (#[trigger] es[j]).rel@ == r ==> !to_write(es[j], project_exists),
    ensures
        after_writes(fs, writes_spec(es, project_exists)).dom().contains(r) == fs.dom().contains(r),
        fs.dom().contains(r) ==> after_writes(fs, writes_spec(es, project_exists))[r] == fs[r],
    decreases es.len(),
{
    if es.len() > 0 {
        assert forall|j: int| 0 <= j < es.drop_last().len() && (#[trigger] es.drop_last()[j]).rel@ == r
            implies !to_write(es.drop_last()[j], project_exists) by {
            assert(es.drop_last()[j] == es[j]);
        }
        lemma_after_writes_untouched(fs, es.drop_last(), project_exists, r);
        let w = writes_spec(es, project_exists);
        let w0 = writes_spec(es.drop_last(), project_exists);
        assert(es.last() == es[es.len() - 1]);
        if to_write(es.last(), project_exists) {
            assert(w.drop_last() =~= w0);
            assert(es.last().rel@ != r);
        } else {
            assert(w == w0);
        }
    }
}

proof fn lemma_after_writes_written(
    fs: Map<Seq<char>, Seq<char>>,
    es: Seq<FixEntry>,
    project_exists: bool,
    i: int,
)
    requires
        forall|a: int, b: int| 0 <= a < b < es.len() ==> (#[trigger] es[a]).rel@ != (#[trigger] es[b]).rel@,
        0 <= i < es.len(),
        to_write(es[i], project_exists),
    ensures
        after_writes(fs, writes_spec(es, project_exists)).dom().contains(es[i].rel@),
        after_writes(fs, writes_spec(es, project_exists))[es[i].rel@] == es[i].content@,
    decreases es.len(),
{
    let w = writes_spec(es, project_exists);
    let w0 = writes_spec(es.drop_last(), project_exists);
    assert(es.last() == es[es.len() - 1]);
    if i == es.len() - 1 {
        assert(w.drop_last() =~= w0);
    } else {
        assert(es.drop_last()[i] == es[i]);
        assert forall|a: int, b: int| 0 <= a < b < es.drop_last().len() implies (
        #[trigger] es.drop_last()[a]).rel@ != (#[trigger] es.drop_last()[b]).rel@ by {
            assert(es.drop_last()[a] == es[a] && es.drop_last()[b] == es[b]);
        }
        lemma_after_writes_written(fs, es.drop_last(), project_exists, i);
        if to_write(es.last(), project_exists) {
            assert(w.drop_last() =~= w0);
            assert(es[i].rel@ != es[es.len() - 1].rel@);
        } else {
            assert(w == w0);
        }
    }
}

/// Running a fix twice changes nothing the second time: over files `fs` where the first
/// run listed nothing for attention, the second run, seeing the files the first one left,
/// writes nothing and lists nothing. This holds given that the standard files have
/// distinct paths, that each entry's state is read from the files, and that the text of
/// each standard file parses in its format (which the outside parsers decide).
pub proof fn lemma_fix_twice_changes_nothing(
    fs: Map<Seq<char>, Seq<char>>,
    es: Seq<FixEntry>,
    es2: Seq<FixEntry>,
    project_exists: bool,
    project_exists_now: bool,
)
    requires
        forall|a: int, b: int| 0 <= a < b < es.len() ==> (#[trigger] es[a]).rel@ != (#[trigger] es[b]).rel@,
        es2.len() == es.len(),
        forall|i: int| 0 <= i < es.len() ==> (#[trigger] es2[i]).rel@ == es[i].rel@,
        forall|i: int| 0 <= i < es.len() ==> (#[trigger] es[i]).state == state_in(fs, es[i].rel@),
        forall|i: int|
            0 <= i < es.len() ==> (#[trigger] es2[i]).state == state_in(
                after_writes(fs, writes_spec(es, project_exists)),
                es2[i].rel@,
            ),
        project_exists ==> project_exists_now,
        flagged_spec(es, project_exists).len() == 0,
        forall|i: int|
            0 <= i < es.len() ==> !config_invalid_spec(
                (#[trigger] es[i]).rel@,
                path_state_spec(true, Some(es[i].content@)),
            ),
    ensures
        writes_spec(es2, project_exists_now).len() == 0,
        flagged_spec(es2, project_exists_now).len() == 0,
{
    let m = after_writes(fs, writes_spec(es, project_exists));
    assert forall|i: int| 0 <= i < es.len() implies (to_write(#[trigger] es[i], project_exists)
        ==> es2[i].state == path_state_spec(true, Some(es[i].content@))) && (!to_write(
        es[i],
        project_exists,
    ) ==> es2[i].state == es[i].state) by {
        if to_write(es[i], project_exists) {
            lemma_after_writes_written(fs, es, project_exists, i);
        } else {
            assert forall|j: int| 0 <= j < es.len() && (#[trigger] es[j]).rel@ == es[i].rel@
                implies !to_write(es[j], project_exists) by {
                if j < i {
                    assert(es[j].rel@ != es[i].rel@);
                } else if j > i {
                    assert(es[i].rel@ != es[j].rel@);
                }
            }
            lemma_after_writes_untouched(fs, es, project_exists, es[i].rel@);
        }
    }
    lemma_fix_second_run_writes_nothing(es, es2, project_exists, project_exists_now);
    lemma_fix_second_run_flags_nothing(es, es2, project_exists, project_exists_now);
}

/// Once every declared path is a directory, no `init.lua` is left to create.
pub proof fn lemma_path_entries_none_when_all_dirs(dirs: Seq<(Seq<char>, bool)>)
    requires
        forall|i: int| 0 <= i < dirs.len() ==> (#[trigger] dirs[i]).1,
    ensures
        path_entries_spec(dirs).len() == 0,
    decreases dirs.len(),
{
    if dirs.len() > 0 {
        assert forall|i: int| 0 <= i < dirs.drop_last().len() implies (#[trigger] dirs.drop_last()[i]).1 by {
            assert(dirs.drop_last()[i] == dirs[i]);
        }
        lemma_path_entries_none_when_all_dirs(dirs.drop_last());
        assert(dirs.last() == dirs[dirs.len() - 1]);
    }
}

// ---- the terminal report of a fix ----

pub open spec fn created_line(rel: String) -> Seq<(Seq<char>, Style)> {
    seq![("  "@, Style::Plain), mark_span(true), (" "@ + rel@ + " "@, Style::Plain), ("created"@, Style::Dimmed)]
}

pub open spec fn attention_line(rel: String) -> Seq<(Seq<char>, Style)> {
    seq![
        ("  "@, Style::Plain),
        mark_span(false),
        (" "@ + rel@ + " "@, Style::Plain),
        ("exists but invalid - remove it and run --fix again"@, Style::Dimmed),
    ]
}

/// What a fix did, after the report of the project before it: the files created, the
/// ones left for a person, and the grade now.
pub open spec fn fix_lines_spec(r: FixResult, grade: char, score: u8) -> Seq<Seq<(Seq<char>, Style)>> {
    seq![Seq::empty(), seq![("  fixing"@, Style::Plain)]] + r.created@.map_values(
        |c: String| created_line(c),
    ) + r.needs_attention@.map_values(|b: String| attention_line(b)) + if r.created@.len() == 0
        && r.needs_attention@.len() == 0 {
        seq![seq![("  nothing to fix"@, Style::Plain)]]
    } else {
        Seq::empty()
    } + seq![Seq::empty(), seq![("  now   "@, Style::Plain), grade_span(grade, score)]]
}

fn item_line(rel: &String, ok: bool) -> (res: Vec<Span>)
    ensures
        line_view(res) == if ok {
            created_line(*rel)
        } else {
            attention_line(*rel)
        },
{
    let mut l: Vec<Span> = Vec::new();
    push_span(&mut l, span("  ", Style::Plain));
    push_span(&mut l, mark_span_of(ok));
    let mut t: Vec<char> = Vec::new();
    extend_str(&mut t, " ");
    extend_str(&mut t, rel.as_str());
    extend_str(&mut t, " ");
    push_span(&mut l, span_of(&t, Style::Plain));
    if ok {
        push_span(&mut l, span("created", Style::Dimmed));
    } else {
        push_span(&mut l, span("exists but invalid - remove it and run --fix again", Style::Dimmed));
    }
    assert(line_view(l) =~= if ok {
        created_line(*rel)
    } else {
        attention_line(*rel)
    });
    l
}

/// The lines of the fix report.
pub fn fix_lines(r: &FixResult, grade: char, score: u8) -> (res: Vec<Vec<Span>>)
    ensures
        lines_view(res@) == fix_lines_spec(*r, grade, score),
{
    let mut out: Vec<Vec<Span>> = Vec::new();
    push_line(&mut out, empty_line());
    push_line(&mut out, line1(span("  fixing", Style::Plain)));
    let ghost head = lines_view(out@);
    assert(head =~= seq![Seq::empty(), seq![("  fixing"@, Style::Plain)]]);
    let mut i: usize = 0;
    while i < r.created.len()
        invariant
            i <= r.created.len(),
            lines_view(out@) == head + r.created@.map_values(|c: String| created_line(c)).take(
                i as int,
            ),
        decreases r.created.len() - i,
    {
        push_line(&mut out, item_line(&r.created[i], true));
        assert(r.created@.map_values(|c: String| created_line(c)).take(i + 1) =~= r.created@.map_values(
            |c: String| created_line(c),
        ).take(i as int).push(created_line(r.created@[i as int])));
        i += 1;
    }
    assert(r.created@.map_values(|c: String| created_line(c)).take(r.created.len() as int)
        =~= r.created@.map_values(|c: String| created_line(c)));
    let ghost mid = lines_view(out@);
    let mut j: usize = 0;
    while j < r.needs_attention.len()
        invariant
            j <= r.needs_attention.len(),
            lines_view(out@) == mid + r.needs_attention@.map_values(|b: String| attention_line(b)).take(
                j as int,
            ),
        decreases r.needs_attention.len() - j,
    {
        push_line(&mut out, item_line(&r.needs_attention[j], false));
        assert(r.needs_attention@.map_values(|b: String| attention_line(b)).take(j + 1)
            =~= r.needs_attention@.map_values(|b: String| attention_line(b)).take(j as int).push(
            attention_line(r.needs_attention@[j as int]),
        ));
        j += 1;
    }
    assert(r.needs_attention@.map_values(|b: String| attention_line(b)).take(
        r.needs_attention.len() as int,
    ) =~= r.needs_attention@.map_values(|b: String| attention_line(b)));
    let ghost before = lines_view(out@);
    if r.created.len() == 0 && r.needs_attention.len() == 0 {
        push_line(&mut out, line1(span("  nothing to fix", Style::Plain)));
    }
    let ghost after_note = lines_view(out@);
    assert(after_note =~= before + if r.created@.len() == 0 && r.needs_attention@.len() == 0 {
        seq![seq![("  nothing to fix"@, Style::Plain)]]
    } else {
        Seq::<Seq<(Seq<char>, Style)>>::empty()
    });
    push_line(&mut out, empty_line());
    let mut g: Vec<Span> = Vec::new();
    push_span(&mut g, span("  now   ", Style::Plain));
    push_span(&mut g, colored_grade(grade, score));
    assert(line_view(g) =~= seq![("  now   "@, Style::Plain), grade_span(grade, score)]);
    push_line(&mut out, g);
    assert(lines_view(out@) =~= fix_lines_spec(*r, grade, score));
    out
}

} // verus!
