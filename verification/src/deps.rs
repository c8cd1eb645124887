//! Dependencies of `wally.toml`: where each points, and how it compares with the registry.
use vstd::prelude::*;

use crate::render::{
    empty_line, line1, line_view, lines_view, number, pad, pad_right, push_line, push_span, span,
    span_of, span_view, Span, Style,
};
use crate::data::{find_key, keys_distinct, toml_tables_distinct, json_text_value, parse_json, parse_toml, toml_text_value, json_get, json_get_str, toml_get, toml_get_str, JsonValue, TomlValue};
use crate::requirement::{
    latest_stable, latest_stable_spec, parse_req, parse_req_spec, satisfies_spec, views, Req,
    ReqView,
};
use crate::text::{
    decimal, join, join_chars, lines, lines_of, starts_with, trim, trim_chars, u64_decimal, chars_of, contains_char, extend, extend_str, split_once, split_once_chars,
    strip_prefix, strip_prefix_chars, strip_suffix, strip_suffix_chars, string_of,
    trim_end_char, trim_end_char_chars,
};
use crate::version::{
    lemma_text_order_dual, lemma_text_order_refl, lemma_text_order_trans, parse_version,
    lemma_version_order_antisymmetric, parse_version_spec, text_compare, text_order,
    version_order, version_text, Precedence,
    Version, VersionView,
};

verus! {

/// Why the registry of a project cannot be used.
#[derive(Debug)]
pub enum DepsError {
    /// `wally.toml` names no `[package].registry`.
    NoRegistry,
    /// The registry is not on github.com.
    UnsupportedRegistry(String),
    /// The registry URL has no owner or no repository.
    BadRegistry(String),
    /// `wally.toml` is not TOML; the parser's message.
    InvalidWally(String),
}

impl DepsError {
    pub open spec fn text(self) -> Seq<char> {
        match self {
            DepsError::NoRegistry => "wally.toml has no [package].registry"@,
            DepsError::UnsupportedRegistry(r) => "unsupported registry '"@ + r@
                + "': only github.com registries are supported"@,
            DepsError::BadRegistry(r) => "cannot parse registry '"@ + r@ + "'"@,
            DepsError::InvalidWally(m) => "invalid wally.toml: "@ + m@,
        }
    }

    /// The error as a sentence.
    pub fn message(&self) -> (res: String)
        ensures
            res@ == self.text(),
    {
        let mut out: Vec<char> = Vec::new();
        match self {
            DepsError::NoRegistry => {
                extend_str(&mut out, "wally.toml has no [package].registry");
            },
            DepsError::UnsupportedRegistry(r) => {
                extend_str(&mut out, "unsupported registry '");
                extend_str(&mut out, r.as_str());
                extend_str(&mut out, "': only github.com registries are supported");
            },
            DepsError::BadRegistry(r) => {
                extend_str(&mut out, "cannot parse registry '");
                extend_str(&mut out, r.as_str());
                extend_str(&mut out, "'");
            },
            DepsError::InvalidWally(m) => {
                extend_str(&mut out, "invalid wally.toml: ");
                extend_str(&mut out, m.as_str());
            },
        }
        string_of(&out)
    }
}

/// The part of a github.com registry URL after the host, or `None` for any other host.
pub open spec fn github_rest(registry: Seq<char>) -> Option<Seq<char>> {
    let r0 = trim_end_char(registry, '/');
    let r = match strip_suffix(r0, ".git"@) {
        Some(x) => x,
        None => r0,
    };
    match strip_prefix(r, "https://github.com/"@) {
        Some(x) => Some(x),
        None => strip_prefix(r, "http://github.com/"@),
    }
}

/// Owner and repository: the text before the first `/` and all after it.
pub open spec fn owner_repo(rest: Seq<char>) -> (Seq<char>, Seq<char>) {
    match split_once(rest, '/') {
        Some((o, r)) => (o, r),
        None => (rest, Seq::<char>::empty()),
    }
}

/// Where the registry's index manifests live: `raw.githubusercontent.com/{owner}/{repo}/main`.
pub open spec fn raw_base_spec(registry: Seq<char>) -> Option<Seq<char>> {
    match github_rest(registry) {
        None => None,
        Some(rest) => {
            let (o, r) = owner_repo(rest);
            if o.len() == 0 || r.len() == 0 {
                None
            } else {
                Some("https://raw.githubusercontent.com/"@ + o + "/"@ + r + "/main"@)
            }
        },
    }
}

/// The base URL of a github.com registry's raw index files.
pub fn raw_base(registry: &str) -> (res: Result<String, DepsError>)
    ensures
        match res {
            Ok(b) => raw_base_spec(registry@) == Some(b@),
            Err(DepsError::UnsupportedRegistry(r)) => github_rest(registry@) is None && r@
                == registry@,
            Err(DepsError::BadRegistry(r)) => github_rest(registry@) is Some && raw_base_spec(
                registry@,
            ) is None && r@ == registry@,
            Err(DepsError::NoRegistry) => false,
            Err(DepsError::InvalidWally(_)) => false,
        },
{
    let v = chars_of(registry);
    let r0 = trim_end_char_chars(&v, '/');
    let r = match strip_suffix_chars(&r0, ".git") {
        Some(x) => x,
        None => r0,
    };
    let rest = match strip_prefix_chars(&r, "https://github.com/") {
        Some(x) => x,
        None => match strip_prefix_chars(&r, "http://github.com/") {
            Some(x) => x,
            None => {
                return Err(DepsError::UnsupportedRegistry(string_of(&v)));
            },
        },
    };
    let (owner, repo) = match split_once_chars(&rest, '/') {
        Some((o, p)) => (o, p),
        None => (rest.clone(), Vec::new()),
    };
    if owner.len() == 0 || repo.len() == 0 {
        return Err(DepsError::BadRegistry(string_of(&v)));
    }
    let mut out: Vec<char> = Vec::new();
    extend_str(&mut out, "https://raw.githubusercontent.com/");
    extend(&mut out, &owner);
    extend_str(&mut out, "/");
    extend(&mut out, &repo);
    extend_str(&mut out, "/main");
    assert(repo@ == owner_repo(rest@).1);
    Ok(string_of(&out))
}

/// The `[package].registry` of a parsed `wally.toml`.
pub fn registry(doc: &TomlValue) -> (res: Result<String, DepsError>)
    ensures
        match res {
            Ok(r) => toml_get(*doc, "package"@) matches Some(p) && toml_get_str(p, "registry"@)
                == Some(r@),
            Err(e) => e is NoRegistry && !(toml_get(*doc, "package"@) matches Some(p)
                && toml_get_str(p, "registry"@) is Some),
        },
{
    match doc.get("package") {
        Some(p) => match p.get("registry") {
            Some(r) => match r.as_str() {
                Some(s) => Ok(string_of(&chars_of(s))),
                None => Err(DepsError::NoRegistry),
            },
            None => Err(DepsError::NoRegistry),
        },
        None => Err(DepsError::NoRegistry),
    }
}


/// Where a dependency points.
#[derive(Debug)]
pub enum Target {
    Registry { name: String, req: Req },
    Git,
    Unsupported(String),
}

/// A target as plain values.
pub enum TargetView {
    Registry(Seq<char>, ReqView),
    Git,
    Unsupported(Seq<char>),
}

impl View for Target {
    type V = TargetView;

    open spec fn view(&self) -> TargetView {
        match self {
            Target::Registry { name, req } => TargetView::Registry(name@, req@),
            Target::Git => TargetView::Git,
            Target::Unsupported(n) => TargetView::Unsupported(n@),
        }
    }
}

pub open spec fn quoted(prefix: Seq<char>, s: Seq<char>) -> Seq<char> {
    prefix + "'"@ + s + "'"@
}

pub open spec fn short_name_note(alias: Seq<char>) -> Seq<char> {
    "short name without scope; use '"@ + alias + "@<version>' or 'scope/"@ + alias
        + "@<version>'"@
}

/// A requirement given apart from the name: the alias must carry the scope.
pub open spec fn scoped_target(alias: Seq<char>, version: Seq<char>) -> TargetView {
    if alias.contains('/') {
        match parse_req_spec(version) {
            Some(r) => TargetView::Registry(alias, r),
            None => TargetView::Unsupported(quoted("cannot parse version "@, version)),
        }
    } else {
        TargetView::Unsupported(short_name_note(alias))
    }
}

/// A dependency is `scope/name@requirement`, a table with `git`, a table with a
/// `version` under a scoped alias, or a bare version under a scoped alias.
pub open spec fn resolve_spec(alias: Seq<char>, v: TomlValue) -> TargetView {
    match v {
        TomlValue::Str(s) => match split_once(s@, '@') {
            Some((name, req)) => match parse_req_spec(req) {
                Some(r) => TargetView::Registry(name, r),
                None => TargetView::Unsupported(quoted("cannot parse version requirement "@, req)),
            },
            None => if parse_version_spec(s@) is Some {
                scoped_target(alias, s@)
            } else {
                TargetView::Unsupported(quoted("cannot parse "@, s@))
            },
        },
        TomlValue::Table(_, text) => if toml_get(v, "git"@) is Some {
            TargetView::Git
        } else {
            match toml_get_str(v, "version"@) {
                Some(version) => scoped_target(alias, version),
                None => TargetView::Unsupported(quoted("unknown dependency form "@, text@)),
            }
        },
        TomlValue::Other(text) => TargetView::Unsupported(
            quoted("unknown dependency form "@, text@),
        ),
    }
}

fn quoted_string(prefix: &str, s: &Vec<char>) -> (res: String)
    ensures
        res@ == quoted(prefix@, s@),
{
    let mut out: Vec<char> = Vec::new();
    extend_str(&mut out, prefix);
    extend_str(&mut out, "'");
    extend(&mut out, s);
    extend_str(&mut out, "'");
    string_of(&out)
}

fn scoped(alias: &Vec<char>, version: &Vec<char>) -> (res: Target)
    ensures
        res@ == scoped_target(alias@, version@),
{
    if contains_char(alias, '/') {
        let text = string_of(version);
        match parse_req(text.as_str()) {
            Some(r) => Target::Registry { name: string_of(alias), req: r },
            None => Target::Unsupported(quoted_string("cannot parse version ", version)),
        }
    } else {
        let mut out: Vec<char> = Vec::new();
        extend_str(&mut out, "short name without scope; use '");
        extend(&mut out, alias);
        extend_str(&mut out, "@<version>' or 'scope/");
        extend(&mut out, alias);
        extend_str(&mut out, "@<version>'");
        Target::Unsupported(string_of(&out))
    }
}

/// Where the dependency `alias = value` points.
pub fn resolve(alias: &str, value: &TomlValue) -> (res: Target)
    ensures
        res@ == resolve_spec(alias@, *value),
{
    let a = chars_of(alias);
    match value {
        TomlValue::Str(s) => {
            let sv = chars_of(s.as_str());
            match split_once_chars(&sv, '@') {
                Some((name, req)) => {
                    let rt = string_of(&req);
                    match parse_req(rt.as_str()) {
                        Some(r) => Target::Registry { name: string_of(&name), req: r },
                        None => Target::Unsupported(
                            quoted_string("cannot parse version requirement ", &req),
                        ),
                    }
                },
                None => {
                    if parse_version(s.as_str()).is_some() {
                        scoped(&a, &sv)
                    } else {
                        Target::Unsupported(quoted_string("cannot parse ", &sv))
                    }
                },
            }
        },
        TomlValue::Table(_, text) => {
            if value.get("git").is_some() {
                Target::Git
            } else {
                match value.get("version") {
                    Some(x) => match x.as_str() {
                        Some(version) => scoped(&a, &chars_of(version)),
                        None => Target::Unsupported(
                            quoted_string("unknown dependency form ", &chars_of(text.as_str())),
                        ),
                    },
                    None => Target::Unsupported(
                        quoted_string("unknown dependency form ", &chars_of(text.as_str())),
                    ),
                }
            }
        },
        TomlValue::Other(text) => Target::Unsupported(
            quoted_string("unknown dependency form ", &chars_of(text.as_str())),
        ),
    }
}


/// The `(section, alias, value)` entries of one dependency section, in table order.
pub open spec fn section_entries(doc: TomlValue, sec: Seq<char>) -> Seq<(Seq<char>, Seq<char>, TomlValue)> {
    match toml_get(doc, sec) {
        Some(TomlValue::Table(es, _)) => es@.map_values(
            |e: (String, TomlValue)| (sec, e.0@, e.1),
        ),
        _ => Seq::empty(),
    }
}

/// All dependency entries of the three sections that Wally knows.
pub open spec fn collected_specs(doc: TomlValue) -> Seq<(Seq<char>, Seq<char>, TomlValue)> {
    section_entries(doc, "dependencies"@) + section_entries(doc, "server-dependencies"@)
        + section_entries(doc, "dev-dependencies"@)
}

/// Entries ordered by section, then by alias.
pub open spec fn spec_entry_order(
    a: (Seq<char>, Seq<char>, TomlValue),
    b: (Seq<char>, Seq<char>, TomlValue),
) -> Precedence {
    if text_order(a.0, b.0) != Precedence::Equal {
        text_order(a.0, b.0)
    } else {
        text_order(a.1, b.1)
    }
}

pub open spec fn sorted_entries(s: Seq<(Seq<char>, Seq<char>, TomlValue)>) -> bool {
    forall|i: int, j: int|
        0 <= i < j < s.len() ==> spec_entry_order(#[trigger] s[i], #[trigger] s[j])
            != Precedence::Greater
}

/// Where entry `x` goes in the sorted `s`: before the first entry above it.
pub open spec fn entry_slot(
    s: Seq<(Seq<char>, Seq<char>, TomlValue)>,
    x: (Seq<char>, Seq<char>, TomlValue),
) -> int
    decreases s.len(),
{
    if s.len() == 0 {
        0
    } else if spec_entry_order(s[0], x) == Precedence::Greater {
        0
    } else {
        1 + entry_slot(s.drop_first(), x)
    }
}

/// Entries sorted by section, then alias, equal keys kept in the order they come.
pub open spec fn sort_entries_spec(
    s: Seq<(Seq<char>, Seq<char>, TomlValue)>,
) -> Seq<(Seq<char>, Seq<char>, TomlValue)>
    decreases s.len(),
{
    if s.len() == 0 {
        s
    } else {
        let t = sort_entries_spec(s.drop_last());
        t.insert(entry_slot(t, s.last()), s.last())
    }
}

proof fn lemma_entry_slot(
    s: Seq<(Seq<char>, Seq<char>, TomlValue)>,
    x: (Seq<char>, Seq<char>, TomlValue),
    p: int,
)
    requires
        0 <= p <= s.len(),
        forall|k: int| 0 <= k < p ==> spec_entry_order(#[trigger] s[k], x) != Precedence::Greater,
        p < s.len() ==> spec_entry_order(s[p], x) == Precedence::Greater,
    ensures
        entry_slot(s, x) == p,
    decreases p,
{
    if p > 0 {
        let t = s.drop_first();
        assert forall|k: int| 0 <= k < p - 1 implies spec_entry_order(#[trigger] t[k], x)
            != Precedence::Greater by {
            assert(t[k] == s[k + 1]);
        }
        if p - 1 < t.len() {
            assert(t[p - 1] == s[p]);
        }
        lemma_entry_slot(t, x, p - 1);
        assert(spec_entry_order(s[0], x) != Precedence::Greater);
    }
}

/// No two entries share both section and alias.
pub open spec fn distinct_entries(s: Seq<(Seq<char>, Seq<char>, TomlValue)>) -> bool {
    forall|i: int, j: int|
        0 <= i < j < s.len() ==> !((#[trigger] s[i]).0 == (#[trigger] s[j]).0 && s[i].1 == s[j].1)
}

/// Entries in strictly ascending order of section, then alias.
pub open spec fn strictly_sorted_entries(s: Seq<(Seq<char>, Seq<char>, TomlValue)>) -> bool {
    forall|i: int, j: int|
        0 <= i < j < s.len() ==> spec_entry_order(#[trigger] s[i], #[trigger] s[j])
            == Precedence::Less
}

pub open spec fn entry_views(v: Seq<(String, String, TomlValue)>) -> Seq<(Seq<char>, Seq<char>, TomlValue)> {
    v.map_values(|e: (String, String, TomlValue)| (e.0@, e.1@, e.2))
}

proof fn lemma_text_order_equal(x: Seq<char>, y: Seq<char>)
    ensures
        text_order(x, y) == Precedence::Equal <==> x == y,
    decreases x.len(),
{
    if x.len() > 0 && y.len() > 0 {
        lemma_text_order_equal(x.drop_first(), y.drop_first());
        if x[0] == y[0] && x.drop_first() == y.drop_first() {
            assert(x =~= seq![x[0]] + x.drop_first());
            assert(y =~= seq![y[0]] + y.drop_first());
        }
        if x == y {
            assert(x.drop_first() == y.drop_first());
        }
    } else if x.len() == 0 && y.len() == 0 {
        assert(x =~= y);
    }
}

proof fn lemma_entry_order_facts(
    a: (Seq<char>, Seq<char>, TomlValue),
    b: (Seq<char>, Seq<char>, TomlValue),
    c: (Seq<char>, Seq<char>, TomlValue),
)
    ensures
        spec_entry_order(a, b) == spec_entry_order(b, a).reverse(),
        spec_entry_order(a, b) != Precedence::Greater && spec_entry_order(b, c) != Precedence::Greater
            ==> spec_entry_order(a, c) != Precedence::Greater,
        spec_entry_order(a, b) == Precedence::Less && spec_entry_order(b, c) != Precedence::Greater
            ==> spec_entry_order(a, c) == Precedence::Less,
{
    lemma_text_order_dual(a.0, b.0);
    lemma_text_order_dual(a.1, b.1);
    lemma_text_order_trans(a.0, b.0, c.0);
    lemma_text_order_trans(a.1, b.1, c.1);
    lemma_text_order_equal(a.0, b.0);
    lemma_text_order_equal(b.0, c.0);
    lemma_text_order_equal(a.0, c.0);
}

proof fn lemma_entry_order_strict(
    a: (Seq<char>, Seq<char>, TomlValue),
    b: (Seq<char>, Seq<char>, TomlValue),
)
    requires
        spec_entry_order(a, b) != Precedence::Greater,
        !(a.0 == b.0 && a.1 == b.1),
    ensures
        spec_entry_order(a, b) == Precedence::Less,
{
    lemma_text_order_equal(a.0, b.0);
    lemma_text_order_equal(a.1, b.1);
}

proof fn lemma_section_distinct(d: TomlValue, sec: Seq<char>)
    requires
        toml_tables_distinct(d),
    ensures
        distinct_entries(section_entries(d, sec)),
        forall|k: int|
            0 <= k < section_entries(d, sec).len() ==> (#[trigger] section_entries(d, sec)[k]).0
                == sec,
{
    match d {
        TomlValue::Table(es, _) => {
            let keys = es@.map_values(|e: (String, TomlValue)| e.0@);
            match keys.index_of_first(sec) {
                Some(i) => {
                    keys.index_of_first_ensures(sec);
                    assert(0 <= i < es@.len());
                    match es@[i].1 {
                        TomlValue::Table(inner, _) => {
                            assert(keys_distinct(inner@));
                            let t = section_entries(d, sec);
                            assert forall|a: int, b: int| 0 <= a < b < t.len() implies !((
                            #[trigger] t[a]).0 == (#[trigger] t[b]).0 && t[a].1 == t[b].1) by {
                                assert(t[a].1 == inner@[a].0@ && t[b].1 == inner@[b].0@);
                            }
                        },
                        _ => {},
                    }
                },
                None => {},
            }
        },
        _ => {},
    }
}

proof fn lemma_collected_distinct(d: TomlValue)
    requires
        toml_tables_distinct(d),
    ensures
        distinct_entries(collected_specs(d)),
{
    reveal_strlit("dependencies");
    reveal_strlit("server-dependencies");
    reveal_strlit("dev-dependencies");
    let s0 = section_entries(d, "dependencies"@);
    let s1 = section_entries(d, "server-dependencies"@);
    let s2 = section_entries(d, "dev-dependencies"@);
    lemma_section_distinct(d, "dependencies"@);
    lemma_section_distinct(d, "server-dependencies"@);
    lemma_section_distinct(d, "dev-dependencies"@);
    let c = collected_specs(d);
    assert(c == s0 + s1 + s2);
    assert("dependencies"@.len() == 12);
    assert("server-dependencies"@.len() == 19);
    assert("dev-dependencies"@.len() == 16);
    let n0 = s0.len() as int;
    let n1 = s1.len() as int;
    assert forall|i: int| 0 <= i < c.len() implies (#[trigger] c[i]).0.len() == (if i < n0 {
        12int
    } else if i < n0 + n1 {
        19int
    } else {
        16int
    }) && (i < n0 ==> c[i] == s0[i]) && (n0 <= i < n0 + n1 ==> c[i] == s1[i - n0]) && (n0 + n1
        <= i ==> c[i] == s2[i - n0 - n1]) by {
        if i < n0 {
            assert(c[i] == s0[i]);
        } else if i < n0 + n1 {
            assert(c[i] == s1[i - n0]);
        } else {
            assert(c[i] == s2[i - n0 - n1]);
        }
    }
    assert forall|i: int, j: int| 0 <= i < j < c.len() implies !((#[trigger] c[i]).0 == (
    #[trigger] c[j]).0 && c[i].1 == c[j].1) by {
        if j < n0 {
            assert(s0[i] == c[i] && s0[j] == c[j]);
        } else if j < n0 + n1 {
            if i >= n0 {
                assert(s1[i - n0] == c[i] && s1[j - n0] == c[j]);
            }
        } else {
            if i >= n0 + n1 {
                assert(s2[i - n0 - n1] == c[i] && s2[j - n0 - n1] == c[j]);
            }
        }
    }
}

proof fn lemma_insert_multiset<A>(s: Seq<A>, p: int, x: A)
    requires
        0 <= p <= s.len(),
    ensures
        s.insert(p, x).to_multiset() == s.to_multiset().insert(x),
{
    broadcast use vstd::seq_lib::group_to_multiset_ensures;
    broadcast use vstd::multiset::group_multiset_axioms;

    let t = s.insert(p, x);
    assert(t.remove(p) =~= s);
    assert(t[p] == x);
    assert(t.contains(x));
    assert(t.to_multiset().remove(x).insert(x) =~= t.to_multiset());
}

fn entry_compare(a_sec: &String, a_alias: &String, b_sec: &String, b_alias: &String) -> (res: Precedence)
    ensures
        res == if text_order(a_sec@, b_sec@) != Precedence::Equal {
            text_order(a_sec@, b_sec@)
        } else {
            text_order(a_alias@, b_alias@)
        },
{
    let o = text_compare(&chars_of(a_sec.as_str()), &chars_of(b_sec.as_str()));
    match o {
        Precedence::Equal => text_compare(&chars_of(a_alias.as_str()), &chars_of(b_alias.as_str())),
        _ => o,
    }
}

/// Every dependency entry of `doc`, section by section and in the document's order; the
/// values are moved out of the document.
fn gather_specs(doc: TomlValue) -> (all: Vec<(String, String, TomlValue)>)
    ensures
        entry_views(all@) == collected_specs(doc),
{
    let ghost d = doc;
    let mut top: Vec<(String, TomlValue)> = match doc {
        TomlValue::Table(es, _) => es,
        _ => {
            assert(collected_specs(d) =~= Seq::empty());
            return Vec::new();
        },
    };
    let ghost orig = top@;
    let ghost keys = orig.map_values(|e: (String, TomlValue)| e.0@);
    let sections: [&str; 3] = ["dependencies", "server-dependencies", "dev-dependencies"];
    proof {
        reveal_strlit("dependencies");
        reveal_strlit("server-dependencies");
        reveal_strlit("dev-dependencies");
    }
    let mut all: Vec<(String, String, TomlValue)> = Vec::new();
    let mut si: usize = 0;
    assert(collected_specs(d) =~= section_entries(d, sections[0]@) + section_entries(
        d,
        sections[1]@,
    ) + section_entries(d, sections[2]@));
    while si < 3
        invariant
            si <= 3,
            sections@.len() == 3,
            sections@[0]@.len() == 12,
            sections@[1]@.len() == 19,
            sections@[2]@.len() == 16,
            d matches TomlValue::Table(es, _) && es@ == orig,
            keys == orig.map_values(|e: (String, TomlValue)| e.0@),
            top@.map_values(|e: (String, TomlValue)| e.0@) == keys,
            top@.len() == orig.len(),
            forall|j: int|
                0 <= j < orig.len() ==> #[trigger] top@[j].1 == orig[j].1 || (si > 0 && keys[j]
                    == sections@[0]@) || (si > 1 && keys[j] == sections@[1]@) || (si > 2
                    && keys[j] == sections@[2]@),
            collected_specs(d) == section_entries(d, sections@[0]@) + section_entries(
                d,
                sections@[1]@,
            ) + section_entries(d, sections@[2]@),
            entry_views(all@) == if si == 0 {
                Seq::empty()
            } else if si == 1 {
                section_entries(d, sections@[0]@)
            } else if si == 2 {
                section_entries(d, sections@[0]@) + section_entries(d, sections@[1]@)
            } else {
                collected_specs(d)
            },
        decreases 3 - si,
    {
        let sec = sections[si];
        let ghost base = entry_views(all@);
        assert(sec@ == sections@[si as int]@);
        match find_key(&top, sec) {
            Some(i) => {
                let ghost before = top@;
                assert(keys[i as int] == sec@) by {
                    keys.index_of_first_ensures(sec@);
                }
                assert(before[i as int].1 == orig[i as int].1) by {
                    assert(keys[i as int] == before.map_values(|e: (String, TomlValue)| e.0@)[i as int]);
                    assert(top@[i as int].1 == orig[i as int].1 || (si > 0 && keys[i as int]
                        == sections@[0]@) || (si > 1 && keys[i as int] == sections@[1]@) || (si
                        > 2 && keys[i as int] == sections@[2]@));
                }
                let (k, v) = top.remove(i);
                top.insert(i, (k, TomlValue::Other(String::new())));
                assert(toml_get(d, sec@) == Some(v));
                proof {
                    assert forall|j: int| 0 <= j < top@.len() && j != i implies #[trigger] top@[j]
                        == before[j] by {
                        if j < i {
                            assert(top@[j] == before.remove(i as int)[j]);
                        } else {
                            assert(top@[j] == before.remove(i as int)[j - 1]);
                        }
                    }
                    assert(top@[i as int].0 == before[i as int].0);
                    assert(top@.map_values(|e: (String, TomlValue)| e.0@) =~= keys);
                    assert forall|j: int| 0 <= j < orig.len() implies #[trigger] top@[j].1
                        == orig[j].1 || (si + 1 > 0 && keys[j] == sections@[0]@) || (si + 1 > 1
                        && keys[j] == sections@[1]@) || (si + 1 > 2 && keys[j] == sections@[2]@) by {
                        if j != i {
                            assert(top@[j] == before[j]);
                        }
                    }
                }
                match v {
                    TomlValue::Table(es_in, _) => {
                        let mut es2 = es_in;
                        let ghost e0 = es2@;
                        let ghost target = e0.map_values(
                            |e: (String, TomlValue)| (sec@, e.0@, e.1),
                        );
                        let ghost mut n: int = 0;
                        assert(e0.skip(0) =~= e0);
                        assert(target.take(0) =~= Seq::<(Seq<char>, Seq<char>, TomlValue)>::empty());
                        while es2.len() > 0
                            invariant
                                0 <= n <= e0.len(),
                                es2@ == e0.skip(n),
                                target == e0.map_values(
                                    |e: (String, TomlValue)| (sec@, e.0@, e.1),
                                ),
                                entry_views(all@) == base + target.take(n),
                            decreases es2.len(),
                        {
                            let ghost rv = es2@;
                            let (a, x) = es2.remove(0);
                            assert(rv[0] == e0[n]);
                            let ghost before_all = entry_views(all@);
                            all.push((string_of(&chars_of(sec)), a, x));
                            assert(entry_views(all@) =~= before_all.push(target[n]));
                            assert(target.take(n + 1) =~= target.take(n).push(target[n]));
                            assert(es2@ =~= e0.skip(n + 1));
                            proof {
                                n = n + 1;
                            }
                        }
                        assert(target.take(e0.len() as int) =~= target);
                        assert(section_entries(d, sec@) == target);
                    },
                    _ => {
                        assert(section_entries(d, sec@) =~= Seq::empty());
                        assert(entry_views(all@) =~= base + section_entries(d, sec@));
                    },
                }
            },
            None => {
                assert(toml_get(d, sec@) is None);
                assert(section_entries(d, sec@) =~= Seq::empty());
                assert(entry_views(all@) =~= base + section_entries(d, sec@));
                assert forall|j: int| 0 <= j < orig.len() implies #[trigger] top@[j].1
                    == orig[j].1 || (si + 1 > 0 && keys[j] == sections@[0]@) || (si + 1 > 1
                    && keys[j] == sections@[1]@) || (si + 1 > 2 && keys[j] == sections@[2]@) by {}
            },
        }
        si += 1;
    }
    all
}

/// `all` ordered by section, then alias, entries with equal keys kept in their order.
fn sort_specs(all: Vec<(String, String, TomlValue)>) -> (out: Vec<(String, String, TomlValue)>)
    ensures
        entry_views(out@).to_multiset() == entry_views(all@).to_multiset(),
        sorted_entries(entry_views(out@)),
        distinct_entries(entry_views(all@)) ==> strictly_sorted_entries(entry_views(out@)),
        entry_views(out@) == sort_entries_spec(entry_views(all@)),
{
    let ghost av = entry_views(all@);
    let mut rest = all;
    let mut out: Vec<(String, String, TomlValue)> = Vec::new();
    let ghost mut i: int = 0;
    assert(entry_views(out@) =~= av.take(0));
    assert(av.skip(0) =~= av);
    while rest.len() > 0
        invariant
            0 <= i <= av.len(),
            entry_views(rest@) == av.skip(i),
            entry_views(out@).to_multiset() == av.take(i).to_multiset(),
            sorted_entries(entry_views(out@)),
            distinct_entries(av) ==> strictly_sorted_entries(entry_views(out@)),
            entry_views(out@) == sort_entries_spec(av.take(i)),
        decreases rest.len(),
    {
        let ghost rv = rest@;
        assert(entry_views(rv).len() == rv.len());
        assert(i < av.len());
        let item = rest.remove(0);
        let ghost x = av[i];
        assert(entry_views(rv)[0] == av.skip(i)[0]);
        assert(entry_views(rv)[0] == x);
        assert(rest@ =~= rv.skip(1));
        assert(entry_views(rv.skip(1)) =~= entry_views(rv).skip(1));
        assert(av.skip(i).skip(1) =~= av.skip(i + 1));
        assert(x == (item.0@, item.1@, item.2));
        assert(entry_views(rest@) =~= av.skip(i + 1));
        let mut p: usize = 0;
        while p < out.len()
            invariant
                p <= out.len(),
                x == (item.0@, item.1@, item.2),
                forall|k: int| 0 <= k < p ==> spec_entry_order(
                    #[trigger] entry_views(out@)[k],
                    x,
                ) != Precedence::Greater,
            ensures
                p <= out.len(),
                forall|k: int| 0 <= k < p ==> spec_entry_order(
                    #[trigger] entry_views(out@)[k],
                    x,
                ) != Precedence::Greater,
                p < out.len() ==> spec_entry_order(entry_views(out@)[p as int], x)
                    == Precedence::Greater,
            decreases out.len() - p,
        {
            let o = entry_compare(&out[p].0, &out[p].1, &item.0, &item.1);
            assert(entry_views(out@)[p as int] == (out@[p as int].0@, out@[p as int].1@, out@[p as int].2));
            match o {
                Precedence::Greater => {
                    break;
                },
                _ => {},
            }
            p += 1;
        }
        let ghost ov = entry_views(out@);
        out.insert(p, item);
        assert(entry_views(out@) =~= ov.insert(p as int, x));
        proof {
            lemma_entry_slot(ov, x, p as int);
            assert(av.take(i + 1).drop_last() =~= av.take(i));
            assert(av.take(i + 1).last() == x);
            lemma_insert_multiset(ov, p as int, x);
            assert(av.take(i + 1) =~= av.take(i).push(x));
            broadcast use vstd::seq_lib::group_to_multiset_ensures;
            let nv = ov.insert(p as int, x);
            assert forall|a: int, b: int| 0 <= a < b < nv.len() implies spec_entry_order(
                #[trigger] nv[a],
                #[trigger] nv[b],
            ) != Precedence::Greater by {
                if b < p {
                    assert(nv[a] == ov[a] && nv[b] == ov[b]);
                } else if b == p {
                    assert(nv[a] == ov[a]);
                } else if a > p {
                    assert(nv[a] == ov[a - 1] && nv[b] == ov[b - 1]);
                } else if a == p {
                    assert(nv[b] == ov[b - 1]);
                    lemma_entry_order_facts(x, ov[p as int], ov[b - 1]);
                    lemma_entry_order_facts(ov[p as int], x, ov[b - 1]);
                    if b - 1 > p {
                        assert(spec_entry_order(ov[p as int], ov[b - 1]) != Precedence::Greater);
                    } else {
                        lemma_text_order_refl(ov[p as int].0);
                        lemma_text_order_refl(ov[p as int].1);
                    }
                } else {
                    assert(nv[a] == ov[a] && nv[b] == ov[b - 1]);
                    assert(spec_entry_order(ov[a], x) != Precedence::Greater);
                    lemma_entry_order_facts(ov[a], x, ov[p as int]);
                    lemma_entry_order_facts(x, ov[p as int], ov[b - 1]);
                    lemma_entry_order_facts(ov[p as int], x, ov[b - 1]);
                    lemma_entry_order_facts(ov[a], ov[p as int], ov[b - 1]);
                    if b - 1 > p {
                        assert(spec_entry_order(ov[p as int], ov[b - 1]) != Precedence::Greater);
                    }
                }
            }
            if distinct_entries(av) {
                assert forall|k: int| 0 <= k < ov.len() implies !((#[trigger] ov[k]).0 == x.0
                    && ov[k].1 == x.1) by {
                    broadcast use vstd::seq_lib::group_to_multiset_ensures;
                    assert(ov.contains(ov[k]));
                    assert(av.take(i).to_multiset().count(ov[k]) > 0);
                    assert(av.take(i).contains(ov[k]));
                    let j = choose|j: int| 0 <= j < i && av.take(i)[j] == ov[k];
                    assert(av[j] == ov[k]);
                }
                assert forall|a: int, b: int| 0 <= a < b < nv.len() implies spec_entry_order(
                    #[trigger] nv[a],
                    #[trigger] nv[b],
                ) == Precedence::Less by {
                    if b < p {
                        assert(nv[a] == ov[a] && nv[b] == ov[b]);
                    } else if b == p {
                        assert(nv[a] == ov[a]);
                        lemma_entry_order_strict(ov[a], x);
                    } else if a > p {
                        assert(nv[a] == ov[a - 1] && nv[b] == ov[b - 1]);
                    } else if a == p {
                        assert(nv[b] == ov[b - 1]);
                        lemma_entry_order_facts(ov[p as int], x, ov[b - 1]);
                        lemma_entry_order_facts(x, ov[p as int], ov[b - 1]);
                    } else {
                        assert(nv[a] == ov[a] && nv[b] == ov[b - 1]);
                    }
                }
            }
            i = i + 1;
        }
    }
    assert(av.take(av.len() as int) =~= av);
    out
}

/// The dependency entries of `wally.toml`'s text, ordered by section and then alias;
/// none when the text is not TOML.
pub fn parse_specs(text: &str) -> (res: Vec<(String, String, TomlValue)>)
    ensures
        match toml_text_value(text@) {
            Ok(d) => {
                &&& entry_views(res@) == sort_entries_spec(collected_specs(d))
                &&& entry_views(res@).to_multiset() == collected_specs(d).to_multiset()
                &&& strictly_sorted_entries(entry_views(res@))
            },
            Err(_) => res@.len() == 0,
        },
        sorted_entries(entry_views(res@)),
{
    match parse_toml(text) {
        Ok(d) => {
            proof {
                lemma_collected_distinct(d);
            }
            sort_specs(gather_specs(d))
        },
        Err(_) => Vec::new(),
    }
}

/// The lines of a registry manifest worth parsing: trimmed, without the empty ones.
pub open spec fn manifest_lines_spec(text: Seq<char>) -> Seq<Seq<char>> {
    lines(text).map_values(|l: Seq<char>| trim(l)).filter(|l: Seq<char>| l.len() > 0)
}

/// The lines of a registry manifest, trimmed, empty ones left out. The registry stores
/// one JSON document per published version, one per line.
pub fn manifest_lines(text: &str) -> (res: Vec<String>)
    ensures
        res@.map_values(|s: String| s@) == manifest_lines_spec(text@),
{
    let ls = lines_of(text);
    let ghost lv = ls@.map_values(|p: Vec<char>| p@);
    let ghost tv = lv.map_values(|l: Seq<char>| trim(l));
    let mut out: Vec<String> = Vec::new();
    let mut i: usize = 0;
    while i < ls.len()
        invariant
            i <= ls.len(),
            lv == ls@.map_values(|p: Vec<char>| p@),
            tv == lv.map_values(|l: Seq<char>| trim(l)),
            out@.map_values(|s: String| s@) == tv.take(i as int).filter(
                |l: Seq<char>| l.len() > 0,
            ),
        decreases ls.len() - i,
    {
        let t = trim_chars(&ls[i]);
        assert(tv.take(i + 1).drop_last() =~= tv.take(i as int));
        assert(tv.take(i + 1).last() == t@);
        reveal_with_fuel(Seq::filter, 1);
        let ghost before = out@.map_values(|s: String| s@);
        if t.len() > 0 {
            out.push(string_of(&t));
            assert(out@.map_values(|s: String| s@) =~= before.push(t@));
        }
        i += 1;
    }
    assert(tv.take(ls.len() as int) =~= tv);
    assert(tv == lines(text@).map_values(|l: Seq<char>| trim(l)));
    out
}

/// The version a manifest line records under `package.version`, when it reads as one.
pub open spec fn doc_version(d: Option<JsonValue>) -> Option<VersionView> {
    match d {
        Some(v) => match json_get(v, "package"@) {
            Some(p) => match json_get_str(p, "version"@) {
                Some(s) => parse_version_spec(s),
                None => None,
            },
            None => None,
        },
        None => None,
    }
}

/// The versions that the parsed manifest lines record, in order.
pub open spec fn manifest_versions_spec(ds: Seq<Option<JsonValue>>) -> Seq<VersionView>
    decreases ds.len(),
{
    if ds.len() == 0 {
        Seq::empty()
    } else {
        let init = manifest_versions_spec(ds.drop_last());
        match doc_version(ds.last()) {
            Some(v) => init.push(v),
            None => init,
        }
    }
}

/// The versions published in a registry manifest, given its lines as parsed JSON
/// (`None` for a line that is not JSON).
pub fn manifest_versions(docs: &Vec<Option<JsonValue>>) -> (res: Vec<Version>)
    ensures
        views(res@) == manifest_versions_spec(docs@),
{
    let mut out: Vec<Version> = Vec::new();
    let mut i: usize = 0;
    while i < docs.len()
        invariant
            i <= docs.len(),
            views(out@) == manifest_versions_spec(docs@.take(i as int)),
        decreases docs.len() - i,
    {
        assert(docs@.take(i + 1).drop_last() =~= docs@.take(i as int));
        assert(docs@.take(i + 1).last() == docs@[i as int]);
        let ghost before = views(out@);
        let found: Option<Version> = match &docs[i] {
            Some(v) => match v.get("package") {
                Some(p) => match p.get("version") {
                    Some(x) => match x.as_str() {
                        Some(s) => parse_version(s),
                        None => None,
                    },
                    None => None,
                },
                None => None,
            },
            None => None,
        };
        match found {
            Some(v) => {
                out.push(v);
                assert(views(out@) =~= before.push(out@[out@.len() - 1]@));
            },
            None => {},
        }
        i += 1;
    }
    assert(docs@.take(docs.len() as int) =~= docs@);
    out
}

/// How a dependency compares with the registry.
#[derive(Debug, Clone, Copy, PartialEq, Eq, Structural)]
pub enum DepStatus {
    /// The newest release meets the requirement.
    Current,
    /// A newer release exists that the requirement excludes.
    Outdated,
    /// No published version meets the requirement.
    Missing,
    /// The registry does not know the package.
    NotFound,
    /// The registry could not be reached.
    Error,
    Git,
    Unsupported,
}

impl DepStatus {
    pub open spec fn text(self) -> Seq<char> {
        match self {
            DepStatus::Current => "ok"@,
            DepStatus::Outdated => "outdated"@,
            DepStatus::Missing => "missing"@,
            DepStatus::NotFound => "not found"@,
            DepStatus::Error => "error"@,
            DepStatus::Git => "git"@,
            DepStatus::Unsupported => "unsupported"@,
        }
    }

    /// The status as the report writes it.
    pub fn as_str(&self) -> (res: &'static str)
        ensures
            res@ == self.text(),
    {
        match self {
            DepStatus::Current => "ok",
            DepStatus::Outdated => "outdated",
            DepStatus::Missing => "missing",
            DepStatus::NotFound => "not found",
            DepStatus::Error => "error",
            DepStatus::Git => "git",
            DepStatus::Unsupported => "unsupported",
        }
    }
}

/// One audited dependency.
#[derive(Debug)]
pub struct DepRow {
    pub name: String,
    pub section: String,
    pub required: String,
    pub latest: Option<String>,
    pub status: DepStatus,
    pub note: Option<String>,
}

/// The requirement as `wally.toml` writes it: a string as it stands, anything else as TOML.
pub open spec fn required_text(v: TomlValue) -> Seq<char> {
    match v {
        TomlValue::Str(s) => s@,
        TomlValue::Table(_, t) => t@,
        TomlValue::Other(t) => t@,
    }
}

/// Versions sorted (each next one not below the one before), without a version twice
/// in a row, holding each of `vs` and nothing else.
pub open spec fn arranged(all: Seq<VersionView>, vs: Seq<VersionView>) -> bool {
    &&& forall|k: int| 0 <= k < all.len() - 1 ==> not_after(#[trigger] all[k], all[k + 1])
    &&& forall|k: int| 0 <= k < all.len() - 1 ==> #[trigger] all[k] != all[k + 1]
    &&& all.to_set() == vs.to_set()
}

/// Where `x` goes in the sorted `s`: before the first version above it.
pub open spec fn first_above(s: Seq<VersionView>, x: VersionView) -> int
    decreases s.len(),
{
    if s.len() == 0 {
        0
    } else if version_order(s[0], x) == Precedence::Greater {
        0
    } else {
        1 + first_above(s.drop_first(), x)
    }
}

/// `vs` sorted by precedence, versions of equal precedence kept in the order they come.
pub open spec fn sort_spec(vs: Seq<VersionView>) -> Seq<VersionView>
    decreases vs.len(),
{
    if vs.len() == 0 {
        vs
    } else {
        let s = sort_spec(vs.drop_last());
        s.insert(first_above(s, vs.last()), vs.last())
    }
}

/// `s` without each version that equals the one kept before it.
pub open spec fn dedup_spec(s: Seq<VersionView>) -> Seq<VersionView>
    decreases s.len(),
{
    if s.len() == 0 {
        s
    } else {
        let r = dedup_spec(s.drop_last());
        if r.len() > 0 && r.last() == s.last() {
            r
        } else {
            r.push(s.last())
        }
    }
}

/// The published versions as a note lists them: sorted, then without repeats in a row.
pub open spec fn arrange_spec(vs: Seq<VersionView>) -> Seq<VersionView> {
    dedup_spec(sort_spec(vs))
}

/// The note of a dependency that nothing satisfies: up to eight of the published
/// versions, with their count when there are more.
pub open spec fn missing_note(all: Seq<VersionView>) -> Seq<char> {
    let shown = all.take(if all.len() > 8 { 8 } else { all.len() as int }).map_values(
        |v: VersionView| version_text(v),
    );
    if all.len() > 8 {
        "nothing satisfies the requirement; available: "@ + join(shown, ", "@) + ", ... ("@
            + decimal(all.len()) + " published)"@
    } else {
        "nothing satisfies the requirement; available: "@ + join(shown, ", "@)
    }
}

pub open spec fn opt_text(s: Option<String>) -> Option<Seq<char>> {
    match s {
        Some(t) => Some(t@),
        None => None,
    }
}

/// What the audit of a dependency found, given where it points and, for a registry
/// target, the versions its manifest lists or the reason it could not be fetched.
pub open spec fn audit_matches(
    row: DepRow,
    target: TargetView,
    fetched: Result<Seq<VersionView>, Seq<char>>,
) -> bool {
    match target {
        TargetView::Git => row.status == DepStatus::Git && row.latest is None && row.note is None,
        TargetView::Unsupported(n) => row.status == DepStatus::Unsupported && row.latest is None
            && opt_text(row.note) == Some(n),
        TargetView::Registry(_, req) => match fetched {
            Err(e) => row.latest is None && if "status 404"@.is_prefix_of(e) {
                row.status == DepStatus::NotFound && opt_text(row.note) == Some(
                    "package not in registry"@,
                )
            } else {
                row.status == DepStatus::Error && opt_text(row.note) == Some(e)
            },
            Ok(vs) => {
                let latest = latest_stable_spec(vs);
                &&& opt_text(row.latest) == match latest {
                    Some(l) => Some(version_text(l)),
                    None => None,
                }
                &&& if latest matches Some(l) && satisfies_spec(req, l) {
                    row.status == DepStatus::Current && row.note is None
                } else if exists|i: int| 0 <= i < vs.len() && satisfies_spec(req, #[trigger] vs[i]) {
                    row.status == DepStatus::Outdated && row.note is None
                } else {
                    row.status == DepStatus::Missing && opt_text(row.note) == Some(
                        missing_note(arrange_spec(vs)),
                    )
                }
            },
        },
    }
}


pub(crate) proof fn lemma_insert_to_set<A>(s: Seq<A>, p: int, x: A)
    requires
        0 <= p <= s.len(),
    ensures
        s.insert(p, x).to_set() == s.to_set().insert(x),
{
    let t = s.insert(p, x);
    assert forall|y: A| t.contains(y) <==> (s.contains(y) || y == x) by {
        if t.contains(y) {
            let k = choose|k: int| 0 <= k < t.len() && t[k] == y;
            if k < p {
                assert(s[k] == y);
            } else if k > p {
                assert(s[k - 1] == y);
            }
        }
        if s.contains(y) {
            let k = choose|k: int| 0 <= k < s.len() && s[k] == y;
            if k < p {
                assert(t[k] == y);
            } else {
                assert(t[k + 1] == y);
            }
        }
        if y == x {
            assert(t[p] == x);
        }
    }
    assert(t.to_set() =~= s.to_set().insert(x));
}

pub(crate) proof fn lemma_push_to_set<A>(s: Seq<A>, x: A)
    ensures
        s.push(x).to_set() == s.to_set().insert(x),
{
    assert(s.push(x) =~= s.insert(s.len() as int, x));
    lemma_insert_to_set(s, s.len() as int, x);
}

/// `v` does not come after `w`.
#[verifier::opaque]
pub open spec fn not_after(v: VersionView, w: VersionView) -> bool {
    version_order(v, w) != Precedence::Greater
}

pub open spec fn adjacent_sorted(s: Seq<VersionView>) -> bool {
    forall|k: int| 0 <= k < s.len() - 1 ==> not_after(#[trigger] s[k], s[k + 1])
}

proof fn lemma_not_after_of(v: VersionView, w: VersionView)
    requires
        version_order(v, w) != Precedence::Greater,
    ensures
        not_after(v, w),
{
    reveal(not_after);
}

proof fn lemma_greater_flips(v: VersionView, w: VersionView)
    requires
        version_order(v, w) == Precedence::Greater,
    ensures
        not_after(w, v),
{
    reveal(not_after);
    lemma_version_order_antisymmetric(v, w);
}

proof fn lemma_insert_sorted(sv: Seq<VersionView>, p: int, x: VersionView)
    requires
        adjacent_sorted(sv),
        0 <= p <= sv.len(),
        p > 0 ==> not_after(sv[p - 1], x),
        p < sv.len() ==> not_after(x, sv[p]),
    ensures
        adjacent_sorted(sv.insert(p, x)),
{
    let nv = sv.insert(p, x);
    assert forall|k: int| 0 <= k < nv.len() - 1 implies not_after(#[trigger] nv[k], nv[k + 1]) by {
        if k + 1 < p {
            assert(nv[k] == sv[k] && nv[k + 1] == sv[k + 1]);
        } else if k + 1 == p {
            assert(nv[k] == sv[k]);
        } else if k == p {
            assert(nv[k + 1] == sv[k]);
        } else {
            assert(nv[k] == sv[k - 1] && nv[k + 1] == sv[k]);
        }
    }
}

/// The versions sorted by precedence, equal ones keeping their order.
#[verifier::spinoff_prover]
#[verifier::rlimit(40)]
fn sort_versions(vs: &Vec<Version>) -> (res: Vec<Version>)
    ensures
        adjacent_sorted(views(res@)),
        views(res@).to_set() == views(vs@).to_set(),
        views(res@) == sort_spec(views(vs@)),
{
    let ghost all = views(vs@);
    // insertion sort: each version goes before the first one above it
    let mut srt: Vec<Version> = Vec::new();
    let mut i: usize = 0;
    assert(views(srt@).to_set() =~= all.take(0).to_set());
    assert(views(srt@) =~= sort_spec(all.take(0)));
    while i < vs.len()
        invariant
            i <= vs.len(),
            all == views(vs@),
            views(srt@).to_set() == all.take(i as int).to_set(),
            adjacent_sorted(views(srt@)),
            views(srt@) == sort_spec(all.take(i as int)),
        decreases vs.len() - i,
    {
        let mut p: usize = 0;
        while p < srt.len()
            invariant
                p <= srt.len(),
                i < vs.len(),
                p > 0 ==> not_after(srt@[p - 1]@, vs@[i as int]@),
                forall|k: int| 0 <= k < p ==> version_order(#[trigger] srt@[k]@, vs@[i as int]@)
                    != Precedence::Greater,
            ensures
                p <= srt.len(),
                p > 0 ==> not_after(srt@[p - 1]@, vs@[i as int]@),
                p < srt.len() ==> not_after(vs@[i as int]@, srt@[p as int]@),
                forall|k: int| 0 <= k < p ==> version_order(#[trigger] srt@[k]@, vs@[i as int]@)
                    != Precedence::Greater,
                p < srt.len() ==> version_order(srt@[p as int]@, vs@[i as int]@)
                    == Precedence::Greater,
            decreases srt.len() - p,
        {
            match srt[p].compare(&vs[i]) {
                Precedence::Greater => {
                    proof {
                        lemma_greater_flips(srt@[p as int]@, vs@[i as int]@);
                    }
                    break;
                },
                _ => {
                    proof {
                        lemma_not_after_of(srt@[p as int]@, vs@[i as int]@);
                    }
                },
            }
            p += 1;
        }
        let ghost sv = views(srt@);
        let ghost x = vs@[i as int]@;
        proof {
            if p > 0 {
                assert(sv[p - 1] == srt@[p - 1]@);
            }
            if p < sv.len() {
                assert(sv[p as int] == srt@[p as int]@);
            }
            lemma_insert_sorted(sv, p as int, x);
            lemma_insert_to_set(sv, p as int, x);
            assert(all.take(i + 1) =~= all.take(i as int).push(x));
            lemma_push_to_set(all.take(i as int), x);
            assert forall|k: int| 0 <= k < p implies version_order(#[trigger] sv[k], x)
                != Precedence::Greater by {
                assert(sv[k] == srt@[k]@);
            }
            lemma_first_above(sv, x, p as int);
            assert(all.take(i + 1).drop_last() =~= all.take(i as int));
        }
        srt.insert(p, vs[i].duplicate());
        assert(views(srt@) =~= sv.insert(p as int, x));
        i += 1;
    }
    assert(all.take(vs.len() as int) =~= all);
    srt
}

proof fn lemma_first_above(s: Seq<VersionView>, x: VersionView, p: int)
    requires
        0 <= p <= s.len(),
        forall|k: int| 0 <= k < p ==> version_order(#[trigger] s[k], x) != Precedence::Greater,
        p < s.len() ==> version_order(s[p], x) == Precedence::Greater,
    ensures
        first_above(s, x) == p,
    decreases p,
{
    if p > 0 {
        let t = s.drop_first();
        assert forall|k: int| 0 <= k < p - 1 implies version_order(#[trigger] t[k], x)
            != Precedence::Greater by {
            assert(t[k] == s[k + 1]);
        }
        if p - 1 < t.len() {
            assert(t[p - 1] == s[p]);
        }
        lemma_first_above(t, x, p - 1);
        assert(version_order(s[0], x) != Precedence::Greater);
    }
}

/// The versions sorted by precedence, with a version equal to the one before it left out.
pub fn arrange_versions(vs: &Vec<Version>) -> (res: Vec<Version>)
    ensures
        views(res@) == arrange_spec(views(vs@)),
        arranged(views(res@), views(vs@)),
{
    let srt = sort_versions(vs);
    dedup_versions(&srt)
}

/// Sorted versions without a version equal to the one before it.
#[verifier::spinoff_prover]
#[verifier::rlimit(40)]
fn dedup_versions(srt: &Vec<Version>) -> (res: Vec<Version>)
    requires
        adjacent_sorted(views(srt@)),
    ensures
        adjacent_sorted(views(res@)),
        forall|k: int| 0 <= k < views(res@).len() - 1 ==> #[trigger] views(res@)[k]
            != views(res@)[k + 1],
        views(res@).to_set() == views(srt@).to_set(),
        views(res@) == dedup_spec(views(srt@)),
{
    let ghost sv = views(srt@);
    let mut out: Vec<Version> = Vec::new();
    let mut j: usize = 0;
    assert(views(out@).to_set() =~= sv.take(0).to_set());
    assert(views(out@) =~= dedup_spec(sv.take(0)));
    while j < srt.len()
        invariant
            j <= srt.len(),
            sv == views(srt@),
            adjacent_sorted(sv),
            views(out@).to_set() == sv.take(j as int).to_set(),
            j > 0 ==> out@.len() > 0 && views(out@).last() == sv[j - 1],
            j == 0 ==> out@.len() == 0,
            adjacent_sorted(views(out@)),
            forall|k: int| 0 <= k < views(out@).len() - 1 ==> #[trigger] views(out@)[k]
                != views(out@)[k + 1],
            views(out@) == dedup_spec(sv.take(j as int)),
        decreases srt.len() - j,
    {
        let ghost ov = views(out@);
        let x = &srt[j];
        assert(sv.take(j + 1) =~= sv.take(j as int).push(sv[j as int]));
        assert(sv.take(j + 1).drop_last() =~= sv.take(j as int));
        proof {
            lemma_push_to_set(sv.take(j as int), sv[j as int]);
        }
        let keep = if out.len() == 0 {
            true
        } else {
            !out[out.len() - 1].same_as(x)
        };
        if keep {
            out.push(x.duplicate());
            proof {
                assert(views(out@) =~= ov.push(sv[j as int]));
                lemma_push_to_set(ov, sv[j as int]);
                if j > 0 {
                    assert(not_after(sv[j - 1], sv[j as int]));
                }
            }
        } else {
            proof {
                assert(ov.contains(sv[j as int]));
                assert(ov.to_set().insert(sv[j as int]) =~= ov.to_set());
            }
        }
        j += 1;
    }
    assert(sv.take(srt.len() as int) =~= sv);
    out
}


/// The registry's answer as plain values.
pub open spec fn fetched_view(f: Result<Vec<Version>, String>) -> Result<Seq<VersionView>, Seq<char>> {
    match f {
        Ok(v) => Ok(views(v@)),
        Err(e) => Err(e@),
    }
}

fn opt_string_of(s: &str) -> (res: Option<String>)
    ensures
        opt_text(res) == Some(s@),
{
    Some(string_of(&chars_of(s)))
}

fn note_of_missing(all: &Vec<Version>) -> (res: String)
    ensures
        res@ == missing_note(views(all@)),
{
    let n: usize = if all.len() > 8 {
        8
    } else {
        all.len()
    };
    let ghost shown = views(all@).take(n as int).map_values(|v: VersionView| version_text(v));
    let mut texts: Vec<Vec<char>> = Vec::new();
    let mut i: usize = 0;
    while i < n
        invariant
            i <= n <= all.len(),
            shown == views(all@).take(n as int).map_values(|v: VersionView| version_text(v)),
            texts@.map_values(|p: Vec<char>| p@) == shown.take(i as int),
        decreases n - i,
    {
        let t = all[i].to_string();
        let ghost before = texts@.map_values(|p: Vec<char>| p@);
        texts.push(chars_of(t.as_str()));
        assert(texts@.map_values(|p: Vec<char>| p@) =~= before.push(version_text(all@[i as int]@)));
        assert(shown.take(i + 1) =~= shown.take(i as int).push(shown[i as int]));
        i += 1;
    }
    assert(shown.take(n as int) =~= shown);
    let mut out: Vec<char> = Vec::new();
    extend_str(&mut out, "nothing satisfies the requirement; available: ");
    let joined = join_chars(&texts, ", ");
    extend(&mut out, &joined);
    if all.len() > 8 {
        extend_str(&mut out, ", ... (");
        let count = u64_decimal(all.len() as u64);
        extend(&mut out, &count);
        extend_str(&mut out, " published)");
    }
    string_of(&out)
}

/// Audits one dependency. `fetched` is the registry's answer for a registry target: the
/// versions its manifest lists, or why it could not be fetched; other targets ignore it.
pub fn audit(
    section: &str,
    alias: &str,
    value: &TomlValue,
    target: &Target,
    fetched: Result<Vec<Version>, String>,
) -> (row: DepRow)
    ensures
        row.name@ == alias@,
        row.section@ == section@,
        row.required@ == required_text(*value),
        audit_matches(row, target@, fetched_view(fetched)),
{
    let required = match value {
        TomlValue::Str(s) => string_of(&chars_of(s.as_str())),
        TomlValue::Table(_, t) => string_of(&chars_of(t.as_str())),
        TomlValue::Other(t) => string_of(&chars_of(t.as_str())),
    };
    let name = string_of(&chars_of(alias));
    let sec = string_of(&chars_of(section));
    match target {
        Target::Git => DepRow {
            name,
            section: sec,
            required,
            latest: None,
            status: DepStatus::Git,
            note: None,
        },
        Target::Unsupported(n) => DepRow {
            name,
            section: sec,
            required,
            latest: None,
            status: DepStatus::Unsupported,
            note: Some(string_of(&chars_of(n.as_str()))),
        },
        Target::Registry { name: _, req } => match fetched {
            Err(e) => {
                let ev = chars_of(e.as_str());
                if starts_with(&ev, &chars_of("status 404")) {
                    DepRow {
                        name,
                        section: sec,
                        required,
                        latest: None,
                        status: DepStatus::NotFound,
                        note: opt_string_of("package not in registry"),
                    }
                } else {
                    DepRow {
                        name,
                        section: sec,
                        required,
                        latest: None,
                        status: DepStatus::Error,
                        note: Some(string_of(&ev)),
                    }
                }
            },
            Ok(versions) => {
                let ghost vs = views(versions@);
                let latest = latest_stable(versions.as_slice());
                let latest_text = match &latest {
                    Some(l) => Some(l.to_string()),
                    None => None,
                };
                let current = match &latest {
                    Some(l) => req.satisfies(l),
                    None => false,
                };
                if current {
                    return DepRow {
                        name,
                        section: sec,
                        required,
                        latest: latest_text,
                        status: DepStatus::Current,
                        note: None,
                    };
                }
                let mut any = false;
                let mut i: usize = 0;
                while i < versions.len()
                    invariant_except_break
                        !any,
                        forall|k: int| 0 <= k < i ==> !satisfies_spec(req@, #[trigger] vs[k]),
                    invariant
                        i <= versions.len(),
                        vs == views(versions@),
                    ensures
                        any ==> i < versions.len() && satisfies_spec(req@, vs[i as int]),
                        !any ==> forall|k: int| 0 <= k < vs.len() ==> !satisfies_spec(
                            req@,
                            #[trigger] vs[k],
                        ),
                    decreases versions.len() - i,
                {
                    assert(vs[i as int] == versions@[i as int]@);
                    if req.satisfies(&versions[i]) {
                        any = true;
                        break;
                    }
                    i += 1;
                }
                if any {
                    DepRow {
                        name,
                        section: sec,
                        required,
                        latest: latest_text,
                        status: DepStatus::Outdated,
                        note: None,
                    }
                } else {
                    let all = arrange_versions(&versions);
                    let note = note_of_missing(&all);
                    let row = DepRow {
                        name,
                        section: sec,
                        required,
                        latest: latest_text,
                        status: DepStatus::Missing,
                        note: Some(note),
                    };
                    assert(opt_text(row.note) == Some(missing_note(views(all@))));
                    row
                }
            },
        },
    }
}


/// The audit of all dependencies of a project.
#[derive(Debug)]
pub struct DepsReport {
    pub path: String,
    pub deps: Vec<DepRow>,
    pub outdated: usize,
    pub broken: usize,
}

/// A row that needs attention: outdated, missing, not found or unreachable.
pub open spec fn is_broken(s: DepStatus) -> bool {
    s == DepStatus::Outdated || s == DepStatus::Missing || s == DepStatus::NotFound || s
        == DepStatus::Error
}

/// How many rows have a status that `pred` picks.
pub open spec fn count_rows(rows: Seq<DepRow>, pred: spec_fn(DepStatus) -> bool) -> nat
    decreases rows.len(),
{
    if rows.len() == 0 {
        0
    } else {
        count_rows(rows.drop_last(), pred) + if pred(rows.last().status) {
            1nat
        } else {
            0nat
        }
    }
}

proof fn lemma_count_rows_bound(rows: Seq<DepRow>, pred: spec_fn(DepStatus) -> bool)
    ensures
        count_rows(rows, pred) <= rows.len(),
    decreases rows.len(),
{
    if rows.len() > 0 {
        lemma_count_rows_bound(rows.drop_last(), pred);
    }
}

impl DepsReport {
    /// The report on `deps`, with the outdated and the broken ones counted.
    pub fn new(path: String, deps: Vec<DepRow>) -> (r: DepsReport)
        ensures
            r.path == path,
            r.deps == deps,
            r.outdated == count_rows(deps@, |s: DepStatus| s == DepStatus::Outdated),
            r.broken == count_rows(deps@, |s: DepStatus| is_broken(s)),
    {
        let mut outdated: usize = 0;
        let mut broken: usize = 0;
        let mut i: usize = 0;
        while i < deps.len()
            invariant
                i <= deps.len(),
                outdated == count_rows(deps@.take(i as int), |s: DepStatus| s == DepStatus::Outdated),
                broken == count_rows(deps@.take(i as int), |s: DepStatus| is_broken(s)),
            decreases deps.len() - i,
        {
            assert(deps@.take(i + 1).drop_last() =~= deps@.take(i as int));
            proof {
                lemma_count_rows_bound(deps@.take(i as int), |s: DepStatus| s == DepStatus::Outdated);
                lemma_count_rows_bound(deps@.take(i as int), |s: DepStatus| is_broken(s));
            }
            match deps[i].status {
                DepStatus::Outdated => {
                    outdated += 1;
                    broken += 1;
                },
                DepStatus::Missing | DepStatus::NotFound | DepStatus::Error => {
                    broken += 1;
                },
                _ => {},
            }
            i += 1;
        }
        assert(deps@.take(deps.len() as int) =~= deps@);
        DepsReport { path, deps, outdated, broken }
    }

    /// Whether any dependency needs attention.
    pub fn fail(&self) -> (res: bool)
        ensures
            res == (self.broken > 0),
    {
        self.broken > 0
    }
}

// ---- the terminal report ----

/// The color of a status: green when current, yellow when outdated or unsupported,
/// dimmed for git, red otherwise.
pub open spec fn status_style(s: DepStatus) -> Style {
    match s {
        DepStatus::Current => Style::Green,
        DepStatus::Outdated => Style::Yellow,
        DepStatus::Git => Style::Dimmed,
        DepStatus::Unsupported => Style::Yellow,
        _ => Style::Red,
    }
}

/// The columns of a row: name, section, requirement and newest release, left-aligned.
pub open spec fn dep_columns(name: Seq<char>, section: Seq<char>, required: Seq<char>, latest: Seq<char>) -> Seq<char> {
    "  "@ + pad_right(name, 28) + " "@ + pad_right(section, 20) + " "@ + pad_right(required, 28)
        + " "@ + pad_right(latest, 12) + " "@
}

/// One row of the table, with the note dimmed after it.
pub open spec fn dep_line(d: DepRow) -> Seq<(Seq<char>, Style)> {
    let latest = match d.latest {
        Some(l) => l@,
        None => "-"@,
    };
    seq![
        (dep_columns(d.name@, d.section@, d.required@, latest), Style::Plain),
        (d.status.text(), status_style(d.status)),
    ] + match d.note {
        Some(n) => seq![(" · "@, Style::Plain), (n@, Style::Dimmed)],
        None => Seq::empty(),
    }
}

/// `N deps · N outdated · N broken`, red and bold when something is broken.
pub open spec fn deps_summary(r: DepsReport) -> (Seq<char>, Style) {
    (
        "  "@ + decimal(r.deps@.len()) + " deps · "@ + decimal(r.outdated as nat) + " outdated · "@
            + decimal(r.broken as nat) + " broken"@,
        if r.broken > 0 {
            Style::RedBold
        } else {
            Style::Green
        },
    )
}

/// The report as the terminal shows it: a title, the table of dependencies (or a note that
/// there are none), and the summary.
pub open spec fn deps_lines_spec(r: DepsReport) -> Seq<Seq<(Seq<char>, Style)>> {
    seq![
        seq![("  "@, Style::Plain), ("esmeril deps"@, Style::Title), ("  "@ + r.path@, Style::Plain)],
        Seq::empty(),
    ] + if r.deps@.len() == 0 {
        seq![seq![("  no dependencies"@, Style::Plain)]]
    } else {
        seq![
            seq![
                (dep_columns("package"@, "section"@, "required"@, "latest"@) + "status"@, Style::Plain),
            ],
        ] + r.deps@.map_values(|d: DepRow| dep_line(d))
    } + seq![Seq::empty(), seq![deps_summary(r)]]
}

fn columns_of(name: &str, section: &str, required: &str, latest: &str) -> (res: Vec<char>)
    ensures
        res@ == dep_columns(name@, section@, required@, latest@),
{
    let mut out: Vec<char> = Vec::new();
    extend_str(&mut out, "  ");
    extend(&mut out, &pad(&chars_of(name), 28));
    extend_str(&mut out, " ");
    extend(&mut out, &pad(&chars_of(section), 20));
    extend_str(&mut out, " ");
    extend(&mut out, &pad(&chars_of(required), 28));
    extend_str(&mut out, " ");
    extend(&mut out, &pad(&chars_of(latest), 12));
    extend_str(&mut out, " ");
    out
}

fn dep_line_of(d: &DepRow) -> (res: Vec<Span>)
    ensures
        line_view(res) == dep_line(*d),
{
    let latest = match &d.latest {
        Some(l) => l.as_str(),
        None => "-",
    };
    let mut l: Vec<Span> = Vec::new();
    let cols = columns_of(d.name.as_str(), d.section.as_str(), d.required.as_str(), latest);
    push_span(&mut l, span_of(&cols, Style::Plain));
    let style = match d.status {
        DepStatus::Current => Style::Green,
        DepStatus::Outdated => Style::Yellow,
        DepStatus::Git => Style::Dimmed,
        DepStatus::Unsupported => Style::Yellow,
        _ => Style::Red,
    };
    push_span(&mut l, span(d.status.as_str(), style));
    let ghost head = line_view(l);
    match &d.note {
        Some(n) => {
            push_span(&mut l, span(" · ", Style::Plain));
            push_span(&mut l, span(n.as_str(), Style::Dimmed));
        },
        None => {},
    }
    assert(line_view(l) =~= dep_line(*d));
    l
}

fn deps_summary_of(r: &DepsReport) -> (res: Span)
    ensures
        span_view(res) == deps_summary(*r),
{
    let mut t: Vec<char> = Vec::new();
    extend_str(&mut t, "  ");
    extend(&mut t, &number(r.deps.len() as u64));
    extend_str(&mut t, " deps · ");
    extend(&mut t, &number(r.outdated as u64));
    extend_str(&mut t, " outdated · ");
    extend(&mut t, &number(r.broken as u64));
    extend_str(&mut t, " broken");
    span_of(&t, if r.broken > 0 {
        Style::RedBold
    } else {
        Style::Green
    })
}

/// The lines of the terminal report.
pub fn deps_lines(r: &DepsReport) -> (res: Vec<Vec<Span>>)
    ensures
        lines_view(res@) == deps_lines_spec(*r),
{
    let mut out: Vec<Vec<Span>> = Vec::new();
    let mut title: Vec<Span> = Vec::new();
    push_span(&mut title, span("  ", Style::Plain));
    push_span(&mut title, span("esmeril deps", Style::Title));
    let mut p: Vec<char> = Vec::new();
    extend_str(&mut p, "  ");
    extend_str(&mut p, r.path.as_str());
    push_span(&mut title, span_of(&p, Style::Plain));
    assert(line_view(title) =~= seq![("  "@, Style::Plain), ("esmeril deps"@, Style::Title), ("  "@ + r.path@, Style::Plain)]);
    push_line(&mut out, title);
    push_line(&mut out, empty_line());
    let ghost head = lines_view(out@);
    let ghost body: Seq<Seq<(Seq<char>, Style)>>;
    if r.deps.len() == 0 {
        push_line(&mut out, line1(span("  no dependencies", Style::Plain)));
        proof {
            body = seq![seq![("  no dependencies"@, Style::Plain)]];
        }
        assert(lines_view(out@) =~= head + body);
    } else {
        let mut h = columns_of("package", "section", "required", "latest");
        extend_str(&mut h, "status");
        push_line(&mut out, line1(span_of(&h, Style::Plain)));
        let ghost top = lines_view(out@);
        let ghost hl = seq![(dep_columns("package"@, "section"@, "required"@, "latest"@) + "status"@, Style::Plain)];
        assert(top =~= head + seq![hl]);
        let mut i: usize = 0;
        while i < r.deps.len()
            invariant
                i <= r.deps.len(),
                lines_view(out@) == top + r.deps@.map_values(|d: DepRow| dep_line(d)).take(i as int),
            decreases r.deps.len() - i,
        {
            push_line(&mut out, dep_line_of(&r.deps[i]));
            assert(r.deps@.map_values(|d: DepRow| dep_line(d)).take(i + 1) =~= r.deps@.map_values(
                |d: DepRow| dep_line(d),
            ).take(i as int).push(dep_line(r.deps@[i as int])));
            i += 1;
        }
        assert(r.deps@.map_values(|d: DepRow| dep_line(d)).take(r.deps.len() as int)
            =~= r.deps@.map_values(|d: DepRow| dep_line(d)));
        proof {
            body = seq![hl] + r.deps@.map_values(|d: DepRow| dep_line(d));
        }
        assert(lines_view(out@) =~= head + body);
    }
    let ghost mid = lines_view(out@);
    push_line(&mut out, empty_line());
    push_line(&mut out, line1(deps_summary_of(r)));
    assert(lines_view(out@) =~= mid + seq![Seq::empty(), seq![deps_summary(*r)]]);
    assert(lines_view(out@) =~= deps_lines_spec(*r));
    out
}

// ---- reading the files and the registry ----

/// `wally.toml` as the dependency logic reads it, or why it is not TOML.
pub fn wally_document(text: &str) -> (r: Result<TomlValue, DepsError>)
    ensures
        match toml_text_value(text@) {
            Ok(v) => r == Ok::<TomlValue, DepsError>(v),
            Err(m) => r matches Err(DepsError::InvalidWally(x)) && x@ == m,
        },
{
    match parse_toml(text) {
        Ok(v) => Ok(v),
        Err(m) => Err(DepsError::InvalidWally(m)),
    }
}

/// The versions a registry manifest publishes: each trimmed non-empty line read as JSON,
/// and the `package.version` of those that have one that reads as a version, in order.
pub fn parse_manifest(text: &str) -> (res: Vec<Version>)
    ensures
        views(res@) == manifest_versions_spec(
            manifest_lines_spec(text@).map_values(|l: Seq<char>| json_text_value(l)),
        ),
{
    let ls = manifest_lines(text);
    let ghost lv = ls@.map_values(|s: String| s@);
    let mut docs: Vec<Option<JsonValue>> = Vec::new();
    let mut i: usize = 0;
    while i < ls.len()
        invariant
            i <= ls.len(),
            lv == ls@.map_values(|s: String| s@),
            docs@ == lv.take(i as int).map_values(|l: Seq<char>| json_text_value(l)),
        decreases ls.len() - i,
    {
        let d = parse_json(ls[i].as_str());
        let ghost d0 = docs@;
        docs.push(d);
        assert(lv[i as int] == ls@[i as int]@);
        assert(lv.take(i + 1) =~= lv.take(i as int).push(lv[i as int]));
        assert(docs@ =~= lv.take(i + 1).map_values(|l: Seq<char>| json_text_value(l)));
        i += 1;
    }
    assert(lv.take(ls.len() as int) =~= lv);
    manifest_versions(&docs)
}

/// Where the registry keeps a package's manifest.
pub fn manifest_url(base: &str, name: &str) -> (r: String)
    ensures
        r@ == base@ + "/"@ + name@,
{
    let mut out = chars_of(base);
    extend_str(&mut out, "/");
    extend_str(&mut out, name);
    string_of(&out)
}

} // verus!
