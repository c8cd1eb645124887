//! The files of a new project, and the name it is published under.
use vstd::prelude::*;

use crate::check::two_part_name;
use crate::data::{json_object, json_pretty, json_str, json_view, pretty_json, JsonValue, JsonView};
use crate::text::{
    chars_of, extend, extend_str, lemma_split_cons, lemma_split_no_sep, string_of, trim_end_char,
    trim_end_char_chars,
};

verus! {

pub open spec fn is_alnum(c: char) -> bool {
    ('a' <= c && c <= 'z') || ('A' <= c && c <= 'Z') || ('0' <= c && c <= '9')
}

pub open spec fn lower(c: char) -> char {
    if 'A' <= c && c <= 'Z' {
        ((c as int) + 32) as char
    } else {
        c
    }
}

/// ASCII letters and digits lower-cased, every other run of characters one dash.
pub open spec fn slug_raw(s: Seq<char>) -> Seq<char>
    decreases s.len(),
{
    if s.len() == 0 {
        Seq::empty()
    } else {
        let r = slug_raw(s.drop_last());
        let c = s.last();
        if is_alnum(c) {
            r.push(lower(c))
        } else if r.len() > 0 && r.last() == '-' {
            r
        } else {
            r.push('-')
        }
    }
}

/// `s` without any run of `c` at its start.
pub open spec fn trim_start_char(s: Seq<char>, c: char) -> Seq<char>
    decreases s.len(),
{
    if s.len() > 0 && s[0] == c {
        trim_start_char(s.drop_first(), c)
    } else {
        s
    }
}

/// The kebab-cased name: lower-case letters, digits and single dashes between them, or
/// `game` when nothing is left.
pub open spec fn slugify_spec(name: Seq<char>) -> Seq<char> {
    let t = trim_end_char(trim_start_char(slug_raw(name), '-'), '-');
    if t.len() == 0 {
        "game"@
    } else {
        t
    }
}

fn lower_char(c: char) -> (res: char)
    ensures
        res == lower(c),
{
    if 'A' <= c && c <= 'Z' {
        let b = (c as u8) + 32;
        b as char
    } else {
        c
    }
}

/// The name kebab-cased for a Wally package: `My Game` becomes `my-game`.
pub fn slugify(name: &str) -> (res: String)
    ensures
        res@ == slugify_spec(name@),
{
    let v = chars_of(name);
    let mut slug: Vec<char> = Vec::new();
    let mut i: usize = 0;
    while i < v.len()
        invariant
            i <= v.len(),
            slug@ == slug_raw(v@.take(i as int)),
        decreases v.len() - i,
    {
        let c = v[i];
        assert(v@.take(i + 1).drop_last() =~= v@.take(i as int));
        assert(v@.take(i + 1).last() == c);
        if ('a' <= c && c <= 'z') || ('A' <= c && c <= 'Z') || ('0' <= c && c <= '9') {
            slug.push(lower_char(c));
        } else if !(slug.len() > 0 && slug[slug.len() - 1] == '-') {
            slug.push('-');
        }
        i += 1;
    }
    assert(v@.take(v.len() as int) =~= v@);
    let mut lo: usize = 0;
    let ghost raw = slug@;
    assert(raw.skip(0) =~= raw);
    while lo < slug.len() && slug[lo] == '-'
        invariant
            lo <= slug.len(),
            raw == slug@,
            trim_start_char(raw, '-') == trim_start_char(raw.skip(lo as int), '-'),
        decreases slug.len() - lo,
    {
        assert(raw.skip(lo as int).drop_first() =~= raw.skip(lo + 1));
        lo += 1;
    }
    let start = crate::text::slice(&slug, lo, slug.len());
    assert(start@ =~= raw.skip(lo as int));
    let t = trim_end_char_chars(&start, '-');
    if t.len() == 0 {
        string_of(&chars_of("game"))
    } else {
        string_of(&t)
    }
}


/// A character of a Wally package name: a lower-case letter, a digit or a dash.
pub open spec fn slug_char(c: char) -> bool {
    ('a' <= c && c <= 'z') || ('0' <= c && c <= '9') || c == '-'
}

/// What Wally accepts as a package name: lower-case letters, digits and dashes, not
/// empty, no dash at either end and no two dashes in a row.
pub open spec fn valid_slug(t: Seq<char>) -> bool {
    &&& t.len() > 0
    &&& forall|k: int| 0 <= k < t.len() ==> slug_char(#[trigger] t[k])
    &&& t[0] != '-'
    &&& t.last() != '-'
    &&& forall|k: int| 0 <= k < t.len() - 1 ==> !(#[trigger] t[k] == '-' && t[k + 1] == '-')
}

pub open spec fn slug_body(t: Seq<char>) -> bool {
    &&& forall|k: int| 0 <= k < t.len() ==> slug_char(#[trigger] t[k])
    &&& forall|k: int| 0 <= k < t.len() - 1 ==> !(#[trigger] t[k] == '-' && t[k + 1] == '-')
}

proof fn lemma_lower(c: char)
    requires
        is_alnum(c),
    ensures
        slug_char(lower(c)),
        lower(c) != '-',
        slug_char(c) ==> lower(c) == c,
{
    if 'A' <= c && c <= 'Z' {
        assert(((c as int) + 32) as char as int == (c as int) + 32);
    }
}

proof fn lemma_slug_raw_body(s: Seq<char>)
    ensures
        slug_body(slug_raw(s)),
    decreases s.len(),
{
    if s.len() > 0 {
        lemma_slug_raw_body(s.drop_last());
        let r = slug_raw(s.drop_last());
        let c = s.last();
        if is_alnum(c) {
            lemma_lower(c);
            let t = r.push(lower(c));
            assert forall|k: int| 0 <= k < t.len() implies slug_char(#[trigger] t[k]) by {
                if k < r.len() {
                    assert(t[k] == r[k]);
                }
            }
            assert forall|k: int| 0 <= k < t.len() - 1 implies !(#[trigger] t[k] == '-' && t[k
                + 1] == '-') by {
                if k + 1 < r.len() {
                    assert(t[k] == r[k] && t[k + 1] == r[k + 1]);
                }
            }
        } else if !(r.len() > 0 && r.last() == '-') {
            let t = r.push('-');
            assert forall|k: int| 0 <= k < t.len() implies slug_char(#[trigger] t[k]) by {
                if k < r.len() {
                    assert(t[k] == r[k]);
                }
            }
            assert forall|k: int| 0 <= k < t.len() - 1 implies !(#[trigger] t[k] == '-' && t[k
                + 1] == '-') by {
                if k + 1 < r.len() {
                    assert(t[k] == r[k] && t[k + 1] == r[k + 1]);
                } else {
                    assert(t[k] == r.last());
                }
            }
        }
    }
}

proof fn lemma_trim_start_char(s: Seq<char>, c: char) -> (k: int)
    ensures
        0 <= k <= s.len(),
        trim_start_char(s, c) == s.skip(k),
        k < s.len() ==> s[k] != c,
        forall|j: int| 0 <= j < k ==> s[j] == c,
    decreases s.len(),
{
    if s.len() > 0 && s[0] == c {
        let j = lemma_trim_start_char(s.drop_first(), c);
        assert(s.drop_first().skip(j) =~= s.skip(j + 1));
        assert forall|i: int| 0 <= i < j + 1 implies s[i] == c by {
            if i > 0 {
                assert(s[i] == s.drop_first()[i - 1]);
            }
        }
        j + 1
    } else {
        assert(s.skip(0) =~= s);
        0
    }
}

proof fn lemma_trim_end_char(s: Seq<char>, c: char) -> (m: int)
    ensures
        0 <= m <= s.len(),
        trim_end_char(s, c) == s.take(m),
        m > 0 ==> s[m - 1] != c,
        forall|j: int| m <= j < s.len() ==> s[j] == c,
    decreases s.len(),
{
    if s.len() > 0 && s.last() == c {
        let j = lemma_trim_end_char(s.drop_last(), c);
        assert(s.drop_last().take(j) =~= s.take(j));
        assert forall|i: int| j <= i < s.len() implies s[i] == c by {
            if i < s.len() - 1 {
                assert(s[i] == s.drop_last()[i]);
            }
        }
        j
    } else {
        assert(s.take(s.len() as int) =~= s);
        s.len() as int
    }
}

/// Every kebab-cased name is one that Wally accepts.
pub proof fn lemma_slugify_valid(name: Seq<char>)
    ensures
        valid_slug(slugify_spec(name)),
{
    let raw = slug_raw(name);
    lemma_slug_raw_body(raw);
    lemma_slug_raw_body(name);
    let k = lemma_trim_start_char(raw, '-');
    let a = raw.skip(k);
    let m = lemma_trim_end_char(a, '-');
    let t = a.take(m);
    if t.len() == 0 {
        reveal_strlit("game");
    } else {
        assert forall|j: int| 0 <= j < t.len() implies slug_char(#[trigger] t[j]) by {
            assert(t[j] == raw[j + k]);
        }
        assert forall|j: int| 0 <= j < t.len() - 1 implies !(#[trigger] t[j] == '-' && t[j + 1]
            == '-') by {
            assert(t[j] == raw[j + k] && t[j + 1] == raw[j + 1 + k]);
        }
        assert(t[0] == a[0]);
        assert(t.last() == a[m - 1]);
    }
}

/// Kebab-casing a name that is already kebab-cased leaves it as it is.
pub proof fn lemma_slugify_idempotent(name: Seq<char>)
    ensures
        slugify_spec(slugify_spec(name)) == slugify_spec(name),
{
    let t = slugify_spec(name);
    lemma_slugify_valid(name);
    lemma_slug_raw_fixed(t, t.len() as int);
    assert(t.take(t.len() as int) =~= t);
    assert(trim_start_char(t, '-') == t);
    assert(trim_end_char(t, '-') == t);
}

/// `t` with its dashes left out.
pub open spec fn undashed(t: Seq<char>) -> Seq<char> {
    t.filter(|c: char| c != '-')
}

/// The ASCII letters and digits of `name`, lower-cased, in the order they come.
pub open spec fn name_letters(name: Seq<char>) -> Seq<char> {
    name.filter(|c: char| is_alnum(c)).map_values(|c: char| lower(c))
}

proof fn lemma_slug_raw_letters(s: Seq<char>)
    ensures
        undashed(slug_raw(s)) == name_letters(s),
    decreases s.len(),
{
    reveal(Seq::filter);
    if s.len() > 0 {
        lemma_slug_raw_letters(s.drop_last());
        let r = slug_raw(s.drop_last());
        let c = s.last();
        let kept = s.drop_last().filter(|c: char| is_alnum(c));
        if is_alnum(c) {
            lemma_lower(c);
            assert(r.push(lower(c)).drop_last() =~= r);
            assert(kept.push(c).map_values(|c: char| lower(c)) =~= kept.map_values(
                |c: char| lower(c),
            ).push(lower(c)));
        } else if !(r.len() > 0 && r.last() == '-') {
            assert(r.push('-').drop_last() =~= r);
        }
    } else {
        assert(name_letters(s) =~= Seq::<char>::empty());
    }
}

proof fn lemma_undashed_all_dashes(s: Seq<char>)
    requires
        forall|j: int| 0 <= j < s.len() ==> s[j] == '-',
    ensures
        undashed(s) == Seq::<char>::empty(),
    decreases s.len(),
{
    reveal(Seq::filter);
    if s.len() > 0 {
        lemma_undashed_all_dashes(s.drop_last());
    }
}

/// The kebab-cased name keeps the ASCII letters and digits of the name, lower-cased
/// and in order, and nothing else but dashes; a name without any is published as `game`.
pub proof fn lemma_slugify_keeps_letters(name: Seq<char>)
    ensures
        name_letters(name).len() > 0 ==> undashed(slugify_spec(name)) == name_letters(name),
        name_letters(name).len() == 0 ==> slugify_spec(name) == "game"@,
{
    let raw = slug_raw(name);
    lemma_slug_raw_letters(name);
    let k = lemma_trim_start_char(raw, '-');
    let a = raw.skip(k);
    let m = lemma_trim_end_char(a, '-');
    let t = a.take(m);
    assert(raw =~= raw.take(k) + a);
    assert(a =~= t + a.skip(m));
    lemma_undashed_all_dashes(raw.take(k));
    lemma_undashed_all_dashes(a.skip(m));
    assert(undashed(t) == name_letters(name));
    if t.len() > 0 {
        assert(t[0] == raw[k]);
        assert(undashed(t).contains(t[0]));
    }
}

proof fn lemma_slug_raw_fixed(t: Seq<char>, i: int)
    requires
        valid_slug(t),
        0 <= i <= t.len(),
    ensures
        slug_raw(t.take(i)) == t.take(i),
    decreases i,
{
    if i > 0 {
        lemma_slug_raw_fixed(t, i - 1);
        let p = t.take(i);
        assert(p.drop_last() =~= t.take(i - 1));
        assert(p.last() == t[i - 1]);
        let c = t[i - 1];
        assert(slug_char(c));
        if c == '-' {
            assert(i - 1 > 0);
            assert(t[i - 2] != '-');
            assert(t.take(i - 1).last() == t[i - 2]);
        } else {
            lemma_lower(c);
        }
        assert(t.take(i - 1).push(c) =~= p);
    } else {
        assert(t.take(0) =~= Seq::<char>::empty());
    }
}

/// The package name a new project's `wally.toml` gets: `user/` and the kebab-cased name.
pub open spec fn package_name(name: Seq<char>) -> Seq<char> {
    "user/"@ + slugify_spec(name)
}

/// The package name of a new project passes the `wally.toml` name check.
pub proof fn lemma_package_name_valid(name: Seq<char>)
    ensures
        two_part_name(package_name(name)),
{
    let t = slugify_spec(name);
    lemma_slugify_valid(name);
    reveal_strlit("user/");
    let user = seq!['u', 's', 'e', 'r'];
    assert("user/"@ =~= user + seq!['/']);
    assert(package_name(name) =~= user + seq!['/'] + t);
    assert(!user.contains('/'));
    assert(!t.contains('/')) by {
        if t.contains('/') {
            let k = choose|k: int| 0 <= k < t.len() && t[k] == '/';
            assert(slug_char(t[k]));
        }
    }
    lemma_split_no_sep(t, '/');
    lemma_split_cons(user, '/', t);
}


pub open spec fn jstr(s: Seq<char>) -> JsonView {
    JsonView::Str(s)
}

/// The Rojo tree of a game: the shared, server and client folders in their services.
pub open spec fn game_tree() -> JsonView {
    JsonView::Object(
        seq![
            ("$className"@, jstr("DataModel"@)),
            (
                "ReplicatedStorage"@,
                JsonView::Object(
                    seq![
                        ("$className"@, jstr("ReplicatedStorage"@)),
                        ("shared"@, JsonView::Object(seq![("$path"@, jstr("src/shared"@))])),
                    ],
                ),
            ),
            (
                "ServerScriptService"@,
                JsonView::Object(
                    seq![
                        ("$className"@, jstr("ServerScriptService"@)),
                        ("server"@, JsonView::Object(seq![("$path"@, jstr("src/server"@))])),
                    ],
                ),
            ),
            (
                "StarterPlayer"@,
                JsonView::Object(
                    seq![
                        ("$className"@, jstr("StarterPlayer"@)),
                        (
                            "StarterPlayerScripts"@,
                            JsonView::Object(
                                seq![
                                    ("$className"@, jstr("StarterPlayerScripts"@)),
                                    ("client"@, JsonView::Object(seq![("$path"@, jstr("src/client"@))])),
                                ],
                            ),
                        ),
                    ],
                ),
            ),
        ],
    )
}

/// The Rojo tree of a library: `src` as a whole.
pub open spec fn lib_tree() -> JsonView {
    JsonView::Object(seq![("$path"@, jstr("src"@))])
}

/// `default.project.json`: the name and the Rojo tree.
pub open spec fn project_view(name: Seq<char>, lib: bool) -> JsonView {
    JsonView::Object(seq![("name"@, jstr(name)), ("tree"@, if lib { lib_tree() } else { game_tree() })])
}

/// `default.project.json` as `serde_json::to_string_pretty` writes it.
pub open spec fn project_json_text(name: Seq<char>, lib: bool) -> Seq<char> {
    json_pretty(project_view(name, lib))
}

fn object1(k: &str, v: JsonValue) -> (r: JsonValue)
    ensures
        json_view(r) == JsonView::Object(seq![(k@, json_view(v))]),
{
    let ghost vv = json_view(v);
    let mut es: Vec<(&str, JsonValue)> = Vec::new();
    es.push((k, v));
    let ghost ev = es@;
    let r = json_object(es);
    assert(ev.map_values(|e: (&str, JsonValue)| (e.0@, json_view(e.1))) =~= seq![(k@, vv)]);
    r
}

fn object2(k1: &str, v1: JsonValue, k2: &str, v2: JsonValue) -> (r: JsonValue)
    ensures
        json_view(r) == JsonView::Object(seq![(k1@, json_view(v1)), (k2@, json_view(v2))]),
{
    let ghost w1 = json_view(v1);
    let ghost w2 = json_view(v2);
    let mut es: Vec<(&str, JsonValue)> = Vec::new();
    es.push((k1, v1));
    es.push((k2, v2));
    let ghost ev = es@;
    let r = json_object(es);
    assert(ev.map_values(|e: (&str, JsonValue)| (e.0@, json_view(e.1))) =~= seq![(k1@, w1), (k2@, w2)]);
    r
}

fn object4(
    k1: &str,
    v1: JsonValue,
    k2: &str,
    v2: JsonValue,
    k3: &str,
    v3: JsonValue,
    k4: &str,
    v4: JsonValue,
) -> (r: JsonValue)
    ensures
        json_view(r) == JsonView::Object(
            seq![
                (k1@, json_view(v1)),
                (k2@, json_view(v2)),
                (k3@, json_view(v3)),
                (k4@, json_view(v4)),
            ],
        ),
{
    let ghost w1 = json_view(v1);
    let ghost w2 = json_view(v2);
    let ghost w3 = json_view(v3);
    let ghost w4 = json_view(v4);
    let mut es: Vec<(&str, JsonValue)> = Vec::new();
    es.push((k1, v1));
    es.push((k2, v2));
    es.push((k3, v3));
    es.push((k4, v4));
    let ghost ev = es@;
    let r = json_object(es);
    assert(ev.map_values(|e: (&str, JsonValue)| (e.0@, json_view(e.1))) =~= seq![
        (k1@, w1),
        (k2@, w2),
        (k3@, w3),
        (k4@, w4),
    ]);
    r
}

fn folder(service: &str, key: &str, path: &str) -> (r: JsonValue)
    ensures
        json_view(r) == JsonView::Object(
            seq![("$className"@, jstr(service@)), (key@, JsonView::Object(seq![("$path"@, jstr(path@))]))],
        ),
{
    let inner = object1("$path", json_str(path));
    object2("$className", json_str(service), key, inner)
}

fn project_json(name: &str, lib: bool) -> (res: String)
    ensures
        res@ == project_json_text(name@, lib),
{
    let tree = if lib {
        object1("$path", json_str("src"))
    } else {
        let client = folder("StarterPlayerScripts", "client", "src/client");
        let player = object2("$className", json_str("StarterPlayer"), "StarterPlayerScripts", client);
        object4(
            "$className",
            json_str("DataModel"),
            "ReplicatedStorage",
            folder("ReplicatedStorage", "shared", "src/shared"),
            "ServerScriptService",
            folder("ServerScriptService", "server", "src/server"),
            "StarterPlayer",
            player,
        )
    };
    let v = object2("name", json_str(name), "tree", tree);
    pretty_json(&v)
}

/// `.luaurc` with one language mode for `src/`, as `serde_json::to_string_pretty` writes it.
pub open spec fn luaurc_text(mode: Seq<char>) -> Seq<char> {
    json_pretty(JsonView::Object(seq![("languageMode"@, JsonView::Object(seq![("src/"@, jstr(mode))]))]))
}

fn luaurc(mode: &str) -> (res: String)
    ensures
        res@ == luaurc_text(mode@),
{
    let inner = object1("src/", json_str(mode));
    let v = object1("languageMode", inner);
    pretty_json(&v)
}

/// `wally.toml` of a new project, published as `user/` and the kebab-cased name.
pub open spec fn wally_toml_text(name: Seq<char>) -> Seq<char> {
    "[package]\nname = \""@ + package_name(name)
        + "\"\nversion = \"0.1.0\"\nregistry = \"https://github.com/UpliftGames/wally-index\"\nrealm = \"shared\"\n\n[dependencies]\n"@
}

/// The `wally.toml` of a new project.
pub fn wally_toml(name: &str) -> (res: String)
    ensures
        res@ == wally_toml_text(name@),
{
    let mut out: Vec<char> = Vec::new();
    extend_str(&mut out, "[package]\nname = \"");
    extend_str(&mut out, "user/");
    let slug = slugify(name);
    extend_str(&mut out, slug.as_str());
    extend_str(
        &mut out,
        "\"\nversion = \"0.1.0\"\nregistry = \"https://github.com/UpliftGames/wally-index\"\nrealm = \"shared\"\n\n[dependencies]\n",
    );
    string_of(&out)
}

pub open spec fn readme_text(name: Seq<char>, lib: bool) -> Seq<char> {
    if lib {
        "# "@ + name
            + "\n\nRoblox Luau library scaffolded with esmeril.\n\n## setup\n\n1. install [aftman](https://github.com/rojo-rbx/aftman)\n2. `aftman install` - downloads Rojo, Selene and StyLua\n\n## publish\n\n1. set the real `scope` in `wally.toml` (`name = \"scope/"@
            + name
            + "\"`)\n2. `wally login`\n3. `wally publish`\n\n## checks\n\n```\nesmeril check\n```\n"@
    } else {
        "# "@ + name
            + "\n\nRoblox game scaffolded with esmeril.\n\n## setup\n\n1. install [aftman](https://github.com/rojo-rbx/aftman)\n2. `aftman install` - downloads Rojo, Selene and StyLua\n3. install the [Rojo](https://rojo.space) plugin in Roblox Studio\n4. `rojo serve`, then connect from Studio\n\n## structure\n\n- `src/server` - ServerScriptService\n- `src/client` - StarterPlayerScripts\n- `src/shared` - ReplicatedStorage modules\n\n## checks\n\n```\nesmeril check\n```\n"@
    }
}

/// The README of a new project.
pub fn readme(name: &str, lib: bool) -> (res: String)
    ensures
        res@ == readme_text(name@, lib),
{
    let mut out: Vec<char> = Vec::new();
    extend_str(&mut out, "# ");
    extend_str(&mut out, name);
    if lib {
        extend_str(
            &mut out,
            "\n\nRoblox Luau library scaffolded with esmeril.\n\n## setup\n\n1. install [aftman](https://github.com/rojo-rbx/aftman)\n2. `aftman install` - downloads Rojo, Selene and StyLua\n\n## publish\n\n1. set the real `scope` in `wally.toml` (`name = \"scope/",
        );
        extend_str(&mut out, name);
        extend_str(
            &mut out,
            "\"`)\n2. `wally login`\n3. `wally publish`\n\n## checks\n\n```\nesmeril check\n```\n",
        );
    } else {
        extend_str(
            &mut out,
            "\n\nRoblox game scaffolded with esmeril.\n\n## setup\n\n1. install [aftman](https://github.com/rojo-rbx/aftman)\n2. `aftman install` - downloads Rojo, Selene and StyLua\n3. install the [Rojo](https://rojo.space) plugin in Roblox Studio\n4. `rojo serve`, then connect from Studio\n\n## structure\n\n- `src/server` - ServerScriptService\n- `src/client` - StarterPlayerScripts\n- `src/shared` - ReplicatedStorage modules\n\n## checks\n\n```\nesmeril check\n```\n",
        );
    }
    string_of(&out)
}

pub open spec fn ci_head() -> Seq<char> {
    "name: ci\n\non:\n  push:\n  pull_request:\n\njobs:\n  luau:\n    runs-on: ubuntu-latest\n    steps:\n      - uses: actions/checkout@v7\n      - uses: Roblox/setup-aftman-action@v2\n        with:\n          token: ${{ secrets.GITHUB_TOKEN }}\n      - run: aftman install\n      - run: selene src\n      - run: stylua --check src\n"@
}

/// The CI workflow: install the tools, lint, check formatting, build.
pub open spec fn ci_text(lib: bool) -> Seq<char> {
    ci_head() + if lib {
        "      - run: rojo build -o lib.rbxm\n"@
    } else {
        "      - run: rojo build -o game.rbxl\n"@
    }
}

/// The CI workflow of a new project.
pub fn ci(lib: bool) -> (res: String)
    ensures
        res@ == ci_text(lib),
{
    let mut out: Vec<char> = Vec::new();
    extend_str(
        &mut out,
        "name: ci\n\non:\n  push:\n  pull_request:\n\njobs:\n  luau:\n    runs-on: ubuntu-latest\n    steps:\n      - uses: actions/checkout@v7\n      - uses: Roblox/setup-aftman-action@v2\n        with:\n          token: ${{ secrets.GITHUB_TOKEN }}\n      - run: aftman install\n      - run: selene src\n      - run: stylua --check src\n",
    );
    if lib {
        extend_str(&mut out, "      - run: rojo build -o lib.rbxm\n");
    } else {
        extend_str(&mut out, "      - run: rojo build -o game.rbxl\n");
    }
    string_of(&out)
}

pub open spec fn selene_text() -> Seq<char> {
    "std = \"roblox\"\n"@
}

pub open spec fn stylua_text() -> Seq<char> {
    "indent_type = \"Tabs\"\nindent_width = 4\nquote_style = \"AutoPreferSingle\"\n"@
}

pub open spec fn aftman_text() -> Seq<char> {
    "[tools]\nrojo = \"rojo-rbx/rojo@7.7.0\"\nselene = \"Kampfkarren/selene@0.31.0\"\nstylua = \"JohnnyMorganz/StyLua@2.5.2\"\n"@
}

pub open spec fn gitignore_text() -> Seq<char> {
    "target/\n.lune/\n*.rbxl\n*.rbxlx\n*.rbxmx\n*.rbxm\nThumbs.db\n.DS_Store\n"@
}

pub open spec fn shared_text() -> Seq<char> {
    "-- shared modules: require with ReplicatedStorage.shared\n"@
}

pub open spec fn server_text() -> Seq<char> {
    "-- server entry point (ServerScriptService)\nprint(\"server started\")\n"@
}

pub open spec fn client_text() -> Seq<char> {
    "-- client entry point (StarterPlayerScripts)\nprint(\"client started\")\n"@
}

pub open spec fn lib_entry_text() -> Seq<char> {
    "-- module entry point; requires return this table\nreturn {}\n"@
}

/// The files of a new project, by path, in path order.
pub open spec fn files_spec(name: Seq<char>, strict: bool, lib: bool) -> Seq<(Seq<char>, Seq<char>)> {
    let mode = if strict {
        "Strict"@
    } else {
        "NonStrict"@
    };
    seq![
        (".github/workflows/ci.yml"@, ci_text(lib)),
        (".gitignore"@, gitignore_text()),
        (".luaurc"@, luaurc_text(mode)),
        (".selene.toml"@, selene_text()),
        ("README.md"@, readme_text(name, lib)),
        ("aftman.toml"@, aftman_text()),
        ("default.project.json"@, project_json_text(name, lib)),
    ] + if lib {
        seq![("src/init.lua"@, lib_entry_text())]
    } else {
        seq![
            ("src/client/init.client.lua"@, client_text()),
            ("src/server/init.server.lua"@, server_text()),
            ("src/shared/init.lua"@, shared_text()),
        ]
    } + seq![("stylua.toml"@, stylua_text()), ("wally.toml"@, wally_toml_text(name))]
}

/// The `.luaurc` of a new project sets the language mode of `src/` to `Strict` when asked
/// for strict mode and to `NonStrict` otherwise, and is the only file at that path.
pub proof fn lemma_luaurc_mode(name: Seq<char>, strict: bool, lib: bool)
    ensures
        forall|k: int|
            0 <= k < files_spec(name, strict, lib).len() && (#[trigger] files_spec(name, strict, lib)[k]).0
                == ".luaurc"@ ==> files_spec(name, strict, lib)[k].1 == json_pretty(
                JsonView::Object(
                    seq![
                        (
                            "languageMode"@,
                            JsonView::Object(
                                seq![("src/"@, JsonView::Str(if strict { "Strict"@ } else { "NonStrict"@ }))],
                            ),
                        ),
                    ],
                ),
            ),
        exists|k: int|
            0 <= k < files_spec(name, strict, lib).len() && (#[trigger] files_spec(name, strict, lib)[k]).0
                == ".luaurc"@,
{
    let fs = files_spec(name, strict, lib);
    reveal_strlit(".luaurc");
    reveal_strlit(".github/workflows/ci.yml");
    reveal_strlit(".gitignore");
    reveal_strlit(".selene.toml");
    reveal_strlit("README.md");
    reveal_strlit("aftman.toml");
    reveal_strlit("default.project.json");
    reveal_strlit("src/init.lua");
    reveal_strlit("src/client/init.client.lua");
    reveal_strlit("src/server/init.server.lua");
    reveal_strlit("src/shared/init.lua");
    reveal_strlit("stylua.toml");
    reveal_strlit("wally.toml");
    reveal_strlit("Strict");
    reveal_strlit("NonStrict");
    assert(fs[2].0 == ".luaurc"@);
    assert forall|k: int| 0 <= k < fs.len() && (#[trigger] fs[k]).0 == ".luaurc"@ implies k == 2 by {
        if k != 2 {
            let p = fs[k].0;
            if k == 0 || k == 1 {
                assert(p[1] == 'g');
            } else if k == 3 {
                assert(p[1] == 's');
            } else {
                assert(p[0] != '.');
            }
        }
    }
}

/// Strict mode touches only the `.luaurc` of a new project: the same files at the same
/// paths, with the same contents but for `.luaurc`.
pub proof fn lemma_strict_changes_only_luaurc(name: Seq<char>, lib: bool)
    ensures
        files_spec(name, true, lib).len() == files_spec(name, false, lib).len(),
        forall|k: int|
            0 <= k < files_spec(name, true, lib).len() ==> (#[trigger] files_spec(name, true, lib)[k]).0
                == files_spec(name, false, lib)[k].0,
        forall|k: int|
            0 <= k < files_spec(name, true, lib).len() && (#[trigger] files_spec(name, true, lib)[k]).0
                != ".luaurc"@ ==> files_spec(name, true, lib)[k].1 == files_spec(name, false, lib)[k].1,
{
    lemma_luaurc_mode(name, true, lib);
    let a = files_spec(name, true, lib);
    let b = files_spec(name, false, lib);
    assert forall|k: int| 0 <= k < a.len() && (#[trigger] a[k]).0 != ".luaurc"@ implies a[k].1
        == b[k].1 by {
        assert(k != 2);
    }
}

pub open spec fn file_views(v: Seq<(String, String)>) -> Seq<(Seq<char>, Seq<char>)> {
    v.map_values(|e: (String, String)| (e.0@, e.1@))
}

fn text(s: &str) -> (res: String)
    ensures
        res@ == s@,
{
    string_of(&chars_of(s))
}

fn add_file(out: &mut Vec<(String, String)>, path: &str, content: String)
    ensures
        file_views(final(out)@) == file_views(old(out)@).push((path@, content@)),
{
    out.push((text(path), content));
    assert(file_views(out@) =~= file_views(old(out)@).push((path@, content@)));
}

/// The files of a new project named `name`, as (path, content) in path order: Rojo,
/// Selene, StyLua, Aftman and Wally configs, a README, a CI workflow and the sources.
pub fn files(name: &str, strict: bool, lib: bool) -> (res: Vec<(String, String)>)
    ensures
        file_views(res@) == files_spec(name@, strict, lib),
{
    let mode = if strict {
        "Strict"
    } else {
        "NonStrict"
    };
    let mut out: Vec<(String, String)> = Vec::new();
    add_file(&mut out, ".github/workflows/ci.yml", ci(lib));
    add_file(&mut out, ".gitignore", text("target/\n.lune/\n*.rbxl\n*.rbxlx\n*.rbxmx\n*.rbxm\nThumbs.db\n.DS_Store\n"));
    add_file(&mut out, ".luaurc", luaurc(mode));
    add_file(&mut out, ".selene.toml", text("std = \"roblox\"\n"));
    add_file(&mut out, "README.md", readme(name, lib));
    add_file(
        &mut out,
        "aftman.toml",
        text(
            "[tools]\nrojo = \"rojo-rbx/rojo@7.7.0\"\nselene = \"Kampfkarren/selene@0.31.0\"\nstylua = \"JohnnyMorganz/StyLua@2.5.2\"\n",
        ),
    );
    add_file(&mut out, "default.project.json", project_json(name, lib));
    if lib {
        add_file(
            &mut out,
            "src/init.lua",
            text("-- module entry point; requires return this table\nreturn {}\n"),
        );
    } else {
        add_file(
            &mut out,
            "src/client/init.client.lua",
            text("-- client entry point (StarterPlayerScripts)\nprint(\"client started\")\n"),
        );
        add_file(
            &mut out,
            "src/server/init.server.lua",
            text("-- server entry point (ServerScriptService)\nprint(\"server started\")\n"),
        );
        add_file(
            &mut out,
            "src/shared/init.lua",
            text("-- shared modules: require with ReplicatedStorage.shared\n"),
        );
    }
    add_file(
        &mut out,
        "stylua.toml",
        text("indent_type = \"Tabs\"\nindent_width = 4\nquote_style = \"AutoPreferSingle\"\n"),
    );
    add_file(&mut out, "wally.toml", wally_toml(name));
    assert(file_views(out@) =~= files_spec(name@, strict, lib));
    out
}

} // verus!
