//! Bumping `wally.toml` requirements to the newest releases.
use vstd::prelude::*;

use crate::data::TomlValue;
use crate::deps::{fetched_view, required_text, Target, TargetView};
use crate::requirement::{latest_stable, latest_stable_spec, satisfies_spec, views, Req};
use crate::render::{
    empty_line, line1, line_view, lines_view, number, pad, pad_right, push_line, push_span, span,
    span_of, span_view, Span, Style,
};
use crate::text::{chars_of, decimal, extend, extend_str, rsplit_once, rsplit_once_chars, string_of};
use crate::toml_doc::{
    document_text, open_document, read_entry, set_inline_version, set_text, toml_edit_parse,
    toml_edited_text, EntryRead, EntryView, TomlDocument,
};
use crate::version::{version_text, Version, VersionView};

verus! {

/// A dependency whose requirement excludes the newest release.
#[derive(Debug)]
pub struct UpdateRow {
    pub section: String,
    pub name: String,
    pub required: String,
    /// `scope/name@version` of the newest release.
    pub latest: String,
}

/// The outcome of `update`.
#[derive(Debug)]
pub struct UpdateReport {
    pub path: String,
    pub written: bool,
    pub updates: Vec<UpdateRow>,
    pub up_to_date: usize,
    pub errors: usize,
}

/// What the update found for one dependency.
#[derive(Debug)]
pub enum UpdateStep {
    /// Not a registry dependency.
    Skip,
    /// The manifest could not be fetched, or lists no version.
    Error,
    /// The newest release meets the requirement.
    Current,
    /// An exact requirement that the newest release does not meet: left as it is.
    Pinned,
    Bump(UpdateRow),
}

/// The step for one dependency, from where it points and what the registry answered.
pub open spec fn step_matches(
    step: UpdateStep,
    section: Seq<char>,
    alias: Seq<char>,
    value: TomlValue,
    target: TargetView,
    fetched: Result<Seq<VersionView>, Seq<char>>,
) -> bool {
    match target {
        TargetView::Registry(name, req) => match fetched {
            Err(_) => step is Error,
            Ok(vs) => match latest_stable_spec(vs) {
                None => step is Error,
                Some(l) => if satisfies_spec(req, l) {
                    step is Current
                } else if req is Exact {
                    step is Pinned
                } else {
                    step matches UpdateStep::Bump(row) && row.section@ == section && row.name@
                        == alias && row.required@ == required_text(value) && row.latest@ == name
                        + "@"@ + version_text(l)
                },
            },
        },
        _ => step is Skip,
    }
}

/// Decides the update of one dependency: bumped when the newest release falls outside its
/// requirement, except that an exact (`=`) pin is left alone. `fetched` is the registry's
/// answer for a registry target; other targets ignore it.
pub fn update_step(
    section: &str,
    alias: &str,
    value: &TomlValue,
    target: &Target,
    fetched: Result<Vec<Version>, String>,
) -> (res: UpdateStep)
    ensures
        step_matches(res, section@, alias@, *value, target@, fetched_view(fetched)),
{
    match target {
        Target::Registry { name, req } => match fetched {
            Err(_) => UpdateStep::Error,
            Ok(versions) => match latest_stable(versions.as_slice()) {
                None => UpdateStep::Error,
                Some(l) => {
                    if req.satisfies(&l) {
                        UpdateStep::Current
                    } else if let Req::Exact(_) = req {
                        UpdateStep::Pinned
                    } else {
                        let required = match value {
                            TomlValue::Str(s) => string_of(&chars_of(s.as_str())),
                            TomlValue::Table(_, t) => string_of(&chars_of(t.as_str())),
                            TomlValue::Other(t) => string_of(&chars_of(t.as_str())),
                        };
                        let mut latest = chars_of(name.as_str());
                        extend_str(&mut latest, "@");
                        let lt = l.to_string();
                        extend_str(&mut latest, lt.as_str());
                        UpdateStep::Bump(
                            UpdateRow {
                                section: string_of(&chars_of(section)),
                                name: string_of(&chars_of(alias)),
                                required,
                                latest: string_of(&latest),
                            },
                        )
                    }
                },
            },
        },
        _ => UpdateStep::Skip,
    }
}

/// The rows of the bumps, in order.
pub open spec fn bumps(steps: Seq<UpdateStep>) -> Seq<UpdateRow>
    decreases steps.len(),
{
    if steps.len() == 0 {
        Seq::empty()
    } else {
        match steps.last() {
            UpdateStep::Bump(r) => bumps(steps.drop_last()).push(r),
            _ => bumps(steps.drop_last()),
        }
    }
}

/// How many steps `pred` picks.
pub open spec fn count_steps(steps: Seq<UpdateStep>, pred: spec_fn(UpdateStep) -> bool) -> nat
    decreases steps.len(),
{
    if steps.len() == 0 {
        0
    } else {
        count_steps(steps.drop_last(), pred) + if pred(steps.last()) {
            1nat
        } else {
            0nat
        }
    }
}

proof fn lemma_count_steps_bound(steps: Seq<UpdateStep>, pred: spec_fn(UpdateStep) -> bool)
    ensures
        count_steps(steps, pred) <= steps.len(),
    decreases steps.len(),
{
    if steps.len() > 0 {
        lemma_count_steps_bound(steps.drop_last(), pred);
    }
}

impl UpdateReport {
    /// The report of the steps: the bumps in order, the dependencies up to date and the
    /// errors counted.
    pub fn new(path: String, written: bool, steps: Vec<UpdateStep>) -> (r: UpdateReport)
        ensures
            r.path == path,
            r.written == written,
            r.updates@ == bumps(steps@),
            r.up_to_date == count_steps(steps@, |s: UpdateStep| s is Current),
            r.errors == count_steps(steps@, |s: UpdateStep| s is Error),
    {
        let mut updates: Vec<UpdateRow> = Vec::new();
        let mut up_to_date: usize = 0;
        let mut errors: usize = 0;
        let mut rest = steps;
        let ghost all = rest@;
        // walk the steps front to back by reversing once
        let mut rev: Vec<UpdateStep> = Vec::new();
        while rest.len() > 0
            invariant
                all.len() == rest@.len() + rev@.len(),
                forall|k: int| 0 <= k < rest@.len() ==> #[trigger] rest@[k] == all[k],
                forall|k: int| 0 <= k < rev@.len() ==> #[trigger] rev@[k] == all[all.len() - 1 - k],
            decreases rest.len(),
        {
            let s = rest.pop().unwrap();
            rev.push(s);
        }
        let mut i: usize = 0;
        let n = rev.len();
        while rev.len() > 0
            invariant
                n == all.len(),
                rev@.len() + i == n,
                forall|k: int| 0 <= k < rev@.len() ==> #[trigger] rev@[k] == all[n - 1 - k],
                updates@ == bumps(all.take(i as int)),
                up_to_date == count_steps(all.take(i as int), |s: UpdateStep| s is Current),
                errors == count_steps(all.take(i as int), |s: UpdateStep| s is Error),
            decreases rev.len(),
        {
            let s = rev.pop().unwrap();
            assert(s == all[i as int]);
            assert(all.take(i + 1).drop_last() =~= all.take(i as int));
            assert(all.take(i + 1).last() == all[i as int]);
            proof {
                lemma_count_steps_bound(all.take(i as int), |s: UpdateStep| s is Current);
                lemma_count_steps_bound(all.take(i as int), |s: UpdateStep| s is Error);
            }
            match s {
                UpdateStep::Bump(r) => {
                    updates.push(r);
                },
                UpdateStep::Current => {
                    up_to_date += 1;
                },
                UpdateStep::Error => {
                    errors += 1;
                },
                UpdateStep::Skip | UpdateStep::Pinned => {},
            }
            i += 1;
        }
        assert(all.take(n as int) =~= all);
        UpdateReport { path, written, updates, up_to_date, errors }
    }

    /// Whether a dependency could not be checked.
    pub fn fail(&self) -> (res: bool)
        ensures
            res == (self.errors > 0),
    {
        self.errors > 0
    }
}

/// `wally.toml` is rewritten only when asked and when something changes.
pub fn should_write(write: bool, updates: &Vec<UpdateRow>) -> (res: bool)
    ensures
        res == (write && updates@.len() > 0),
{
    write && updates.len() > 0
}

// ---- rewriting `wally.toml` in place ----

/// Why `wally.toml` could not be rewritten.
#[derive(Debug)]
pub enum ApplyError {
    InvalidToml(String),
    MissingSection(String),
    MissingDependency(String),
}

/// An `ApplyError` by its text fields.
pub enum ApplyErrorView {
    InvalidToml(Seq<char>),
    MissingSection(Seq<char>),
    MissingDependency(Seq<char>),
}

impl ApplyError {
    pub open spec fn view(self) -> ApplyErrorView {
        match self {
            ApplyError::InvalidToml(m) => ApplyErrorView::InvalidToml(m@),
            ApplyError::MissingSection(s) => ApplyErrorView::MissingSection(s@),
            ApplyError::MissingDependency(n) => ApplyErrorView::MissingDependency(n@),
        }
    }

    pub open spec fn text(self) -> Seq<char> {
        match self {
            ApplyError::InvalidToml(m) => "invalid wally.toml: "@ + m@,
            ApplyError::MissingSection(s) => "missing section ["@ + s@ + "]"@,
            ApplyError::MissingDependency(n) => "missing dependency '"@ + n@ + "'"@,
        }
    }

    /// The message shown for the error.
    pub fn message(&self) -> (res: String)
        ensures
            res@ == self.text(),
    {
        let mut out: Vec<char> = Vec::new();
        match self {
            ApplyError::InvalidToml(m) => {
                extend_str(&mut out, "invalid wally.toml: ");
                extend_str(&mut out, m.as_str());
            },
            ApplyError::MissingSection(s) => {
                extend_str(&mut out, "missing section [");
                extend_str(&mut out, s.as_str());
                extend_str(&mut out, "]");
            },
            ApplyError::MissingDependency(n) => {
                extend_str(&mut out, "missing dependency '");
                extend_str(&mut out, n.as_str());
                extend_str(&mut out, "'");
            },
        }
        string_of(&out)
    }
}

/// The version of `scope/name@version`; the whole text when it has no `@`.
pub open spec fn version_part(latest: Seq<char>) -> Seq<char> {
    match rsplit_once(latest, '@') {
        Some((_, v)) => v,
        None => latest,
    }
}

/// A string requirement moved to `version`: the part before its last `@` is kept, and a
/// bare version is replaced.
pub open spec fn bumped_text(raw: Seq<char>, version: Seq<char>) -> Seq<char> {
    match rsplit_once(raw, '@') {
        Some((name, _)) => name + "@"@ + version,
        None => version,
    }
}

/// The tables after one update, or the error it meets.
pub open spec fn apply_one(
    tables: Map<Seq<char>, Map<Seq<char>, EntryView>>,
    u: UpdateRow,
) -> Result<Map<Seq<char>, Map<Seq<char>, EntryView>>, ApplyErrorView> {
    let s = u.section@;
    let n = u.name@;
    if !tables.dom().contains(s) {
        Err(ApplyErrorView::MissingSection(s))
    } else if !tables[s].dom().contains(n) {
        Err(ApplyErrorView::MissingDependency(n))
    } else {
        match tables[s][n] {
            EntryView::Text(raw) => Ok(
                tables.insert(
                    s,
                    tables[s].insert(n, EntryView::Text(bumped_text(raw, version_part(u.latest@)))),
                ),
            ),
            EntryView::Inline(_) => Ok(
                tables.insert(s, tables[s].insert(n, EntryView::Inline(Some(version_part(u.latest@))))),
            ),
            EntryView::Other => Ok(tables),
        }
    }
}

/// The tables after the updates in order, or the first error met.
pub open spec fn apply_all(
    tables: Map<Seq<char>, Map<Seq<char>, EntryView>>,
    us: Seq<UpdateRow>,
) -> Result<Map<Seq<char>, Map<Seq<char>, EntryView>>, ApplyErrorView>
    decreases us.len(),
{
    if us.len() == 0 {
        Ok(tables)
    } else {
        match apply_all(tables, us.drop_last()) {
            Err(e) => Err(e),
            Ok(t) => apply_one(t, us.last()),
        }
    }
}

/// The edit that update `u` makes to a document holding `tables`, when it makes one.
pub open spec fn edit_of(
    tables: Map<Seq<char>, Map<Seq<char>, EntryView>>,
    u: UpdateRow,
) -> Seq<(Seq<char>, Seq<char>, Seq<char>, bool)> {
    let v = version_part(u.latest@);
    match tables[u.section@][u.name@] {
        EntryView::Text(raw) => seq![(u.section@, u.name@, bumped_text(raw, v), true)],
        EntryView::Inline(_) => seq![(u.section@, u.name@, v, false)],
        EntryView::Other => Seq::empty(),
    }
}

/// The edits that the updates make in order, as long as none of them fails.
pub open spec fn edits_of(
    tables: Map<Seq<char>, Map<Seq<char>, EntryView>>,
    us: Seq<UpdateRow>,
) -> Seq<(Seq<char>, Seq<char>, Seq<char>, bool)>
    decreases us.len(),
{
    if us.len() == 0 {
        Seq::empty()
    } else {
        match apply_all(tables, us.drop_last()) {
            Ok(t) => edits_of(tables, us.drop_last()) + edit_of(t, us.last()),
            Err(_) => Seq::empty(),
        }
    }
}

fn version_of(latest: &str) -> (res: Vec<char>)
    ensures
        res@ == version_part(latest@),
{
    let v = chars_of(latest);
    match rsplit_once_chars(&v, '@') {
        Some((_, b)) => b,
        None => v,
    }
}

fn bumped(raw: &str, version: &Vec<char>) -> (res: String)
    ensures
        res@ == bumped_text(raw@, version@),
{
    let v = chars_of(raw);
    match rsplit_once_chars(&v, '@') {
        Some((a, _)) => {
            let mut out = a;
            extend_str(&mut out, "@");
            extend(&mut out, version);
            string_of(&out)
        },
        None => string_of(version),
    }
}

/// Applies the updates to `doc` in order. It stops at the first update whose table or
/// entry the document lacks; an entry that is neither a string nor an inline table is
/// left as it is.
pub(crate) fn update_document(doc: &mut TomlDocument, updates: &[UpdateRow]) -> (r: Result<(), ApplyError>)
    ensures
        final(doc).source() == old(doc).source(),
        match apply_all(old(doc).tables(), updates@) {
            Ok(t) => r is Ok && final(doc).tables() == t && final(doc).edits() == old(doc).edits()
                + edits_of(old(doc).tables(), updates@),
            Err(e) => r matches Err(x) && x.view() == e,
        },
{
    let ghost t0 = doc.tables();
    let ghost e0 = doc.edits();
    let mut i: usize = 0;
    while i < updates.len()
        invariant
            i <= updates@.len(),
            t0 == old(doc).tables(),
            e0 == old(doc).edits(),
            doc.source() == old(doc).source(),
            apply_all(t0, updates@.take(i as int)) == Ok::<
                Map<Seq<char>, Map<Seq<char>, EntryView>>,
                ApplyErrorView,
            >(doc.tables()),
            doc.edits() == e0 + edits_of(t0, updates@.take(i as int)),
        decreases updates.len() - i,
    {
        let u = &updates[i];
        assert(updates@.take(i + 1).drop_last() =~= updates@.take(i as int));
        assert(updates@.take(i + 1).last() == updates@[i as int]);
        let version = version_of(u.latest.as_str());
        match read_entry(doc, u.section.as_str(), u.name.as_str()) {
            EntryRead::NoSection => {
                proof {
                    lemma_apply_all_stops(t0, updates@, i as int + 1);
                }
                return Err(ApplyError::MissingSection(string_of(&chars_of(u.section.as_str()))));
            },
            EntryRead::NoEntry => {
                proof {
                    lemma_apply_all_stops(t0, updates@, i as int + 1);
                }
                return Err(ApplyError::MissingDependency(string_of(&chars_of(u.name.as_str()))));
            },
            EntryRead::Text(raw) => {
                let t = bumped(raw.as_str(), &version);
                set_text(doc, u.section.as_str(), u.name.as_str(), t);
            },
            EntryRead::Inline => {
                set_inline_version(doc, u.section.as_str(), u.name.as_str(), string_of(&version));
            },
            EntryRead::Other => {},
        }
        assert(doc.edits() =~= e0 + edits_of(t0, updates@.take(i + 1)));
        i += 1;
    }
    assert(updates@.take(updates@.len() as int) =~= updates@);
    Ok(())
}

/// Once an error is met, the later updates keep it.
proof fn lemma_apply_all_stops(
    tables: Map<Seq<char>, Map<Seq<char>, EntryView>>,
    us: Seq<UpdateRow>,
    k: int,
)
    requires
        0 <= k <= us.len(),
        apply_all(tables, us.take(k)) is Err,
    ensures
        apply_all(tables, us) == apply_all(tables, us.take(k)),
    decreases us.len() - k,
{
    if k < us.len() {
        assert(us.take(k + 1).drop_last() =~= us.take(k));
        lemma_apply_all_stops(tables, us, k + 1);
    } else {
        assert(us.take(k) =~= us);
    }
}

/// `wally.toml` with the updates applied: the text `toml_edit` prints after reading `text`
/// and making the updates' edits, which keeps its comments and layout.
pub fn apply_updates(text: &str, updates: &[UpdateRow]) -> (r: Result<String, ApplyError>)
    ensures
        match toml_edit_parse(text@) {
            Err(m) => r matches Err(e) && e.view() == ApplyErrorView::InvalidToml(m),
            Ok(tables) => match apply_all(tables, updates@) {
                Err(e) => r matches Err(x) && x.view() == e,
                Ok(_) => r matches Ok(out) && out@ == toml_edited_text(
                    text@,
                    edits_of(tables, updates@),
                ),
            },
        },
{
    let mut doc = match open_document(text) {
        Ok(d) => d,
        Err(m) => {
            return Err(ApplyError::InvalidToml(m));
        },
    };
    match update_document(&mut doc, updates) {
        Err(e) => Err(e),
        Ok(()) => {
            assert(Seq::<(Seq<char>, Seq<char>, Seq<char>, bool)>::empty() + edits_of(
                toml_edit_parse(text@)->Ok_0,
                updates@,
            ) =~= edits_of(toml_edit_parse(text@)->Ok_0, updates@));
            let out = document_text(&doc);
            Ok(out)
        },
    }
}

// ---- laws of the rewrite ----

proof fn lemma_version_part_no_at(latest: Seq<char>)
    ensures
        !version_part(latest).contains('@'),
{
    latest.index_of_last_ensures('@');
    match latest.index_of_last('@') {
        Some(i) => {
            let v = latest.skip(i + 1);
            assert forall|j: int| 0 <= j < v.len() implies v[j] != '@' by {
                assert(v[j] == latest[j + i + 1]);
            }
        },
        None => {},
    }
}

proof fn lemma_rsplit_none(s: Seq<char>)
    requires
        !s.contains('@'),
    ensures
        rsplit_once(s, '@') is None,
{
    s.index_of_last_ensures('@');
}

proof fn lemma_rsplit_joined(name: Seq<char>, v: Seq<char>)
    requires
        !v.contains('@'),
    ensures
        rsplit_once(name + "@"@ + v, '@') == Some((name, v)),
{
    reveal_strlit("@");
    let s = name + "@"@ + v;
    assert(s[name.len() as int] == '@');
    s.index_of_last_ensures('@');
    let i = s.index_of_last('@').unwrap();
    if i > name.len() {
        assert(s[i] == v[i - name.len() - 1]);
    }
    assert(s.take(i) =~= name);
    assert(s.skip(i + 1) =~= v);
}

proof fn lemma_bumped_twice(raw: Seq<char>, a: Seq<char>, b: Seq<char>)
    requires
        !a.contains('@'),
        !b.contains('@'),
    ensures
        bumped_text(bumped_text(raw, a), b) == bumped_text(raw, b),
{
    match rsplit_once(raw, '@') {
        Some((name, _)) => lemma_rsplit_joined(name, a),
        None => lemma_rsplit_none(a),
    }
}

/// An entry moved to `version`: a string keeps what comes before its last `@`, an inline
/// table gets it under `version`, anything else stays.
pub open spec fn bump_entry(e: EntryView, version: Seq<char>) -> EntryView {
    match e {
        EntryView::Text(raw) => EntryView::Text(bumped_text(raw, version)),
        EntryView::Inline(_) => EntryView::Inline(Some(version)),
        EntryView::Other => EntryView::Other,
    }
}

/// The version of the last update in `us` that names entry `n` of table `s`.
pub open spec fn last_version(us: Seq<UpdateRow>, s: Seq<char>, n: Seq<char>) -> Option<Seq<char>>
    decreases us.len(),
{
    if us.len() == 0 {
        None
    } else if us.last().section@ == s && us.last().name@ == n {
        Some(version_part(us.last().latest@))
    } else {
        last_version(us.drop_last(), s, n)
    }
}

/// An entry after the updates `us`.
pub open spec fn entry_after(e: EntryView, us: Seq<UpdateRow>, s: Seq<char>, n: Seq<char>) -> EntryView {
    match last_version(us, s, n) {
        Some(v) => bump_entry(e, v),
        None => e,
    }
}

proof fn lemma_last_version_no_at(us: Seq<UpdateRow>, s: Seq<char>, n: Seq<char>)
    ensures
        last_version(us, s, n) matches Some(v) ==> !v.contains('@'),
    decreases us.len(),
{
    if us.len() > 0 {
        lemma_version_part_no_at(us.last().latest@);
        lemma_last_version_no_at(us.drop_last(), s, n);
    }
}

proof fn lemma_bump_twice(e: EntryView, a: Seq<char>, b: Seq<char>)
    requires
        !a.contains('@'),
        !b.contains('@'),
    ensures
        bump_entry(bump_entry(e, a), b) == bump_entry(e, b),
{
    if let EntryView::Text(raw) = e {
        lemma_bumped_twice(raw, a, b);
    }
}

/// What a read gives back after the updates: the tables and their entries are the same,
/// each entry moved to the version of the last update that names it, and an entry that no
/// update names unchanged.
pub proof fn lemma_apply_all_reads_back(
    tables: Map<Seq<char>, Map<Seq<char>, EntryView>>,
    us: Seq<UpdateRow>,
)
    requires
        apply_all(tables, us) is Ok,
    ensures
        apply_all(tables, us)->Ok_0.dom() == tables.dom(),
        forall|s: Seq<char>|
            #[trigger] tables.dom().contains(s) ==> apply_all(tables, us)->Ok_0[s].dom()
                == tables[s].dom(),
        forall|s: Seq<char>, n: Seq<char>|
            #![trigger tables[s][n]]
            tables.dom().contains(s) && tables[s].dom().contains(n) ==> apply_all(tables, us)->Ok_0[s][n]
                == entry_after(tables[s][n], us, s, n),
    decreases us.len(),
{
    if us.len() == 0 {
        assert(apply_all(tables, us)->Ok_0 == tables);
    } else {
        let pre = us.drop_last();
        lemma_apply_all_reads_back(tables, pre);
        let t1 = apply_all(tables, pre)->Ok_0;
        let u = us.last();
        let t2 = apply_all(tables, us)->Ok_0;
        assert(t2 == apply_one(t1, u)->Ok_0);
        let s0 = u.section@;
        let n0 = u.name@;
        let v = version_part(u.latest@);
        lemma_version_part_no_at(u.latest@);
        assert(t2.dom() =~= t1.dom());
        assert forall|s: Seq<char>| #[trigger] tables.dom().contains(s) implies t2[s].dom()
            == tables[s].dom() by {
            if s == s0 {
                assert(t2[s].dom() =~= t1[s].dom());
            }
        }
        assert forall|s: Seq<char>, n: Seq<char>|
            #![trigger tables[s][n]]
            tables.dom().contains(s) && tables[s].dom().contains(n) implies t2[s][n]
                == entry_after(tables[s][n], us, s, n) by {
            let e = tables[s][n];
            assert(t1[s][n] == entry_after(e, pre, s, n));
            if s == s0 && n == n0 {
                assert(last_version(us, s, n) == Some(v));
                lemma_last_version_no_at(pre, s, n);
                match last_version(pre, s, n) {
                    Some(w) => lemma_bump_twice(e, w, v),
                    None => {},
                }
                assert(t2[s][n] == bump_entry(t1[s][n], v));
            } else {
                assert(last_version(us, s, n) == last_version(pre, s, n));
                assert(t2[s][n] == t1[s][n]);
            }
        }
    }
}

/// Whether update `u` names an entry of a table of `tables`.
pub open spec fn names_entry(tables: Map<Seq<char>, Map<Seq<char>, EntryView>>, u: UpdateRow) -> bool {
    tables.dom().contains(u.section@) && tables[u.section@].dom().contains(u.name@)
}

/// The updates go through exactly when each names an entry of a table the document has.
pub proof fn lemma_apply_all_ok(tables: Map<Seq<char>, Map<Seq<char>, EntryView>>, us: Seq<UpdateRow>)
    ensures
        apply_all(tables, us) is Ok <==> forall|i: int|
            0 <= i < us.len() ==> names_entry(tables, #[trigger] us[i]),
    decreases us.len(),
{
    if us.len() > 0 {
        let pre = us.drop_last();
        lemma_apply_all_ok(tables, pre);
        let u = us.last();
        assert(us[us.len() - 1] == u);
        let all_us = forall|i: int| 0 <= i < us.len() ==> names_entry(tables, #[trigger] us[i]);
        let all_pre = forall|i: int| 0 <= i < pre.len() ==> names_entry(tables, #[trigger] pre[i]);
        assert(all_us <==> all_pre && names_entry(tables, u)) by {
            if all_us {
                assert forall|i: int| 0 <= i < pre.len() implies names_entry(tables, #[trigger] pre[i]) by {
                    assert(pre[i] == us[i]);
                }
            }
            if all_pre && names_entry(tables, u) {
                assert forall|i: int| 0 <= i < us.len() implies names_entry(tables, #[trigger] us[i]) by {
                    if i < pre.len() {
                        assert(pre[i] == us[i]);
                    }
                }
            }
        }
        if apply_all(tables, pre) is Ok {
            lemma_apply_all_reads_back(tables, pre);
            let t1 = apply_all(tables, pre)->Ok_0;
            assert(apply_all(tables, us) == apply_one(t1, u));
            if tables.dom().contains(u.section@) {
                assert(t1[u.section@].dom() == tables[u.section@].dom());
            }
            assert(names_entry(t1, u) <==> names_entry(tables, u));
        }
    }
}

/// Applying the same updates a second time changes nothing more.
pub proof fn lemma_apply_all_idempotent(
    tables: Map<Seq<char>, Map<Seq<char>, EntryView>>,
    us: Seq<UpdateRow>,
)
    requires
        apply_all(tables, us) is Ok,
    ensures
        apply_all(apply_all(tables, us)->Ok_0, us) == apply_all(tables, us),
{
    let t1 = apply_all(tables, us)->Ok_0;
    lemma_apply_all_reads_back(tables, us);
    lemma_apply_all_ok(tables, us);
    lemma_apply_all_ok(t1, us);
    assert forall|i: int| 0 <= i < us.len() implies names_entry(t1, #[trigger] us[i]) by {
        assert(names_entry(tables, us[i]));
    }
    lemma_apply_all_reads_back(t1, us);
    let t2 = apply_all(t1, us)->Ok_0;
    assert forall|s: Seq<char>| #[trigger] t1.dom().contains(s) implies t2[s] =~= t1[s] by {
        assert(tables.dom().contains(s));
        assert forall|n: Seq<char>| #[trigger] t1[s].dom().contains(n) implies t2[s][n] == t1[s][n] by {
            assert(tables[s].dom().contains(n));
            assert(t1[s][n] == entry_after(tables[s][n], us, s, n));
            assert(t2[s][n] == entry_after(t1[s][n], us, s, n));
            lemma_last_version_no_at(us, s, n);
            match last_version(us, s, n) {
                Some(v) => lemma_bump_twice(tables[s][n], v, v),
                None => {},
            }
        }
    }
    assert(t2 =~= t1);
}

// ---- the terminal report ----

/// One outdated dependency: section, name, requirement, an arrow and the newest release.
pub open spec fn update_line(u: UpdateRow) -> Seq<(Seq<char>, Style)> {
    seq![
        ("  "@, Style::Plain),
        (u.section@, Style::Dimmed),
        (" "@ + pad_right(u.name@, 28) + " "@, Style::Plain),
        (u.required@, Style::Yellow),
        (" "@, Style::Plain),
        ("→"@, Style::Dimmed),
        (" "@, Style::Plain),
        (u.latest@, Style::Green),
    ]
}

pub open spec fn update_counts(r: UpdateReport) -> Seq<char> {
    "  "@ + decimal(r.updates@.len()) + " outdated · "@ + decimal(r.up_to_date as nat)
        + " up to date · "@ + decimal(r.errors as nat) + " errors"@
}

/// The summary: red on errors, green when nothing is outdated, else whether the file
/// was rewritten or how to rewrite it.
pub open spec fn update_summary(r: UpdateReport) -> Seq<(Seq<char>, Style)> {
    if r.errors > 0 {
        seq![(update_counts(r), Style::RedBold)]
    } else if r.updates@.len() == 0 {
        seq![(update_counts(r), Style::Green)]
    } else if r.written {
        seq![(update_counts(r), Style::GreenBold), (" · wally.toml updated"@, Style::Plain)]
    } else {
        seq![(update_counts(r), Style::Yellow), (" · rerun with --write to apply"@, Style::Plain)]
    }
}

pub open spec fn update_lines_spec(r: UpdateReport) -> Seq<Seq<(Seq<char>, Style)>> {
    seq![
        seq![("  "@, Style::Plain), ("esmeril update"@, Style::Title), ("  "@ + r.path@, Style::Plain)],
        Seq::empty(),
    ] + if r.updates@.len() == 0 {
        seq![seq![("  everything is up to date"@, Style::Plain)]]
    } else {
        r.updates@.map_values(|u: UpdateRow| update_line(u))
    } + seq![Seq::empty(), update_summary(r)]
}

fn update_line_of(u: &UpdateRow) -> (res: Vec<Span>)
    ensures
        line_view(res) == update_line(*u),
{
    let mut l: Vec<Span> = Vec::new();
    push_span(&mut l, span("  ", Style::Plain));
    push_span(&mut l, span(u.section.as_str(), Style::Dimmed));
    let mut n: Vec<char> = Vec::new();
    extend_str(&mut n, " ");
    extend(&mut n, &pad(&chars_of(u.name.as_str()), 28));
    extend_str(&mut n, " ");
    push_span(&mut l, span_of(&n, Style::Plain));
    push_span(&mut l, span(u.required.as_str(), Style::Yellow));
    push_span(&mut l, span(" ", Style::Plain));
    push_span(&mut l, span("→", Style::Dimmed));
    push_span(&mut l, span(" ", Style::Plain));
    push_span(&mut l, span(u.latest.as_str(), Style::Green));
    assert(line_view(l) =~= update_line(*u));
    l
}

fn update_summary_of(r: &UpdateReport) -> (res: Vec<Span>)
    ensures
        line_view(res) == update_summary(*r),
{
    let mut t: Vec<char> = Vec::new();
    extend_str(&mut t, "  ");
    extend(&mut t, &number(r.updates.len() as u64));
    extend_str(&mut t, " outdated · ");
    extend(&mut t, &number(r.up_to_date as u64));
    extend_str(&mut t, " up to date · ");
    extend(&mut t, &number(r.errors as u64));
    extend_str(&mut t, " errors");
    let mut l: Vec<Span> = Vec::new();
    if r.errors > 0 {
        push_span(&mut l, span_of(&t, Style::RedBold));
    } else if r.updates.len() == 0 {
        push_span(&mut l, span_of(&t, Style::Green));
    } else if r.written {
        push_span(&mut l, span_of(&t, Style::GreenBold));
        push_span(&mut l, span(" · wally.toml updated", Style::Plain));
    } else {
        push_span(&mut l, span_of(&t, Style::Yellow));
        push_span(&mut l, span(" · rerun with --write to apply", Style::Plain));
    }
    assert(line_view(l) =~= update_summary(*r));
    l
}

/// The lines of the terminal report.
pub fn update_lines(r: &UpdateReport) -> (res: Vec<Vec<Span>>)
    ensures
        lines_view(res@) == update_lines_spec(*r),
{
    let mut out: Vec<Vec<Span>> = Vec::new();
    let mut title: Vec<Span> = Vec::new();
    push_span(&mut title, span("  ", Style::Plain));
    push_span(&mut title, span("esmeril update", Style::Title));
    let mut p: Vec<char> = Vec::new();
    extend_str(&mut p, "  ");
    extend_str(&mut p, r.path.as_str());
    push_span(&mut title, span_of(&p, Style::Plain));
    assert(line_view(title) =~= seq![("  "@, Style::Plain), ("esmeril update"@, Style::Title), ("  "@ + r.path@, Style::Plain)]);
    push_line(&mut out, title);
    push_line(&mut out, empty_line());
    let ghost head = lines_view(out@);
    let ghost body: Seq<Seq<(Seq<char>, Style)>>;
    if r.updates.len() == 0 {
        push_line(&mut out, line1(span("  everything is up to date", Style::Plain)));
        proof {
            body = seq![seq![("  everything is up to date"@, Style::Plain)]];
        }
        assert(lines_view(out@) =~= head + body);
    } else {
        let mut i: usize = 0;
        while i < r.updates.len()
            invariant
                i <= r.updates.len(),
                lines_view(out@) == head + r.updates@.map_values(|u: UpdateRow| update_line(u)).take(
                    i as int,
                ),
            decreases r.updates.len() - i,
        {
            push_line(&mut out, update_line_of(&r.updates[i]));
            assert(r.updates@.map_values(|u: UpdateRow| update_line(u)).take(i + 1)
                =~= r.updates@.map_values(|u: UpdateRow| update_line(u)).take(i as int).push(
                update_line(r.updates@[i as int]),
            ));
            i += 1;
        }
        assert(r.updates@.map_values(|u: UpdateRow| update_line(u)).take(r.updates.len() as int)
            =~= r.updates@.map_values(|u: UpdateRow| update_line(u)));
        proof {
            body = r.updates@.map_values(|u: UpdateRow| update_line(u));
        }
    }
    let ghost mid = lines_view(out@);
    push_line(&mut out, empty_line());
    push_line(&mut out, update_summary_of(r));
    assert(lines_view(out@) =~= mid + seq![Seq::empty(), update_summary(*r)]);
    assert(lines_view(out@) =~= update_lines_spec(*r));
    out
}

} // verus!
