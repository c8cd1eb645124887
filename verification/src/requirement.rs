//! Version requirements and the choice of the newest published version.
use vstd::prelude::*;

use crate::text::{chars_of, is_ws, lemma_trim_absorbs, lemma_trim_end_prepend, slice, trim, trim_chars, trim_end, trim_start};
use crate::version::{
    comparable, lemma_version_order_antisymmetric, lemma_version_order_reflexive,
    lemma_version_order_transitive, parse_version, parse_version_spec, version_order, Precedence,
    Version, VersionView,
};

verus! {

/// A requirement on a dependency's version. A bare version means `^`, as in Cargo.
#[derive(Debug)]
pub enum Req {
    Exact(Version),
    Caret(Version),
    Tilde(Version),
}

/// A requirement as plain values.
pub enum ReqView {
    Exact(VersionView),
    Caret(VersionView),
    Tilde(VersionView),
}

impl View for Req {
    type V = ReqView;

    open spec fn view(&self) -> ReqView {
        match self {
            Req::Exact(b) => ReqView::Exact(b@),
            Req::Caret(b) => ReqView::Caret(b@),
            Req::Tilde(b) => ReqView::Tilde(b@),
        }
    }
}

/// `=` takes the base version only; `~` takes the base or newer with the same major and
/// minor; `^` takes the base or newer that keeps every number up to the first one that is
/// not zero, as Cargo reads it: `^1.2.3` keeps the major, `^0.2.3` keeps `0.2`, and
/// `^0.0.3` keeps `0.0.3`.
pub open spec fn satisfies_spec(req: ReqView, v: VersionView) -> bool {
    match req {
        ReqView::Exact(b) => v == b,
        ReqView::Caret(b) => version_order(v, b) != Precedence::Less && if b.major > 0 {
            v.major == b.major
        } else if b.minor > 0 {
            v.major == 0 && v.minor == b.minor
        } else {
            v.major == 0 && v.minor == 0 && v.patch == b.patch
        },
        ReqView::Tilde(b) => version_order(v, b) != Precedence::Less && v.major == b.major
            && v.minor == b.minor,
    }
}

/// What each kind of requirement admits: `=` exactly its base; `~` and `^` nothing below
/// their base in precedence; `~` only the base's major and minor; `^` only the base's
/// major, and for a `0.y` base its minor too, and for a `0.0.z` base its patch too; and
/// everything not below the base within those bounds.
pub proof fn lemma_requirement_bounds(b: VersionView, v: VersionView)
    ensures
        satisfies_spec(ReqView::Exact(b), v) <==> v == b,
        satisfies_spec(ReqView::Caret(b), v) ==> version_order(v, b) != Precedence::Less,
        satisfies_spec(ReqView::Tilde(b), v) ==> version_order(v, b) != Precedence::Less,
        satisfies_spec(ReqView::Tilde(b), v) ==> v.major == b.major && v.minor == b.minor,
        satisfies_spec(ReqView::Caret(b), v) ==> v.major == b.major,
        satisfies_spec(ReqView::Caret(b), v) && b.major == 0 ==> v.minor == b.minor,
        satisfies_spec(ReqView::Caret(b), v) && b.major == 0 && b.minor == 0 ==> v.patch
            == b.patch,
        version_order(v, b) != Precedence::Less && v.major == b.major && v.minor == b.minor
            ==> satisfies_spec(ReqView::Tilde(b), v),
        version_order(v, b) != Precedence::Less && v.major == b.major && (b.major > 0 || (
        v.minor == b.minor && (b.minor > 0 || v.patch == b.patch))) ==> satisfies_spec(
            ReqView::Caret(b),
            v,
        ),
        (b.major > 0 || b.minor > 0) && satisfies_spec(ReqView::Tilde(b), v) ==> satisfies_spec(
            ReqView::Caret(b),
            v,
        ),
{
}

/// A requirement read from text: `^`, `~` or `=` before a version, or a bare version.
pub open spec fn parse_req_spec(raw: Seq<char>) -> Option<ReqView> {
    let r = trim(raw);
    if r.len() > 0 && r[0] == '^' {
        match parse_version_spec(r.drop_first()) {
            Some(v) => Some(ReqView::Caret(v)),
            None => None,
        }
    } else if r.len() > 0 && r[0] == '~' {
        match parse_version_spec(r.drop_first()) {
            Some(v) => Some(ReqView::Tilde(v)),
            None => None,
        }
    } else if r.len() > 0 && r[0] == '=' {
        match parse_version_spec(r.drop_first()) {
            Some(v) => Some(ReqView::Exact(v)),
            None => None,
        }
    } else {
        match parse_version_spec(r) {
            Some(v) => Some(ReqView::Caret(v)),
            None => None,
        }
    }
}

impl Req {
    /// Whether `v` meets this requirement.
    pub fn satisfies(&self, v: &Version) -> (res: bool)
        ensures
            res == satisfies_spec(self@, v@),
    {
        match self {
            Req::Exact(base) => v.same_as(base),
            Req::Caret(base) => {
                match v.compare(base) {
                    Precedence::Less => {
                        return false;
                    },
                    _ => {},
                }
                if base.major > 0 {
                    v.major == base.major
                } else if base.minor > 0 {
                    v.major == 0 && v.minor == base.minor
                } else {
                    v.major == 0 && v.minor == 0 && v.patch == base.patch
                }
            },
            Req::Tilde(base) => {
                let o = v.compare(base);
                let at_least = match o {
                    Precedence::Less => false,
                    _ => true,
                };
                at_least && v.major == base.major && v.minor == base.minor
            },
        }
    }
}

/// Reads a requirement; `None` when the text holds no version.
pub fn parse_req(raw: &str) -> (res: Option<Req>)
    ensures
        res matches Some(r) ==> parse_req_spec(raw@) == Some(r@),
        res is None ==> parse_req_spec(raw@) is None,
{
    let r = trim_chars(&chars_of(raw));
    let first: char = if r.len() > 0 {
        r[0]
    } else {
        ' '
    };
    if r.len() > 0 && (first == '^' || first == '~' || first == '=') {
        let rest = slice(&r, 1, r.len());
        assert(rest@ =~= r@.drop_first());
        let text = crate::text::string_of(&rest);
        match parse_version(text.as_str()) {
            Some(v) => {
                if first == '^' {
                    Some(Req::Caret(v))
                } else if first == '~' {
                    Some(Req::Tilde(v))
                } else {
                    Some(Req::Exact(v))
                }
            },
            None => None,
        }
    } else {
        let text = crate::text::string_of(&r);
        match parse_version(text.as_str()) {
            Some(v) => Some(Req::Caret(v)),
            None => None,
        }
    }
}

/// The last greatest element, as `Iterator::max` picks it: each next element replaces
/// the current pick unless the pick is greater.
pub open spec fn max_of(s: Seq<VersionView>) -> Option<VersionView>
    decreases s.len(),
{
    if s.len() == 0 {
        None
    } else if s.len() == 1 {
        Some(s[0])
    } else {
        let m = max_of(s.drop_last()).unwrap();
        if version_order(m, s.last()) == Precedence::Greater {
            Some(m)
        } else {
            Some(s.last())
        }
    }
}

pub open spec fn stable_only(s: Seq<VersionView>) -> Seq<VersionView> {
    s.filter(|v: VersionView| v.pre is None)
}

/// The newest release; prereleases are never a target.
pub open spec fn latest_stable_spec(s: Seq<VersionView>) -> Option<VersionView> {
    max_of(stable_only(s))
}

pub open spec fn views(s: Seq<Version>) -> Seq<VersionView> {
    s.map_values(|v: Version| v@)
}

/// The newest release among `versions`; `None` when none of them is a release.
pub fn latest_stable(versions: &[Version]) -> (res: Option<Version>)
    ensures
        res matches Some(v) ==> latest_stable_spec(views(versions@)) == Some(v@),
        res is None ==> latest_stable_spec(views(versions@)) is None,
{
    let ghost all = views(versions@);
    let mut best: Option<usize> = None;
    let mut i: usize = 0;
    while i < versions.len()
        invariant
            i <= versions.len(),
            all == views(versions@),
            best matches Some(k) ==> k < i && versions@[k as int]@.pre is None
                && max_of(stable_only(all.take(i as int))) == Some(all[k as int]),
            best is None ==> stable_only(all.take(i as int)).len() == 0,
        decreases versions.len() - i,
    {
        let ghost pre = all.take(i as int);
        assert(all.take(i + 1) =~= pre.push(all[i as int]));
        assert(all[i as int] == versions@[i as int]@);
        proof {
            pre.lemma_filter_push(all[i as int], |v: VersionView| v.pre is None);
        }
        if versions[i].is_stable() {
            let ghost sp = stable_only(pre);
            assert(stable_only(all.take(i + 1)) =~= sp.push(all[i as int]));
            assert(stable_only(all.take(i + 1)).drop_last() =~= sp);
            best = match best {
                None => Some(i),
                Some(k) => match versions[k].compare(&versions[i]) {
                    Precedence::Greater => Some(k),
                    _ => Some(i),
                },
            };
        } else {
            assert(stable_only(all.take(i + 1)) =~= stable_only(pre));
        }
        i += 1;
    }
    assert(all.take(versions.len() as int) =~= all);
    match best {
        Some(k) => Some(versions[k].duplicate()),
        None => None,
    }
}

/// Every requirement is met by its own base version.
pub proof fn lemma_base_satisfies(b: VersionView)
    ensures
        satisfies_spec(ReqView::Exact(b), b),
        satisfies_spec(ReqView::Caret(b), b),
        satisfies_spec(ReqView::Tilde(b), b),
{
    lemma_version_order_reflexive(b);
}

proof fn lemma_parse_version_trimmed(x: Seq<char>, y: Seq<char>)
    requires
        trim(x) == trim(y),
    ensures
        parse_version_spec(x) == parse_version_spec(y),
{
}

/// A bare version is read as a caret requirement: writing `^` in front changes nothing.
pub proof fn lemma_bare_requirement_is_caret(raw: Seq<char>)
    requires
        trim(raw).len() == 0 || (trim(raw)[0] != '^' && trim(raw)[0] != '~' && trim(raw)[0]
            != '='),
    ensures
        parse_req_spec(raw) == parse_req_spec(seq!['^'] + raw),
{
    let s2 = seq!['^'] + raw;
    assert(s2[0] == '^');
    assert(!is_ws('^'));
    assert(trim_start(s2) == s2);
    lemma_trim_end_prepend('^', raw);
    let r2 = trim(s2);
    assert(r2 == seq!['^'] + trim_end(raw));
    assert(r2.drop_first() =~= trim_end(raw));
    lemma_trim_absorbs(raw);
    lemma_parse_version_trimmed(trim_end(raw), raw);
    lemma_parse_version_trimmed(trim(raw), raw);
}

proof fn lemma_max_of_member(s: Seq<VersionView>)
    ensures
        s.len() > 0 ==> max_of(s) is Some && s.contains(max_of(s)->0),
    decreases s.len(),
{
    if s.len() > 1 {
        lemma_max_of_member(s.drop_last());
        let m = max_of(s.drop_last())->0;
        let k = choose|k: int| 0 <= k < s.drop_last().len() && s.drop_last()[k] == m;
        assert(s[k] == m);
        assert(s[s.len() - 1] == s.last());
    } else if s.len() == 1 {
        assert(s[0] == s[0]);
    }
}

proof fn lemma_max_of_greatest(s: Seq<VersionView>)
    requires
        forall|i: int, j: int|
            0 <= i < s.len() && 0 <= j < s.len() ==> comparable(#[trigger] s[i], #[trigger] s[j]),
    ensures
        s.len() > 0 ==> forall|i: int|
            0 <= i < s.len() ==> version_order(#[trigger] s[i], max_of(s)->0)
                != Precedence::Greater,
    decreases s.len(),
{
    if s.len() > 0 {
        lemma_max_of_member(s);
        let m = max_of(s)->0;
        if s.len() == 1 {
            lemma_version_order_reflexive(s[0]);
        } else {
            let init = s.drop_last();
            assert forall|i: int, j: int|
                0 <= i < init.len() && 0 <= j < init.len() implies comparable(
                #[trigger] init[i],
                #[trigger] init[j],
            ) by {
                assert(init[i] == s[i] && init[j] == s[j]);
            }
            lemma_max_of_greatest(init);
            lemma_max_of_member(init);
            let mi = max_of(init)->0;
            let k = choose|k: int| 0 <= k < init.len() && init[k] == mi;
            assert(s[k] == mi);
            assert(s[s.len() - 1] == s.last());
            assert forall|i: int| 0 <= i < s.len() implies version_order(#[trigger] s[i], m)
                != Precedence::Greater by {
                lemma_version_order_antisymmetric(mi, s.last());
                if i == s.len() - 1 {
                    lemma_version_order_reflexive(s.last());
                } else {
                    assert(init[i] == s[i]);
                    assert(version_order(init[i], mi) != Precedence::Greater);
                    if version_order(mi, s.last()) != Precedence::Greater {
                        assert(comparable(s[i], s[k]));
                        assert(comparable(s[k], s[s.len() - 1]));
                        lemma_version_order_transitive(s[i], mi, s.last());
                    } else {
                        lemma_version_order_reflexive(mi);
                    }
                }
            }
        }
    }
}

/// There is a newest release exactly when one of the versions is a release, and it is
/// one of them.
pub proof fn lemma_latest_stable_prefers_releases(s: Seq<VersionView>)
    ensures
        latest_stable_spec(s) is Some <==> exists|i: int| 0 <= i < s.len() && (#[trigger] s[i]).pre is None,
        latest_stable_spec(s) matches Some(v) ==> v.pre is None && s.contains(v),
{
    let p = |v: VersionView| v.pre is None;
    let st = stable_only(s);
    lemma_max_of_member(st);
    if exists|i: int| 0 <= i < s.len() && (#[trigger] s[i]).pre is None {
        let i = choose|i: int| 0 <= i < s.len() && (#[trigger] s[i]).pre is None;
        s.lemma_filter_contains(p, i);
    }
    if st.len() > 0 {
        let m = max_of(st)->0;
        let k = choose|k: int| 0 <= k < st.len() && st[k] == m;
        s.lemma_filter_pred(p, k);
        s.lemma_filter_contains_rev(p, m);
        let j = choose|j: int| 0 <= j < s.len() && s[j] == m;
        assert(s[j].pre is None);
    } else {
        assert forall|i: int| 0 <= i < s.len() implies (#[trigger] s[i]).pre is Some by {
            if s[i].pre is None {
                s.lemma_filter_contains(p, i);
            }
        }
    }
}

/// No release is newer than the newest release.
pub proof fn lemma_latest_stable_is_newest(s: Seq<VersionView>)
    ensures
        forall|i: int|
            0 <= i < s.len() && (#[trigger] s[i]).pre is None
                ==> version_order(s[i], latest_stable_spec(s)->0) != Precedence::Greater,
{
    let p = |v: VersionView| v.pre is None;
    let st = stable_only(s);
    if st.len() > 0 {
        assert forall|i: int, j: int|
            0 <= i < st.len() && 0 <= j < st.len() implies comparable(
            #[trigger] st[i],
            #[trigger] st[j],
        ) by {
            assert(st.contains(st[i]));
            s.lemma_filter_contains_rev(p, st[i]);
        }
        lemma_max_of_greatest(st);
        assert forall|i: int|
            0 <= i < s.len() && (#[trigger] s[i]).pre is None implies version_order(
            s[i],
            max_of(st)->0,
        ) != Precedence::Greater by {
            s.lemma_filter_contains(p, i);
            let k = choose|k: int| 0 <= k < st.len() && st[k] == s[i];
            assert(version_order(st[k], max_of(st)->0) != Precedence::Greater);
        }
    } else {
        assert forall|i: int| 0 <= i < s.len() implies (#[trigger] s[i]).pre is Some by {
            if s[i].pre is None {
                s.lemma_filter_contains(p, i);
            }
        }
    }
}

} // verus!
