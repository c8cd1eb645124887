//! Versions as the package registry writes them, their order, and requirements on them.
use std::cmp::Ordering;
use vstd::prelude::*;

use crate::text::{
    all_digits, is_ws, lemma_decimal_digits, lemma_decimal_parses, lemma_split_cons,
    lemma_split_no_sep, trim_end, trim_start, chars_of, decimal, extend, lemma_split_nonempty, parse_u64, parse_u64_spec, same, split,
    split_chars, split_once, split_once_chars, string_of, trim, trim_str, u64_decimal,
};

verus! {

/// `major.minor.patch` with an optional prerelease tag after a `-`.
#[derive(Debug)]
pub struct Version {
    pub major: u64,
    pub minor: u64,
    pub patch: u64,
    pub prerelease: Option<String>,
}

/// A version as plain values.
pub struct VersionView {
    pub major: u64,
    pub minor: u64,
    pub patch: u64,
    pub pre: Option<Seq<char>>,
}

pub open spec fn opt_text(s: Option<String>) -> Option<Seq<char>> {
    match s {
        Some(t) => Some(t@),
        None => None,
    }
}

impl View for Version {
    type V = VersionView;

    open spec fn view(&self) -> VersionView {
        VersionView {
            major: self.major,
            minor: self.minor,
            patch: self.patch,
            pre: opt_text(self.prerelease),
        }
    }
}

/// A version read from text: surrounding white space is ignored, a `-` starts the
/// prerelease tag, and one to three dot-separated numbers give major, minor and patch,
/// missing ones counting as 0.
pub open spec fn parse_version_spec(raw: Seq<char>) -> Option<VersionView> {
    let r = trim(raw);
    let (core, pre) = match split_once(r, '-') {
        Some((c, p)) => (c, Some(p)),
        None => (r, None),
    };
    let parts = split(core, '.');
    let major = parse_u64_spec(parts[0]);
    let minor = if parts.len() > 1 {
        parse_u64_spec(parts[1])
    } else {
        Some(0u64)
    };
    let patch = if parts.len() > 2 {
        parse_u64_spec(parts[2])
    } else {
        Some(0u64)
    };
    if parts.len() > 3 || major is None || minor is None || patch is None {
        None
    } else {
        Some(VersionView { major: major->0, minor: minor->0, patch: patch->0, pre })
    }
}

/// `major.minor.patch`, then `-` and the prerelease tag when there is one.
pub open spec fn version_text(v: VersionView) -> Seq<char> {
    let core = decimal(v.major as nat) + seq!['.'] + decimal(v.minor as nat) + seq!['.']
        + decimal(v.patch as nat);
    match v.pre {
        Some(p) => core + seq!['-'] + p,
        None => core,
    }
}

/// Which of two values comes first.
#[derive(Debug, Clone, Copy, PartialEq, Eq, Structural)]
pub enum Precedence {
    Less,
    Equal,
    Greater,
}

impl Precedence {
    /// The same relation seen from the other side.
    pub open spec fn reverse(self) -> Precedence {
        match self {
            Precedence::Less => Precedence::Greater,
            Precedence::Equal => Precedence::Equal,
            Precedence::Greater => Precedence::Less,
        }
    }
}

pub open spec fn u64_order(a: u64, b: u64) -> Precedence {
    if a < b {
        Precedence::Less
    } else if a > b {
        Precedence::Greater
    } else {
        Precedence::Equal
    }
}

/// Lexicographic order of character sequences, the order of `str`.
pub open spec fn text_order(x: Seq<char>, y: Seq<char>) -> Precedence
    decreases x.len(),
{
    if x.len() == 0 {
        if y.len() == 0 {
            Precedence::Equal
        } else {
            Precedence::Less
        }
    } else if y.len() == 0 {
        Precedence::Greater
    } else if x[0] < y[0] {
        Precedence::Less
    } else if x[0] > y[0] {
        Precedence::Greater
    } else {
        text_order(x.drop_first(), y.drop_first())
    }
}

/// Two prerelease segments: by number when both read as a `u64`, else as text.
pub open spec fn segment_order(x: Seq<char>, y: Seq<char>) -> Precedence {
    match (parse_u64_spec(x), parse_u64_spec(y)) {
        (Some(a), Some(b)) => u64_order(a, b),
        _ => text_order(x, y),
    }
}

/// Segment lists, first difference deciding and a proper prefix coming first.
pub open spec fn segments_order(a: Seq<Seq<char>>, b: Seq<Seq<char>>) -> Precedence
    decreases a.len(),
{
    if a.len() == 0 {
        if b.len() == 0 {
            Precedence::Equal
        } else {
            Precedence::Less
        }
    } else if b.len() == 0 {
        Precedence::Greater
    } else if segment_order(a[0], b[0]) != Precedence::Equal {
        segment_order(a[0], b[0])
    } else {
        segments_order(a.drop_first(), b.drop_first())
    }
}

/// The order of prerelease tags, segment by segment at the dots.
pub open spec fn prerelease_order(a: Seq<char>, b: Seq<char>) -> Precedence {
    segments_order(split(a, '.'), split(b, '.'))
}

/// Version precedence: major, minor, patch, then a release above any of its prereleases.
pub open spec fn version_order(v: VersionView, w: VersionView) -> Precedence {
    if u64_order(v.major, w.major) != Precedence::Equal {
        u64_order(v.major, w.major)
    } else if u64_order(v.minor, w.minor) != Precedence::Equal {
        u64_order(v.minor, w.minor)
    } else if u64_order(v.patch, w.patch) != Precedence::Equal {
        u64_order(v.patch, w.patch)
    } else {
        match (v.pre, w.pre) {
            (None, None) => Precedence::Equal,
            (None, Some(_)) => Precedence::Greater,
            (Some(_), None) => Precedence::Less,
            (Some(a), Some(b)) => prerelease_order(a, b),
        }
    }
}

fn u64_compare(a: u64, b: u64) -> (res: Precedence)
    ensures
        res == u64_order(a, b),
{
    if a < b {
        Precedence::Less
    } else if a > b {
        Precedence::Greater
    } else {
        Precedence::Equal
    }
}

pub fn text_compare(x: &Vec<char>, y: &Vec<char>) -> (res: Precedence)
    ensures
        res == text_order(x@, y@),
{
    let mut i: usize = 0;
    assert(x@.skip(0) =~= x@);
    assert(y@.skip(0) =~= y@);
    while i < x.len() && i < y.len()
        invariant
            i <= x.len(),
            i <= y.len(),
            text_order(x@, y@) == text_order(x@.skip(i as int), y@.skip(i as int)),
        decreases x.len() - i,
    {
        assert(x@.skip(i as int)[0] == x@[i as int]);
        assert(y@.skip(i as int)[0] == y@[i as int]);
        if x[i] < y[i] {
            return Precedence::Less;
        }
        if x[i] > y[i] {
            return Precedence::Greater;
        }
        assert(x@.skip(i as int).drop_first() =~= x@.skip(i + 1));
        assert(y@.skip(i as int).drop_first() =~= y@.skip(i + 1));
        i += 1;
    }
    if i < x.len() {
        Precedence::Greater
    } else if i < y.len() {
        Precedence::Less
    } else {
        Precedence::Equal
    }
}

fn segment_compare(x: &Vec<char>, y: &Vec<char>) -> (res: Precedence)
    ensures
        res == segment_order(x@, y@),
{
    match (parse_u64(x), parse_u64(y)) {
        (Some(a), Some(b)) => u64_compare(a, b),
        _ => text_compare(x, y),
    }
}

/// The order of two prerelease tags: dot-separated segments compared in turn, numbers
/// as numbers.
pub fn compare_prerelease(a: &str, b: &str) -> (res: Precedence)
    ensures
        res == prerelease_order(a@, b@),
{
    let av = chars_of(a);
    let bv = chars_of(b);
    let sa = split_chars(&av, '.');
    let sb = split_chars(&bv, '.');
    let ghost pa = sa@.map_values(|p: Vec<char>| p@);
    let ghost pb = sb@.map_values(|p: Vec<char>| p@);
    let mut i: usize = 0;
    assert(pa.skip(0) =~= pa);
    assert(pb.skip(0) =~= pb);
    while i < sa.len() && i < sb.len()
        invariant
            pa == sa@.map_values(|p: Vec<char>| p@),
            pb == sb@.map_values(|p: Vec<char>| p@),
            pa == split(a@, '.'),
            pb == split(b@, '.'),
            i <= sa.len(),
            i <= sb.len(),
            prerelease_order(a@, b@) == segments_order(pa.skip(i as int), pb.skip(i as int)),
        decreases sa.len() - i,
    {
        assert(pa.skip(i as int)[0] == pa[i as int]);
        assert(pb.skip(i as int)[0] == pb[i as int]);
        let o = segment_compare(&sa[i], &sb[i]);
        match o {
            Precedence::Equal => {},
            _ => {
                return o;
            },
        }
        assert(pa.skip(i as int).drop_first() =~= pa.skip(i + 1));
        assert(pb.skip(i as int).drop_first() =~= pb.skip(i + 1));
        i += 1;
    }
    if i < sa.len() {
        Precedence::Greater
    } else if i < sb.len() {
        Precedence::Less
    } else {
        Precedence::Equal
    }
}

impl Version {
    /// Whether this is a release rather than a prerelease.
    pub fn is_stable(&self) -> (res: bool)
        ensures
            res == (self@.pre is None),
    {
        self.prerelease.is_none()
    }

    /// Version precedence.
    pub fn compare(&self, other: &Version) -> (res: Precedence)
        ensures
            res == version_order(self@, other@),
    {
        let m = u64_compare(self.major, other.major);
        match m {
            Precedence::Equal => {},
            _ => {
                return m;
            },
        }
        let n = u64_compare(self.minor, other.minor);
        match n {
            Precedence::Equal => {},
            _ => {
                return n;
            },
        }
        let p = u64_compare(self.patch, other.patch);
        match p {
            Precedence::Equal => {},
            _ => {
                return p;
            },
        }
        match (&self.prerelease, &other.prerelease) {
            (None, None) => Precedence::Equal,
            (None, Some(_)) => Precedence::Greater,
            (Some(_), None) => Precedence::Less,
            (Some(a), Some(b)) => compare_prerelease(a.as_str(), b.as_str()),
        }
    }

    /// Whether the two versions are the same, field for field.
    pub fn same_as(&self, other: &Version) -> (res: bool)
        ensures
            res == (self@ == other@),
    {
        self.major == other.major && self.minor == other.minor && self.patch == other.patch
            && match (&self.prerelease, &other.prerelease) {
            (Some(a), Some(b)) => {
                let av = chars_of(a.as_str());
                let bv = chars_of(b.as_str());
                same(&av, &bv)
            },
            (None, None) => true,
            _ => false,
        }
    }

    /// A copy of this version.
    pub fn duplicate(&self) -> (res: Version)
        ensures
            res@ == self@,
    {
        Version {
            major: self.major,
            minor: self.minor,
            patch: self.patch,
            prerelease: match &self.prerelease {
                Some(p) => Some(p.clone()),
                None => None,
            },
        }
    }

    /// The version written as `major.minor.patch[-prerelease]`.
    pub fn to_string(&self) -> (res: String)
        ensures
            res@ == version_text(self@),
    {
        let mut out = u64_decimal(self.major);
        out.push('.');
        let minor = u64_decimal(self.minor);
        extend(&mut out, &minor);
        out.push('.');
        let patch = u64_decimal(self.patch);
        extend(&mut out, &patch);
        match &self.prerelease {
            Some(p) => {
                out.push('-');
                let pv = chars_of(p.as_str());
                extend(&mut out, &pv);
            },
            None => {},
        }
        string_of(&out)
    }
}

impl PartialEq for Version {
    fn eq(&self, other: &Version) -> (res: bool) {
        self.same_as(other)
    }
}

impl vstd::std_specs::cmp::PartialEqSpecImpl for Version {
    open spec fn obeys_eq_spec() -> bool {
        true
    }

    open spec fn eq_spec(&self, other: &Version) -> bool {
        self@ == other@
    }
}

pub open spec fn ordering_of(p: Precedence) -> Ordering {
    match p {
        Precedence::Less => Ordering::Less,
        Precedence::Equal => Ordering::Equal,
        Precedence::Greater => Ordering::Greater,
    }
}

/// The standard library's `Ordering` for a precedence.
pub fn to_ordering(p: Precedence) -> (res: Ordering)
    ensures
        res == ordering_of(p),
{
    match p {
        Precedence::Less => Ordering::Less,
        Precedence::Equal => Ordering::Equal,
        Precedence::Greater => Ordering::Greater,
    }
}

impl PartialOrd for Version {
    fn partial_cmp(&self, other: &Version) -> (res: Option<Ordering>) {
        Some(to_ordering(self.compare(other)))
    }
}

impl vstd::std_specs::cmp::PartialOrdSpecImpl for Version {
    open spec fn obeys_partial_cmp_spec() -> bool {
        true
    }

    open spec fn partial_cmp_spec(&self, other: &Version) -> Option<Ordering> {
        Some(ordering_of(version_order(self@, other@)))
    }
}

/// Reads a version; `None` when the text is not one.
pub fn parse_version(raw: &str) -> (res: Option<Version>)
    ensures
        res matches Some(v) ==> parse_version_spec(raw@) == Some(v@),
        res is None ==> parse_version_spec(raw@) is None,
{
    let r = trim_str(raw);
    let (core, pre) = match split_once_chars(&r, '-') {
        Some((c, p)) => (c, Some(p)),
        None => (r.clone(), None),
    };
    let parts = split_chars(&core, '.');
    proof {
        lemma_split_nonempty(core@, '.');
        assert(parts@.map_values(|p: Vec<char>| p@)[0] == parts@[0]@);
    }
    let ghost pv = parts@.map_values(|p: Vec<char>| p@);
    if parts.len() > 3 {
        return None;
    }
    let major = match parse_u64(&parts[0]) {
        Some(x) => x,
        None => {
            return None;
        },
    };
    let minor = if parts.len() > 1 {
        assert(pv[1] == parts@[1]@);
        match parse_u64(&parts[1]) {
            Some(x) => x,
            None => {
                return None;
            },
        }
    } else {
        0
    };
    let patch = if parts.len() > 2 {
        assert(pv[2] == parts@[2]@);
        match parse_u64(&parts[2]) {
            Some(x) => x,
            None => {
                return None;
            },
        }
    } else {
        0
    };
    let prerelease = match pre {
        Some(p) => Some(string_of(&p)),
        None => None,
    };
    Some(Version { major, minor, patch, prerelease })
}


/// Every text is level with itself.
pub proof fn lemma_text_order_refl(x: Seq<char>)
    ensures
        text_order(x, x) == Precedence::Equal,
    decreases x.len(),
{
    if x.len() > 0 {
        lemma_text_order_refl(x.drop_first());
    }
}

/// Comparing two texts the other way round gives the reverse answer.
pub proof fn lemma_text_order_dual(x: Seq<char>, y: Seq<char>)
    ensures
        text_order(x, y) == text_order(y, x).reverse(),
    decreases x.len(),
{
    if x.len() > 0 && y.len() > 0 {
        lemma_text_order_dual(x.drop_first(), y.drop_first());
    }
}

proof fn lemma_segments_order_refl(a: Seq<Seq<char>>)
    ensures
        segments_order(a, a) == Precedence::Equal,
    decreases a.len(),
{
    if a.len() > 0 {
        lemma_text_order_refl(a[0]);
        lemma_segments_order_refl(a.drop_first());
    }
}

proof fn lemma_segments_order_dual(a: Seq<Seq<char>>, b: Seq<Seq<char>>)
    ensures
        segments_order(a, b) == segments_order(b, a).reverse(),
    decreases a.len(),
{
    if a.len() > 0 && b.len() > 0 {
        lemma_text_order_dual(a[0], b[0]);
        lemma_segments_order_dual(a.drop_first(), b.drop_first());
    }
}

/// Every version is level with itself.
pub proof fn lemma_version_order_reflexive(v: VersionView)
    ensures
        version_order(v, v) == Precedence::Equal,
{
    if let Some(p) = v.pre {
        lemma_segments_order_refl(split(p, '.'));
    }
}

/// Comparing two versions the other way round gives the reverse answer.
pub proof fn lemma_version_order_antisymmetric(v: VersionView, w: VersionView)
    ensures
        version_order(v, w) == version_order(w, v).reverse(),
{
    if let (Some(a), Some(b)) = (v.pre, w.pre) {
        lemma_segments_order_dual(split(a, '.'), split(b, '.'));
    }
}


/// Whether a prerelease segment reads as a number.
pub open spec fn numeric(x: Seq<char>) -> bool {
    parse_u64_spec(x) is Some
}

/// Segment lists that hold numbers at the same positions.
pub open spec fn kinds_agree(a: Seq<Seq<char>>, b: Seq<Seq<char>>) -> bool {
    forall|i: int| 0 <= i < a.len() && 0 <= i < b.len() ==> numeric(a[i]) == numeric(b[i])
}

/// Two versions whose prerelease tags, when both have one, hold numeric segments at the
/// same positions.
pub open spec fn comparable(v: VersionView, w: VersionView) -> bool {
    match (v.pre, w.pre) {
        (Some(a), Some(b)) => kinds_agree(split(a, '.'), split(b, '.')),
        _ => true,
    }
}

/// Text order is transitive, strictly so when one of the two steps is strict.
pub proof fn lemma_text_order_trans(x: Seq<char>, y: Seq<char>, z: Seq<char>)
    ensures
        text_order(x, y) != Precedence::Greater && text_order(y, z) != Precedence::Greater
            ==> text_order(x, z) != Precedence::Greater,
        text_order(x, y) == Precedence::Less && text_order(y, z) != Precedence::Greater
            ==> text_order(x, z) == Precedence::Less,
        text_order(x, y) != Precedence::Greater && text_order(y, z) == Precedence::Less
            ==> text_order(x, z) == Precedence::Less,
    decreases x.len(),
{
    if x.len() > 0 && y.len() > 0 && z.len() > 0 {
        lemma_text_order_trans(x.drop_first(), y.drop_first(), z.drop_first());
    }
}

proof fn lemma_segment_order_trans(x: Seq<char>, y: Seq<char>, z: Seq<char>)
    requires
        numeric(x) == numeric(y),
        numeric(y) == numeric(z),
    ensures
        segment_order(x, y) != Precedence::Greater && segment_order(y, z) != Precedence::Greater
            ==> segment_order(x, z) != Precedence::Greater,
        segment_order(x, y) == Precedence::Less && segment_order(y, z) != Precedence::Greater
            ==> segment_order(x, z) == Precedence::Less,
        segment_order(x, y) != Precedence::Greater && segment_order(y, z) == Precedence::Less
            ==> segment_order(x, z) == Precedence::Less,
{
    lemma_text_order_trans(x, y, z);
}

proof fn lemma_segments_order_trans(a: Seq<Seq<char>>, b: Seq<Seq<char>>, c: Seq<Seq<char>>)
    requires
        kinds_agree(a, b),
        kinds_agree(b, c),
    ensures
        segments_order(a, b) != Precedence::Greater && segments_order(b, c) != Precedence::Greater
            ==> segments_order(a, c) != Precedence::Greater,
        segments_order(a, b) == Precedence::Less && segments_order(b, c) != Precedence::Greater
            ==> segments_order(a, c) == Precedence::Less,
        segments_order(a, b) != Precedence::Greater && segments_order(b, c) == Precedence::Less
            ==> segments_order(a, c) == Precedence::Less,
    decreases a.len(),
{
    if a.len() > 0 && b.len() > 0 && c.len() > 0 {
        assert(numeric(a[0]) == numeric(b[0]));
        assert(numeric(b[0]) == numeric(c[0]));
        lemma_segment_order_trans(a[0], b[0], c[0]);
        let (a1, b1, c1) = (a.drop_first(), b.drop_first(), c.drop_first());
        assert forall|i: int| 0 <= i < a1.len() && 0 <= i < b1.len() implies numeric(a1[i])
            == numeric(b1[i]) by {
            assert(a1[i] == a[i + 1] && b1[i] == b[i + 1]);
        }
        assert forall|i: int| 0 <= i < b1.len() && 0 <= i < c1.len() implies numeric(b1[i])
            == numeric(c1[i]) by {
            assert(b1[i] == b[i + 1] && c1[i] == c[i + 1]);
        }
        lemma_segments_order_trans(a1, b1, c1);
    }
}

/// Precedence is transitive among versions whose prerelease tags agree on which
/// segments are numbers.
pub proof fn lemma_version_order_transitive(u: VersionView, v: VersionView, w: VersionView)
    requires
        comparable(u, v),
        comparable(v, w),
    ensures
        version_order(u, v) != Precedence::Greater && version_order(v, w) != Precedence::Greater
            ==> version_order(u, w) != Precedence::Greater,
        version_order(u, v) == Precedence::Less && version_order(v, w) != Precedence::Greater
            ==> version_order(u, w) == Precedence::Less,
        version_order(u, v) != Precedence::Greater && version_order(v, w) == Precedence::Less
            ==> version_order(u, w) == Precedence::Less,
{
    if let (Some(a), Some(b), Some(c)) = (u.pre, v.pre, w.pre) {
        lemma_segments_order_trans(split(a, '.'), split(b, '.'), split(c, '.'));
    }
}


proof fn lemma_digits_lack(s: Seq<char>, c: char)
    requires
        all_digits(s),
        !('0' <= c && c <= '9'),
    ensures
        !s.contains(c),
{
    if s.contains(c) {
        let k = choose|k: int| 0 <= k < s.len() && s[k] == c;
        assert(crate::text::is_digit(s[k]));
    }
}

/// Reading back the written form of a version gives that version, unless its prerelease
/// tag ends in white space, which reading trims away.
pub proof fn lemma_version_text_roundtrip(v: VersionView)
    requires
        v.pre matches Some(p) ==> (p.len() == 0 || !is_ws(p.last())),
    ensures
        parse_version_spec(version_text(v)) == Some(v),
{
    let dm = decimal(v.major as nat);
    let dn = decimal(v.minor as nat);
    let dp = decimal(v.patch as nat);
    lemma_decimal_digits(v.major as nat);
    lemma_decimal_digits(v.minor as nat);
    lemma_decimal_digits(v.patch as nat);
    lemma_decimal_parses(v.major);
    lemma_decimal_parses(v.minor);
    lemma_decimal_parses(v.patch);
    let core = dm + seq!['.'] + dn + seq!['.'] + dp;
    let t = version_text(v);
    assert(crate::text::is_digit(dm[0]));
    assert(crate::text::is_digit(dp[dp.len() - 1]));
    // the core holds digits and dots only
    assert forall|i: int| 0 <= i < core.len() implies #[trigger] core[i] != '-' && !is_ws(
        core[i],
    ) by {
        if i < dm.len() {
            assert(core[i] == dm[i]);
            assert(crate::text::is_digit(dm[i]));
        } else if i == dm.len() {
        } else if i < dm.len() + 1 + dn.len() {
            assert(core[i] == dn[i - dm.len() - 1]);
            assert(crate::text::is_digit(dn[i - dm.len() - 1]));
        } else if i == dm.len() + 1 + dn.len() {
        } else {
            assert(core[i] == dp[i - dm.len() - 2 - dn.len()]);
            assert(crate::text::is_digit(dp[i - dm.len() - 2 - dn.len()]));
        }
    }
    assert(!core.contains('-'));
    // trimming leaves it alone
    assert(t[0] == dm[0]);
    assert(trim_start(t) == t);
    match v.pre {
        Some(p) => {
            if p.len() == 0 {
                assert(t.last() == '-');
            } else {
                assert(t.last() == p.last());
            }
        },
        None => {
            assert(t.last() == dp.last());
        },
    }
    assert(trim_end(t) == t);
    // the prerelease tag starts after the first dash
    match v.pre {
        Some(p) => {
            assert(t == core + seq!['-'] + p);
            assert(t[core.len() as int] == '-');
            t.index_of_first_ensures('-');
            let i = t.index_of_first('-')->0;
            assert(i == core.len()) by {
                if i < core.len() {
                    assert(t[i] == core[i]);
                }
            }
            assert(t.take(i) =~= core);
            assert(t.skip(i + 1) =~= p);
        },
        None => {
            assert(t == core);
            t.index_of_first_ensures('-');
        },
    }
    // and the core splits into its three numbers
    lemma_digits_lack(dm, '.');
    lemma_digits_lack(dn, '.');
    lemma_digits_lack(dp, '.');
    lemma_split_no_sep(dp, '.');
    lemma_split_cons(dn, '.', dp);
    assert(core =~= dm + seq!['.'] + (dn + seq!['.'] + dp));
    lemma_split_cons(dm, '.', dn + seq!['.'] + dp);
    assert(split(core, '.') =~= seq![dm, dn, dp]);
}

} // verus!
