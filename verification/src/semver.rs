//! Parsed shapes of npm-style dependency specs: version ranges, tags,
//! paths, git and remote URLs, and aliases.

use vstd::prelude::*;

verus! {

/// Largest version number accepted: the safe-integer ceiling that npm's
/// own version parser enforces.
pub open spec fn max_version_num() -> int {
    9007199254740991
}

/// One dot-separated prerelease component: numeric or textual.
#[derive(Debug, Clone, PartialEq, Eq)]
pub enum PrereleaseTag {
    String(String),
    Int(i64),
}

/// Spec-level mirror of `PrereleaseTag`.
pub enum TagModel {
    Text(Seq<char>),
    Int(i64),
}

impl View for PrereleaseTag {
    type V = TagModel;

    open spec fn view(&self) -> TagModel {
        match self {
            PrereleaseTag::String(s) => TagModel::Text(s@),
            PrereleaseTag::Int(i) => TagModel::Int(*i),
        }
    }
}

/// The views of the prerelease and build component lists.
pub open spec fn tags_model(v: Seq<PrereleaseTag>) -> Seq<TagModel> {
    Seq::new(v.len(), |i: int| v[i]@)
}

pub open spec fn strs_model(v: Seq<String>) -> Seq<Seq<char>> {
    Seq::new(v.len(), |i: int| v[i]@)
}

/// A parsed semantic version.
#[derive(Debug, Clone, PartialEq, Eq)]
pub struct Semver {
    pub major: i64,
    pub minor: i64,
    pub bug: i64,
    pub prerelease: Vec<PrereleaseTag>,
    pub build: Vec<String>,
}

/// Spec-level mirror of `Semver`.
pub struct SemverModel {
    pub major: i64,
    pub minor: i64,
    pub bug: i64,
    pub prerelease: Seq<TagModel>,
    pub build: Seq<Seq<char>>,
}

impl View for Semver {
    type V = SemverModel;

    open spec fn view(&self) -> SemverModel {
        SemverModel {
            major: self.major,
            minor: self.minor,
            bug: self.bug,
            prerelease: tags_model(self.prerelease@),
            build: strs_model(self.build@),
        }
    }
}

/// The version `major.minor.bug` with no prerelease and no build.
pub open spec fn svm(major: i64, minor: i64, bug: i64) -> SemverModel {
    SemverModel {
        major,
        minor,
        bug,
        prerelease: Seq::empty(),
        build: Seq::empty(),
    }
}

/// The version `major.minor.bug-0`: the least prerelease of that triple,
/// used as an exclusive upper bound.
pub open spec fn svm0(major: i64, minor: i64, bug: i64) -> SemverModel {
    SemverModel {
        major,
        minor,
        bug,
        prerelease: seq![TagModel::Int(0)],
        build: Seq::empty(),
    }
}

/// One comparator of a range.
#[derive(Debug, Clone, PartialEq, Eq)]
pub enum VersionComparator {
    Any,
    Eq(Semver),
    Gt(Semver),
    Gte(Semver),
    Lt(Semver),
    Lte(Semver),
}

/// Spec-level mirror of `VersionComparator`.
pub enum ComparatorModel {
    Any,
    Eq(SemverModel),
    Gt(SemverModel),
    Gte(SemverModel),
    Lt(SemverModel),
    Lte(SemverModel),
}

impl View for VersionComparator {
    type V = ComparatorModel;

    open spec fn view(&self) -> ComparatorModel {
        match self {
            VersionComparator::Any => ComparatorModel::Any,
            VersionComparator::Eq(v) => ComparatorModel::Eq(v@),
            VersionComparator::Gt(v) => ComparatorModel::Gt(v@),
            VersionComparator::Gte(v) => ComparatorModel::Gte(v@),
            VersionComparator::Lt(v) => ComparatorModel::Lt(v@),
            VersionComparator::Lte(v) => ComparatorModel::Lte(v@),
        }
    }
}

/// The view of one conjunction of comparators.
pub open spec fn cmps_model(v: Seq<VersionComparator>) -> Seq<ComparatorModel> {
    Seq::new(v.len(), |i: int| v[i]@)
}

/// A range in disjunctive normal form: an OR of ANDs of comparators.
#[derive(Debug, Clone, PartialEq, Eq)]
pub struct VersionConstraint(pub Vec<Vec<VersionComparator>>);

/// Spec-level mirror of `VersionConstraint`.
pub open spec fn constraint_model(c: VersionConstraint) -> Seq<Seq<ComparatorModel>> {
    Seq::new(c.0@.len(), |i: int| cmps_model(c.0@[i]@))
}

/// The sub-spec of an alias: a range or a tag.
#[derive(Debug, Clone, PartialEq, Eq)]
pub enum AliasSubspec {
    Range(VersionConstraint),
    Tag(String),
}

/// A fully classified dependency spec.
#[derive(Debug, Clone, PartialEq, Eq)]
pub enum ParsedSpec {
    Range(VersionConstraint),
    Tag(String),
    Git(String),
    File(String),
    Directory(String),
    Remote(String),
    Alias(String, Option<String>, AliasSubspec),
    Invalid(String),
}

/// Error of the spec parsers.
#[derive(Debug, Clone, PartialEq, Eq)]
pub enum ParseSpecError {
    Other(String),
}

// ------------------------------------------------------------------
// Partial versions and their desugaring into comparators
// ------------------------------------------------------------------

/// A version as written inside a range, where trailing parts may be
/// missing or wildcards (`x`, `X`, `*`), and a prerelease or build part
/// may follow.
#[derive(Debug, Clone)]
pub struct Partial {
    pub major: Option<i64>,
    pub minor: Option<i64>,
    pub bug: Option<i64>,
    pub prerelease: Vec<PrereleaseTag>,
    pub build: Vec<String>,
}

/// Spec-level mirror of `Partial`.
pub struct PartialModel {
    pub major: Option<i64>,
    pub minor: Option<i64>,
    pub bug: Option<i64>,
    pub prerelease: Seq<TagModel>,
    pub build: Seq<Seq<char>>,
}

impl View for Partial {
    type V = PartialModel;

    open spec fn view(&self) -> PartialModel {
        PartialModel {
            major: self.major,
            minor: self.minor,
            bug: self.bug,
            prerelease: tags_model(self.prerelease@),
            build: strs_model(self.build@),
        }
    }
}

/// Bounds that every parsed partial satisfies: each number is between 0
/// and the safe-integer ceiling, and wildcards cascade (a missing part
/// means the later parts are missing too).
pub open spec fn partial_wf(p: PartialModel) -> bool {
    &&& (p.major matches Some(n) ==> 0 <= n <= max_version_num())
    &&& (p.minor matches Some(n) ==> 0 <= n <= max_version_num())
    &&& (p.bug matches Some(n) ==> 0 <= n <= max_version_num())
    &&& (p.major is None ==> p.minor is None)
    &&& (p.minor is None ==> p.bug is None)
}

/// The version a partial denotes when missing parts count as zero,
/// keeping its prerelease and build.
pub open spec fn partial_floor(p: PartialModel) -> SemverModel {
    SemverModel {
        major: opt_or_zero(p.major),
        minor: opt_or_zero(p.minor),
        bug: opt_or_zero(p.bug),
        prerelease: p.prerelease,
        build: p.build,
    }
}

pub open spec fn opt_or_zero(n: Option<i64>) -> i64 {
    match n {
        Some(v) => v,
        None => 0,
    }
}

/// A plain partial desugars as an "x-range": a missing major accepts
/// anything; a missing minor or bug accepts the half-open interval up to
/// the next minor or major; a full version must match exactly.
pub open spec fn xrange_spec(p: PartialModel) -> Seq<ComparatorModel> {
    if p.major is None {
        seq![ComparatorModel::Any]
    } else if p.minor is None {
        seq![
            ComparatorModel::Gte(svm(p.major->0, 0, 0)),
            ComparatorModel::Lt(svm0((p.major->0 + 1) as i64, 0, 0)),
        ]
    } else if p.bug is None {
        seq![
            ComparatorModel::Gte(svm(p.major->0, p.minor->0, 0)),
            ComparatorModel::Lt(svm0(p.major->0, (p.minor->0 + 1) as i64, 0)),
        ]
    } else {
        seq![ComparatorModel::Eq(partial_floor(p))]
    }
}

/// A caret range accepts changes that keep the leftmost non-zero part.
pub open spec fn caret_spec(p: PartialModel) -> Seq<ComparatorModel> {
    if p.major is None {
        seq![ComparatorModel::Any]
    } else if p.minor is None {
        seq![
            ComparatorModel::Gte(svm(p.major->0, 0, 0)),
            ComparatorModel::Lt(svm0((p.major->0 + 1) as i64, 0, 0)),
        ]
    } else if p.bug is None {
        if p.major->0 > 0 {
            seq![
                ComparatorModel::Gte(svm(p.major->0, p.minor->0, 0)),
                ComparatorModel::Lt(svm0((p.major->0 + 1) as i64, 0, 0)),
            ]
        } else {
            seq![
                ComparatorModel::Gte(svm(0, p.minor->0, 0)),
                ComparatorModel::Lt(svm0(0, (p.minor->0 + 1) as i64, 0)),
            ]
        }
    } else if p.major->0 > 0 {
        seq![
            ComparatorModel::Gte(partial_floor(p)),
            ComparatorModel::Lt(svm0((p.major->0 + 1) as i64, 0, 0)),
        ]
    } else if p.minor->0 > 0 {
        seq![
            ComparatorModel::Gte(partial_floor(p)),
            ComparatorModel::Lt(svm0(0, (p.minor->0 + 1) as i64, 0)),
        ]
    } else {
        seq![
            ComparatorModel::Gte(partial_floor(p)),
            ComparatorModel::Lt(svm0(0, 0, (p.bug->0 + 1) as i64)),
        ]
    }
}

/// A tilde range accepts patch-level changes (or minor-level when the
/// minor part is missing).
pub open spec fn tilde_spec(p: PartialModel) -> Seq<ComparatorModel> {
    if p.major is None {
        seq![ComparatorModel::Any]
    } else if p.minor is None {
        seq![
            ComparatorModel::Gte(svm(p.major->0, 0, 0)),
            ComparatorModel::Lt(svm0((p.major->0 + 1) as i64, 0, 0)),
        ]
    } else {
        seq![
            ComparatorModel::Gte(partial_floor(p)),
            ComparatorModel::Lt(svm0(p.major->0, (p.minor->0 + 1) as i64, 0)),
        ]
    }
}

// ------------------------------------------------------------------
// Exec-level desugaring
// ------------------------------------------------------------------

/// A version with no prerelease and no build.
fn semver_plain(major: i64, minor: i64, bug: i64) -> (v: Semver)
    ensures
        v@ == svm(major, minor, bug),
{
    let v = Semver { major, minor, bug, prerelease: Vec::new(), build: Vec::new() };
    proof {
        assert(v@.prerelease =~= Seq::<TagModel>::empty());
        assert(v@.build =~= Seq::<Seq<char>>::empty());
    }
    v
}

/// The least prerelease of a triple, `major.minor.bug-0`.
fn semver_floor0(major: i64, minor: i64, bug: i64) -> (v: Semver)
    ensures
        v@ == svm0(major, minor, bug),
{
    let mut prerelease: Vec<PrereleaseTag> = Vec::new();
    prerelease.push(PrereleaseTag::Int(0));
    let v = Semver { major, minor, bug, prerelease, build: Vec::new() };
    proof {
        assert(v@.prerelease =~= seq![TagModel::Int(0)]);
        assert(v@.build =~= Seq::<Seq<char>>::empty());
    }
    v
}


/// Clones a prerelease component list, keeping its view.
fn clone_tags(v: &Vec<PrereleaseTag>) -> (r: Vec<PrereleaseTag>)
    ensures
        tags_model(r@) == tags_model(v@),
{
    let mut r: Vec<PrereleaseTag> = Vec::new();
    let n = v.len();
    let mut i: usize = 0;
    while i < n
        invariant
            n == v@.len(),
            i <= n,
            r@.len() == i as int,
            forall|k: int| 0 <= k < i as int ==> r@[k]@ == v@[k]@,
        decreases n - i,
    {
        let t = match &v[i] {
            PrereleaseTag::String(s) => PrereleaseTag::String(s.clone()),
            PrereleaseTag::Int(x) => PrereleaseTag::Int(*x),
        };
        r.push(t);
        i = i + 1;
    }
    proof {
        assert(tags_model(r@) =~= tags_model(v@));
    }
    r
}

/// Clones a build component list, keeping its view.
fn clone_strs(v: &Vec<String>) -> (r: Vec<String>)
    ensures
        strs_model(r@) == strs_model(v@),
{
    let mut r: Vec<String> = Vec::new();
    let n = v.len();
    let mut i: usize = 0;
    while i < n
        invariant
            n == v@.len(),
            i <= n,
            r@.len() == i as int,
            forall|k: int| 0 <= k < i as int ==> r@[k]@ == v@[k]@,
        decreases n - i,
    {
        r.push(v[i].clone());
        i = i + 1;
    }
    proof {
        assert(strs_model(r@) =~= strs_model(v@));
    }
    r
}

impl Partial {
    /// The version this partial denotes with missing parts as zero.
    fn floor(&self) -> (v: Semver)
        ensures
            v@ == partial_floor(self@),
    {
        let major = match self.major {
            Some(n) => n,
            None => 0,
        };
        let minor = match self.minor {
            Some(n) => n,
            None => 0,
        };
        let bug = match self.bug {
            Some(n) => n,
            None => 0,
        };
        Semver {
            major,
            minor,
            bug,
            prerelease: clone_tags(&self.prerelease),
            build: clone_strs(&self.build),
        }
    }

    /// Desugars this partial as a plain "x-range".
    fn xrange(&self) -> (r: Vec<VersionComparator>)
        requires
            partial_wf(self@),
        ensures
            cmps_model(r@) == xrange_spec(self@),
    {
        let mut r: Vec<VersionComparator> = Vec::new();
        match (self.major, self.minor, self.bug) {
            (None, _, _) => {
                r.push(VersionComparator::Any);
                proof {
                    assert(cmps_model(r@) =~= xrange_spec(self@));
                }
            },
            (Some(major), None, _) => {
                r.push(VersionComparator::Gte(semver_plain(major, 0, 0)));
                r.push(VersionComparator::Lt(semver_floor0(major + 1, 0, 0)));
                proof {
                    assert(cmps_model(r@) =~= xrange_spec(self@));
                }
            },
            (Some(major), Some(minor), None) => {
                r.push(VersionComparator::Gte(semver_plain(major, minor, 0)));
                r.push(VersionComparator::Lt(semver_floor0(major, minor + 1, 0)));
                proof {
                    assert(cmps_model(r@) =~= xrange_spec(self@));
                }
            },
            (Some(_), Some(_), Some(_)) => {
                r.push(VersionComparator::Eq(self.floor()));
                proof {
                    assert(cmps_model(r@) =~= xrange_spec(self@));
                }
            },
        }
        r
    }

    /// Desugars `^partial`.
    fn caret(&self) -> (r: Vec<VersionComparator>)
        requires
            partial_wf(self@),
        ensures
            cmps_model(r@) == caret_spec(self@),
    {
        let mut r: Vec<VersionComparator> = Vec::new();
        match (self.major, self.minor, self.bug) {
            (None, _, _) => {
                r.push(VersionComparator::Any);
            },
            (Some(major), None, _) => {
                r.push(VersionComparator::Gte(semver_plain(major, 0, 0)));
                r.push(VersionComparator::Lt(semver_floor0(major + 1, 0, 0)));
            },
            (Some(major), Some(minor), None) => {
                if major > 0 {
                    r.push(VersionComparator::Gte(semver_plain(major, minor, 0)));
                    r.push(VersionComparator::Lt(semver_floor0(major + 1, 0, 0)));
                } else {
                    r.push(VersionComparator::Gte(semver_plain(0, minor, 0)));
                    r.push(VersionComparator::Lt(semver_floor0(0, minor + 1, 0)));
                }
            },
            (Some(major), Some(minor), Some(bug)) => {
                if major > 0 {
                    r.push(VersionComparator::Gte(self.floor()));
                    r.push(VersionComparator::Lt(semver_floor0(major + 1, 0, 0)));
                } else if minor > 0 {
                    r.push(VersionComparator::Gte(self.floor()));
                    r.push(VersionComparator::Lt(semver_floor0(0, minor + 1, 0)));
                } else {
                    r.push(VersionComparator::Gte(self.floor()));
                    r.push(VersionComparator::Lt(semver_floor0(0, 0, bug + 1)));
                }
            },
        }
        proof {
            assert(cmps_model(r@) =~= caret_spec(self@));
        }
        r
    }

    /// Desugars `~partial`.
    fn tilde(&self) -> (r: Vec<VersionComparator>)
        requires
            partial_wf(self@),
        ensures
            cmps_model(r@) == tilde_spec(self@),
    {
        let mut r: Vec<VersionComparator> = Vec::new();
        match (self.major, self.minor) {
            (None, _) => {
                r.push(VersionComparator::Any);
            },
            (Some(major), None) => {
                r.push(VersionComparator::Gte(semver_plain(major, 0, 0)));
                r.push(VersionComparator::Lt(semver_floor0(major + 1, 0, 0)));
            },
            (Some(major), Some(minor)) => {
                r.push(VersionComparator::Gte(self.floor()));
                r.push(VersionComparator::Lt(semver_floor0(major, minor + 1, 0)));
            },
        }
        proof {
            assert(cmps_model(r@) =~= tilde_spec(self@));
        }
        r
    }
}


// ------------------------------------------------------------------
// Character-level helpers, spec level
// ------------------------------------------------------------------

pub open spec fn is_digit(c: char) -> bool {
    48 <= c as u32 && c as u32 <= 57
}

pub open spec fn digit_val(c: char) -> int {
    c as u32 - 48
}

pub open spec fn all_digits(s: Seq<char>) -> bool {
    forall|i: int| 0 <= i < s.len() ==> is_digit(#[trigger] s[i])
}

/// The number a digit string denotes.
pub open spec fn dec_val(s: Seq<char>) -> int
    decreases s.len(),
{
    if s.len() == 0 {
        0
    } else {
        dec_val(s.drop_last()) * 10 + digit_val(s.last())
    }
}

pub open spec fn is_prefix(p: Seq<char>, s: Seq<char>) -> bool {
    p.len() <= s.len() && s.subrange(0, p.len() as int) == p
}

pub open spec fn is_suffix(p: Seq<char>, s: Seq<char>) -> bool {
    p.len() <= s.len() && s.subrange(s.len() - p.len(), s.len() as int) == p
}

/// First occurrence of `c` at or after `i`.
pub open spec fn find_char_from(s: Seq<char>, c: char, i: int) -> Option<int>
    decreases s.len() - i,
{
    if i < 0 || i >= s.len() {
        None
    } else if s[i] == c {
        Some(i)
    } else {
        find_char_from(s, c, i + 1)
    }
}

/// Last occurrence of `c` at or before `i`.
pub open spec fn rfind_char_upto(s: Seq<char>, c: char, i: int) -> Option<int>
    decreases i + 1,
{
    if i < 0 || i >= s.len() {
        None
    } else if s[i] == c {
        Some(i)
    } else {
        rfind_char_upto(s, c, i - 1)
    }
}

/// First occurrence of the two-character pattern at or after `i`.
pub open spec fn find2_from(s: Seq<char>, c0: char, c1: char, i: int) -> Option<int>
    decreases s.len() - i,
{
    if i < 0 || i + 2 > s.len() {
        None
    } else if s[i] == c0 && s[i + 1] == c1 {
        Some(i)
    } else {
        find2_from(s, c0, c1, i + 1)
    }
}

/// First occurrence of the three-character pattern at or after `i`.
pub open spec fn find3_from(s: Seq<char>, c0: char, c1: char, c2: char, i: int) -> Option<int>
    decreases s.len() - i,
{
    if i < 0 || i + 3 > s.len() {
        None
    } else if s[i] == c0 && s[i + 1] == c1 && s[i + 2] == c2 {
        Some(i)
    } else {
        find3_from(s, c0, c1, c2, i + 1)
    }
}

/// Characters legal in a dist-tag name.
pub open spec fn is_tag_char(c: char) -> bool {
    ||| is_digit(c)
    ||| 97 <= c as u32 && c as u32 <= 122
    ||| 65 <= c as u32 && c as u32 <= 90
    ||| c == '.'
    ||| c == '_'
    ||| c == '-'
}

pub open spec fn tag_name_ok(s: Seq<char>) -> bool {
    forall|i: int| 0 <= i < s.len() ==> is_tag_char(#[trigger] s[i])
}

// ------------------------------------------------------------------
// Character-level helpers, exec level
// ------------------------------------------------------------------

/// The characters of a string, as an indexable vector.
pub(crate) fn chars_vec(s: &str) -> (r: Vec<char>)
    ensures
        r@ == s@,
{
    let n = s.unicode_len();
    let mut r: Vec<char> = Vec::new();
    let mut i: usize = 0;
    while i < n
        invariant
            n == s@.len(),
            i <= n,
            r@.len() == i as int,
            forall|k: int| 0 <= k < i as int ==> r@[k] == s@[k],
        decreases n - i,
    {
        r.push(s.get_char(i));
        i = i + 1;
    }
    proof {
        assert(r@ =~= s@);
    }
    r
}

#[verifier::loop_isolation(false)]
pub(crate) fn find_char(v: &Vec<char>, c: char, from: usize) -> (r: Option<usize>)
    ensures
        match r {
            Some(i) => find_char_from(v@, c, from as int) == Some(i as int) && from <= i
                && i < v@.len(),
            None => find_char_from(v@, c, from as int) is None,
        },
{
    let n = v.len();
    let mut i: usize = from;
    if from > n {
        proof {
            assert(find_char_from(v@, c, from as int) is None);
        }
        return None;
    }
    while i < n
        invariant
            from as int <= i as int <= n,
            find_char_from(v@, c, from as int) == find_char_from(v@, c, i as int),
        decreases n - i,
    {
        if v[i] == c {
            return Some(i);
        }
        i = i + 1;
    }
    None
}

#[verifier::loop_isolation(false)]
fn rfind_char(v: &Vec<char>, c: char, upto: usize) -> (r: Option<usize>)
    requires
        upto < v@.len(),
    ensures
        match r {
            Some(i) => rfind_char_upto(v@, c, upto as int) == Some(i as int) && i <= upto,
            None => rfind_char_upto(v@, c, upto as int) is None,
        },
{
    let n = v.len();
    let mut i: usize = upto + 1;
    while i > 0
        invariant
            i as int <= upto + 1,
            rfind_char_upto(v@, c, upto as int) == rfind_char_upto(v@, c, i as int - 1),
        decreases i,
    {
        if v[i - 1] == c {
            return Some(i - 1);
        }
        i = i - 1;
    }
    None
}

#[verifier::loop_isolation(false)]
fn find2(v: &Vec<char>, c0: char, c1: char, from: usize) -> (r: Option<usize>)
    ensures
        match r {
            Some(i) => find2_from(v@, c0, c1, from as int) == Some(i as int) && from <= i && i
                + 2 <= v@.len(),
            None => find2_from(v@, c0, c1, from as int) is None,
        },
{
    let n = v.len();
    if n < 2 || from > n - 2 {
        proof {
            assert(find2_from(v@, c0, c1, from as int) is None);
        }
        return None;
    }
    let mut i: usize = from;
    while i <= n - 2
        invariant
            n >= 2,
            from as int <= i as int,
            i as int <= n - 1,
            find2_from(v@, c0, c1, from as int) == find2_from(v@, c0, c1, i as int),
        decreases n - i,
    {
        if v[i] == c0 && v[i + 1] == c1 {
            return Some(i);
        }
        i = i + 1;
    }
    None
}

#[verifier::loop_isolation(false)]
fn find3(v: &Vec<char>, c0: char, c1: char, c2: char, from: usize) -> (r: Option<usize>)
    ensures
        match r {
            Some(i) => find3_from(v@, c0, c1, c2, from as int) == Some(i as int) && from <= i
                && i + 3 <= v@.len(),
            None => find3_from(v@, c0, c1, c2, from as int) is None,
        },
{
    let n = v.len();
    if n < 3 || from > n - 3 {
        proof {
            assert(find3_from(v@, c0, c1, c2, from as int) is None);
        }
        return None;
    }
    let mut i: usize = from;
    while i <= n - 3
        invariant
            n >= 3,
            from as int <= i as int,
            i as int <= n - 2,
            find3_from(v@, c0, c1, c2, from as int) == find3_from(v@, c0, c1, c2, i as int),
        decreases n - i,
    {
        if v[i] == c0 && v[i + 1] == c1 && v[i + 2] == c2 {
            return Some(i);
        }
        i = i + 1;
    }
    None
}

/// Whether the characters `[from, to)` equal the pattern string.
#[verifier::loop_isolation(false)]
fn range_eq(v: &Vec<char>, from: usize, to: usize, p: &str) -> (r: bool)
    requires
        from <= to <= v@.len(),
    ensures
        r == (v@.subrange(from as int, to as int) == p@),
{
    let pn = p.unicode_len();
    if to - from != pn {
        proof {
            assert(v@.subrange(from as int, to as int).len() != p@.len());
        }
        return false;
    }
    let mut i: usize = 0;
    while i < pn
        invariant
            i <= pn,
            pn == p@.len(),
            to - from == pn,
            forall|k: int| 0 <= k < i as int ==> v@[from + k] == p@[k],
        decreases pn - i,
    {
        if v[from + i] != p.get_char(i) {
            proof {
                assert(v@.subrange(from as int, to as int)[i as int] != p@[i as int]);
            }
            return false;
        }
        i = i + 1;
    }
    proof {
        assert(v@.subrange(from as int, to as int) =~= p@);
    }
    true
}

/// Whether the whole character vector starts with the pattern.
fn has_prefix(v: &Vec<char>, p: &str) -> (r: bool)
    ensures
        r == is_prefix(p@, v@),
{
    let pn = p.unicode_len();
    if pn > v.len() {
        return false;
    }
    range_eq(v, 0, pn, p)
}

/// Whether the whole character vector ends with the pattern.
fn has_suffix(v: &Vec<char>, p: &str) -> (r: bool)
    ensures
        r == is_suffix(p@, v@),
{
    let pn = p.unicode_len();
    let n = v.len();
    if pn > n {
        return false;
    }
    range_eq(v, n - pn, n, p)
}

/// Whether every character of `[from, to)` is legal in a tag name.
#[verifier::loop_isolation(false)]
fn tag_range_ok(v: &Vec<char>, from: usize, to: usize) -> (r: bool)
    requires
        from <= to <= v@.len(),
    ensures
        r == tag_name_ok(v@.subrange(from as int, to as int)),
{
    let mut i: usize = from;
    while i < to
        invariant
            from <= i <= to,
            forall|k: int| from as int <= k < i as int ==> is_tag_char(#[trigger] v@[k]),
        decreases to - i,
    {
        let c = v[i];
        let u = c as u32;
        let ok = (48 <= u && u <= 57) || (97 <= u && u <= 122) || (65 <= u && u <= 90) || c == '.'
            || c == '_' || c == '-';
        if !ok {
            proof {
                assert(v@.subrange(from as int, to as int)[i - from] == v@[i as int]);
                assert(!is_tag_char(v@[i as int]));
            }
            return false;
        }
        i = i + 1;
    }
    proof {
        assert forall|k: int| 0 <= k < (to - from) as int implies is_tag_char(
            #[trigger] v@.subrange(from as int, to as int)[k],
        ) by {
            assert(v@.subrange(from as int, to as int)[k] == v@[from + k]);
        }
    }
    true
}


// ------------------------------------------------------------------
// Number and partial-version parsing
// ------------------------------------------------------------------

proof fn lemma_dec_val_nonneg(s: Seq<char>)
    requires
        all_digits(s),
    ensures
        dec_val(s) >= 0,
    decreases s.len(),
{
    if s.len() > 0 {
        assert(all_digits(s.drop_last())) by {
            assert(forall|i: int|
                0 <= i < s.len() - 1 ==> #[trigger] s.drop_last()[i] == s[i]);
        }
        lemma_dec_val_nonneg(s.drop_last());
    }
}

proof fn lemma_dec_val_grows(s: Seq<char>, i: int)
    requires
        all_digits(s),
        0 <= i <= s.len(),
    ensures
        dec_val(s.take(i)) <= dec_val(s),
    decreases s.len() - i,
{
    if i == s.len() {
        assert(s.take(i) =~= s);
    } else {
        assert(s.take(i + 1).drop_last() =~= s.take(i));
        assert(s.take(i + 1).last() == s[i]);
        assert(all_digits(s.take(i))) by {
            assert(forall|k: int| 0 <= k < i ==> #[trigger] s.take(i)[k] == s[k]);
        }
        lemma_dec_val_nonneg(s.take(i));
        assert(dec_val(s.take(i + 1)) == dec_val(s.take(i)) * 10 + digit_val(s[i]));
        assert(dec_val(s.take(i)) <= dec_val(s.take(i + 1)));
        lemma_dec_val_grows(s, i + 1);
    }
}

/// Parses the digit string `[from, to)` as a number, refusing anything
/// that is empty, not all digits, or beyond the safe-integer ceiling.
#[verifier::loop_isolation(false)]
pub(crate) fn parse_num(v: &Vec<char>, from: usize, to: usize) -> (r: Option<i64>)
    requires
        from <= to <= v@.len(),
    ensures
        match r {
            Some(val) => from < to && all_digits(v@.subrange(from as int, to as int)) && val
                == dec_val(v@.subrange(from as int, to as int)) && 0 <= val <= max_version_num(),
            None => from == to || !all_digits(v@.subrange(from as int, to as int)) || dec_val(
                v@.subrange(from as int, to as int),
            ) > max_version_num(),
        },
{
    if from == to {
        return None;
    }
    let ghost sub = v@.subrange(from as int, to as int);
    let mut acc: i64 = 0;
    let mut i: usize = from;
    proof {
        assert(sub.take(0) =~= Seq::<char>::empty());
    }
    while i < to
        invariant
            from <= i <= to,
            acc == dec_val(sub.take(i - from)),
            0 <= acc <= max_version_num(),
            all_digits(sub.take(i - from)),
        decreases to - i,
    {
        let c = v[i];
        let u = c as u32;
        proof {
            assert(sub[i - from] == v@[i as int]);
        }
        if !(48 <= u && u <= 57) {
            proof {
                assert(!is_digit(sub[i - from]));
            }
            return None;
        }
        let d = (u - 48) as i64;
        let nacc = acc * 10 + d;
        proof {
            assert(sub.take(i - from + 1).drop_last() =~= sub.take(i - from));
            assert(sub.take(i - from + 1).last() == sub[i - from]);
            assert(all_digits(sub.take(i - from + 1))) by {
                assert(forall|k: int|
                    0 <= k < i - from + 1 ==> #[trigger] sub.take(i - from + 1)[k] == sub[k]);
            }
        }
        if nacc > 9007199254740991 {
            proof {
                assert(dec_val(sub.take(i - from + 1)) == nacc);
                if all_digits(sub) {
                    lemma_dec_val_grows(sub, i - from + 1);
                }
            }
            return None;
        }
        acc = nacc;
        i = i + 1;
    }
    proof {
        assert(sub.take(to - from) =~= sub);
    }
    Some(acc)
}

/// One version piece: a number, or a wildcard (`x`, `X`, `*`). Returns
/// the piece and the index just after it.
#[verifier::loop_isolation(false)]
fn parse_piece(v: &Vec<char>, from: usize, to: usize) -> (r: Option<(Option<i64>, usize)>)
    requires
        from <= to <= v@.len(),
    ensures
        r matches Some(t) ==> from < t.1 <= to && (t.0 matches Some(x) ==> 0 <= x
            <= max_version_num()),
{
    if from >= to {
        return None;
    }
    let c = v[from];
    if c == 'x' || c == 'X' || c == '*' {
        return Some((None, from + 1));
    }
    let u = c as u32;
    if !(48 <= u && u <= 57) {
        return None;
    }
    let mut j: usize = from;
    while j < to
        invariant
            from <= j <= to,
        decreases to - j,
    {
        let cj = v[j];
        let uj = cj as u32;
        if !(48 <= uj && uj <= 57) {
            break ;
        }
        j = j + 1;
    }
    if j == from {
        return None;
    }
    match parse_num(v, from, j) {
        Some(val) => Some((Some(val), j)),
        None => None,
    }
}

/// Whether `[from, to)` is a valid prerelease or build component: one or
/// more ASCII letters, digits or hyphens.
#[verifier::loop_isolation(false)]
fn component_ok(v: &Vec<char>, from: usize, to: usize) -> (r: bool)
    requires
        from <= to <= v@.len(),
{
    if from >= to {
        return false;
    }
    let mut i: usize = from;
    while i < to
        invariant
            from <= i <= to,
        decreases to - i,
    {
        let c = v[i];
        let u = c as u32;
        let ok = (48 <= u && u <= 57) || (97 <= u && u <= 122) || (65 <= u && u <= 90) || c == '-';
        if !ok {
            return false;
        }
        i = i + 1;
    }
    true
}

/// Whether every character of `[from, to)` is a digit.
#[verifier::loop_isolation(false)]
fn digits_only(v: &Vec<char>, from: usize, to: usize) -> (r: bool)
    requires
        from <= to <= v@.len(),
{
    let mut i: usize = from;
    while i < to
        invariant
            from <= i <= to,
        decreases to - i,
    {
        let u = v[i] as u32;
        if !(48 <= u && u <= 57) {
            return false;
        }
        i = i + 1;
    }
    true
}

/// Parses dot-separated prerelease components from `[from, to)`,
/// stopping at `+`. Returns the components and the index where it
/// stopped.
#[verifier::loop_isolation(false)]
fn parse_pre_components(s: &str, v: &Vec<char>, from: usize, to: usize) -> (r: Option<
    (Vec<PrereleaseTag>, usize),
>)
    requires
        v@ == s@,
        from <= to <= v@.len(),
    ensures
        r matches Some(t) ==> from <= t.1 <= to,
{
    let mut out: Vec<PrereleaseTag> = Vec::new();
    let mut i: usize = from;
    loop
        invariant
            v@ == s@,
            from <= i <= to,
            to <= v@.len(),
        decreases to - i,
    {
        // one component up to '.', '+' or the end
        let mut j: usize = i;
        while j < to
            invariant
                i <= j <= to,
                to <= v@.len(),
            decreases to - j,
        {
            let c = v[j];
            if c == '.' || c == '+' {
                break ;
            }
            j = j + 1;
        }
        if !component_ok(v, i, j) {
            return None;
        }
        if digits_only(v, i, j) {
            match parse_num(v, i, j) {
                Some(val) => out.push(PrereleaseTag::Int(val)),
                None => out.push(PrereleaseTag::String(s.substring_char(i, j).to_owned())),
            }
        } else {
            out.push(PrereleaseTag::String(s.substring_char(i, j).to_owned()));
        }
        if j >= to {
            return Some((out, j));
        }
        if v[j] == '+' {
            return Some((out, j));
        }
        // v[j] == '.', move past it; an empty trailing component fails
        if j + 1 >= to {
            return None;
        }
        i = j + 1;
    }
}

/// Parses dot-separated build components from `[from, to)`.
#[verifier::loop_isolation(false)]
fn parse_build_components(s: &str, v: &Vec<char>, from: usize, to: usize) -> (r: Option<
    Vec<String>,
>)
    requires
        v@ == s@,
        from <= to <= v@.len(),
{
    let mut out: Vec<String> = Vec::new();
    let mut i: usize = from;
    loop
        invariant
            v@ == s@,
            from <= i <= to,
            to <= v@.len(),
        decreases to - i,
    {
        let mut j: usize = i;
        while j < to
            invariant
                i <= j <= to,
                to <= v@.len(),
            decreases to - j,
        {
            if v[j] == '.' {
                break ;
            }
            j = j + 1;
        }
        if !component_ok(v, i, j) {
            return None;
        }
        out.push(s.substring_char(i, j).to_owned());
        if j >= to {
            return Some(out);
        }
        if j + 1 >= to {
            return None;
        }
        i = j + 1;
    }
}

/// Parses `[from, to)` as a partial version: up to three dot-separated
/// number-or-wildcard pieces, then an optional prerelease (with or
/// without its `-`, as npm's loose grammar admits) and an optional
/// `+build`.
#[verifier::loop_isolation(false)]
fn parse_partial(s: &str, v: &Vec<char>, from: usize, to: usize) -> (r: Option<Partial>)
    requires
        v@ == s@,
        from <= to <= v@.len(),
    ensures
        r matches Some(p) ==> partial_wf(p@),
{
    let (major, i0) = match parse_piece(v, from, to) {
        Some(t) => t,
        None => {
            return None;
        },
    };
    let mut i: usize = i0;
    let mut minor: Option<i64> = None;
    let mut bug: Option<i64> = None;
    if i < to && v[i] == '.' {
        let (mn, i1) = match parse_piece(v, i + 1, to) {
            Some(t) => t,
            None => {
                return None;
            },
        };
        minor = mn;
        i = i1;
        if i < to && v[i] == '.' {
            let (bg, i2) = match parse_piece(v, i + 1, to) {
                Some(t) => t,
                None => {
                    return None;
                },
            };
            bug = bg;
            i = i2;
        }
    }
    let mut prerelease: Vec<PrereleaseTag> = Vec::new();
    let mut build: Vec<String> = Vec::new();
    if i < to {
        let c = v[i];
        if c == '+' {
            match parse_build_components(s, v, i + 1, to) {
                Some(b) => {
                    build = b;
                },
                None => {
                    return None;
                },
            }
        } else {
            let pstart = if c == '-' {
                i + 1
            } else {
                i
            };
            if c == '-' && pstart >= to {
                // a bare trailing dash is its own prerelease component
                prerelease.push(PrereleaseTag::String(s.substring_char(i, to).to_owned()));
            } else {
                let (pre, stopped) = match parse_pre_components(s, v, pstart, to) {
                    Some(t) => t,
                    None => {
                        return None;
                    },
                };
                prerelease = pre;
                if stopped < to {
                    // stopped at '+': the rest is the build part
                    match parse_build_components(s, v, stopped + 1, to) {
                        Some(b) => {
                            build = b;
                        },
                        None => {
                            return None;
                        },
                    }
                }
            }
        }
    }
    // wildcards cascade: a missing part hides the later parts
    if major.is_none() {
        minor = None;
    }
    if minor.is_none() {
        bug = None;
    }
    Some(Partial { major, minor, bug, prerelease, build })
}

// ------------------------------------------------------------------
// Range parsing
// ------------------------------------------------------------------

/// Skips spaces at both ends of `[from, to)`.
#[verifier::loop_isolation(false)]
fn trim_range(v: &Vec<char>, from: usize, to: usize) -> (r: (usize, usize))
    requires
        from <= to <= v@.len(),
    ensures
        from <= r.0 <= r.1 <= to,
{
    let mut a: usize = from;
    let mut b: usize = to;
    while a < b
        invariant
            from <= a <= b <= to,
        decreases b - a,
    {
        if v[a] == ' ' {
            a = a + 1;
        } else {
            break ;
        }
    }
    while b > a
        invariant
            from <= a <= b <= to,
        decreases b,
    {
        if v[b - 1] == ' ' {
            b = b - 1;
        } else {
            break ;
        }
    }
    (a, b)
}

/// Parses one comparator token: a caret, tilde, primitive or plain
/// partial version.
#[verifier::loop_isolation(false)]
fn parse_simple(s: &str, v: &Vec<char>, from: usize, to: usize) -> (r: Option<
    Vec<VersionComparator>,
>)
    requires
        v@ == s@,
        from <= to <= v@.len(),
{
    if from >= to {
        return None;
    }
    let c = v[from];
    if c == '^' {
        match parse_partial(s, v, from + 1, to) {
            Some(p) => Some(p.caret()),
            None => None,
        }
    } else if c == '~' {
        let start = if from + 1 < to && v[from + 1] == '>' {
            from + 2
        } else {
            from + 1
        };
        match parse_partial(s, v, start, to) {
            Some(p) => Some(p.tilde()),
            None => None,
        }
    } else if c == '>' || c == '<' {
        let (gte, start) = if from + 1 < to && v[from + 1] == '=' {
            (true, from + 2)
        } else {
            (false, from + 1)
        };
        match parse_partial(s, v, start, to) {
            Some(p) => {
                let ver = p.floor();
                let mut out: Vec<VersionComparator> = Vec::new();
                if c == '>' {
                    if gte {
                        out.push(VersionComparator::Gte(ver));
                    } else {
                        out.push(VersionComparator::Gt(ver));
                    }
                } else {
                    if gte {
                        out.push(VersionComparator::Lte(ver));
                    } else {
                        out.push(VersionComparator::Lt(ver));
                    }
                }
                Some(out)
            },
            None => None,
        }
    } else if c == '=' {
        match parse_partial(s, v, from + 1, to) {
            Some(p) => Some(p.xrange()),
            None => None,
        }
    } else {
        match parse_partial(s, v, from, to) {
            Some(p) => Some(p.xrange()),
            None => None,
        }
    }
}

/// Parses one `||`-free alternative: a hyphen range, or a
/// space-separated conjunction of comparator tokens.
#[verifier::loop_isolation(false)]
fn parse_alternative(s: &str, v: &Vec<char>, from: usize, to: usize) -> (r: Option<
    Vec<VersionComparator>,
>)
    requires
        v@ == s@,
        from <= to <= v@.len(),
{
    let (a, b) = trim_range(v, from, to);
    if a >= b {
        let mut out: Vec<VersionComparator> = Vec::new();
        out.push(VersionComparator::Any);
        return Some(out);
    }
    let hyphen_at = match find3(v, ' ', '-', ' ', a) {
        Some(h) => if b >= 3 && h <= b - 3 {
            Some(h)
        } else {
            None
        },
        None => None,
    };
    match hyphen_at {
        Some(h) => {
            let (la, lb) = trim_range(v, a, h);
            let (ra, rb) = trim_range(v, h + 3, b);
            let pl = match parse_partial(s, v, la, lb) {
                Some(p) => p,
                None => {
                    return None;
                },
            };
            let pr = match parse_partial(s, v, ra, rb) {
                Some(p) => p,
                None => {
                    return None;
                },
            };
            let mut out: Vec<VersionComparator> = Vec::new();
            out.push(VersionComparator::Gte(pl.floor()));
            match (pr.major, pr.minor, pr.bug) {
                (None, _, _) => {},
                (Some(major), None, _) => {
                    out.push(VersionComparator::Lt(semver_floor0(major + 1, 0, 0)));
                },
                (Some(major), Some(minor), None) => {
                    out.push(VersionComparator::Lt(semver_floor0(major, minor + 1, 0)));
                },
                (Some(_), Some(_), Some(_)) => {
                    out.push(VersionComparator::Lte(pr.floor()));
                },
            }
            Some(out)
        },
        None => {
            let mut out: Vec<VersionComparator> = Vec::new();
            let mut i: usize = a;
            while i < b
                invariant
                    v@ == s@,
                    a <= i <= b,
                    b <= v@.len(),
                decreases b - i,
            {
                if v[i] == ' ' {
                    i = i + 1;
                } else {
                    let mut j: usize = i;
                    while j < b
                        invariant
                            i <= j <= b,
                            b <= v@.len(),
                        decreases b - j,
                    {
                        if v[j] == ' ' {
                            break ;
                        }
                        j = j + 1;
                    }
                    match parse_simple(s, v, i, j) {
                        Some(mut cs) => {
                            out.append(&mut cs);
                        },
                        None => {
                            return None;
                        },
                    }
                    i = j;
                }
            }
            if out.len() == 0 {
                out.push(VersionComparator::Any);
            }
            Some(out)
        },
    }
}

/// Parses a whole range: `||`-separated alternatives.
#[verifier::loop_isolation(false)]
fn parse_range(s: &str, v: &Vec<char>) -> (r: Option<VersionConstraint>)
    requires
        v@ == s@,
{
    let n = v.len();
    let mut out: Vec<Vec<VersionComparator>> = Vec::new();
    let mut start: usize = 0;
    loop
        invariant
            v@ == s@,
            start <= n + 2,
            n == v@.len(),
        decreases n + 2 - start,
    {
        if start > n {
            break ;
        }
        match find2(v, '|', '|', start) {
            Some(p) => {
                match parse_alternative(s, v, start, p) {
                    Some(alt) => {
                        out.push(alt);
                    },
                    None => {
                        return None;
                    },
                }
                start = p + 2;
            },
            None => {
                match parse_alternative(s, v, start, n) {
                    Some(alt) => {
                        out.push(alt);
                    },
                    None => {
                        return None;
                    },
                }
                return Some(VersionConstraint(out));
            },
        }
    }
    Some(VersionConstraint(out))
}


// ------------------------------------------------------------------
// Classification of a whole spec string, spec level
// ------------------------------------------------------------------

/// Whether the spec names an alias (`npm:`).
pub open spec fn starts_npm(s: Seq<char>) -> bool {
    s.len() >= 4 && s[0] == 'n' && s[1] == 'p' && s[2] == 'm' && s[3] == ':'
}

/// Position of the first `://`.
pub open spec fn url_at(s: Seq<char>) -> Option<int> {
    find3_from(s, ':', '/', '/', 0)
}

/// Hosts whose http and https URLs denote git repositories.
pub open spec fn known_git_host(h: Seq<char>) -> bool {
    ||| h == "github.com"@
    ||| h == "gitlab.com"@
    ||| h == "bitbucket.org"@
    ||| h == "gist.github.com"@
}

/// URL protocols the resolver accepts.
pub open spec fn supported_proto(p: Seq<char>) -> bool {
    ||| p == "http"@
    ||| p == "https"@
    ||| p == "git"@
    ||| p == "git+ssh"@
    ||| p == "git+http"@
    ||| p == "git+https"@
    ||| p == "git+file"@
    ||| p == "ssh"@
    ||| p == "file"@
}

/// The host part of a URL whose `://` sits at `ci`.
pub open spec fn url_host_g(s: Seq<char>, ci: int) -> Seq<char> {
    match find_char_from(s, '/', ci + 3) {
        Some(g) => s.subrange(ci + 3, g),
        None => s.subrange(ci + 3, s.len() as int),
    }
}

/// Position of the `:` of a `user@host:path` git shorthand, if the spec
/// has that shape.
pub open spec fn ssh_colon(s: Seq<char>) -> Option<int> {
    match find_char_from(s, '@', 0) {
        Some(a) => if a >= 1 {
            match find_char_from(s, ':', a) {
                Some(c) => if c > a + 1 && c + 1 < s.len() && (match find_char_from(s, '/', 0) {
                    Some(sl) => sl > c,
                    None => true,
                }) {
                    Some(c)
                } else {
                    None
                },
                None => None,
            }
        } else {
            None
        },
        None => None,
    }
}

/// Git host shorthands (`github:owner/repo` and friends).
pub open spec fn hosted_prefix(s: Seq<char>) -> bool {
    ||| is_prefix("github:"@, s)
    ||| is_prefix("gitlab:"@, s)
    ||| is_prefix("bitbucket:"@, s)
    ||| is_prefix("gist:"@, s)
}

/// Whether the spec is written as an explicit path.
pub open spec fn pathish(s: Seq<char>) -> bool {
    ||| is_prefix("./"@, s)
    ||| is_prefix("../"@, s)
    ||| (s.len() > 0 && s[0] == '/')
}

/// Whether the spec names a tarball file.
pub open spec fn tarball_name(s: Seq<char>) -> bool {
    ||| is_suffix(".tgz"@, s)
    ||| is_suffix(".tar.gz"@, s)
    ||| is_suffix(".tar"@, s)
}

pub open spec fn has_slash(s: Seq<char>) -> bool {
    find_char_from(s, '/', 0) is Some
}

/// Exactly one slash: the `owner/repo` github shorthand shape.
pub open spec fn slash_one(s: Seq<char>) -> bool {
    find_char_from(s, '/', 0) matches Some(i) && find_char_from(s, '/', i + 1) is None
}

/// Position of the `@` separating an alias name from its sub-spec.
pub open spec fn alias_at(rest: Seq<char>) -> Option<int> {
    if rest.len() == 0 {
        None
    } else {
        match rfind_char_upto(rest, '@', rest.len() - 1) {
            Some(a) => if a >= 1 {
                Some(a)
            } else {
                None
            },
            None => None,
        }
    }
}

/// How a spec with no alias prefix must be classified. The branches are
/// tried in the resolver's order of precedence: URLs, then git
/// shorthands, then paths, then ranges, tags and invalid tags.
pub open spec fn plain_ok(b: Seq<char>, sp: ParsedSpec) -> bool {
    if b.len() == 0 {
        sp matches ParsedSpec::Tag(t) && t@ == "latest"@
    } else if url_at(b) is Some {
        let ci = url_at(b)->0;
        let proto = b.subrange(0, ci);
        if proto == "http"@ || proto == "https"@ {
            if known_git_host(url_host_g(b, ci)) {
                sp matches ParsedSpec::Git(g) && (if is_suffix(".git"@, b) {
                    g@ == "git+"@ + b
                } else {
                    g@ == "git+"@ + b + ".git"@
                })
            } else {
                sp matches ParsedSpec::Remote(u) && u@ == b
            }
        } else if proto == "file"@ {
            sp matches ParsedSpec::File(f) && f@ == b.subrange(ci + 3, b.len() as int)
        } else if supported_proto(proto) {
            sp matches ParsedSpec::Git(g) && g@ == b
        } else {
            sp matches ParsedSpec::Invalid(m) && m@ == "EUNSUPPORTEDPROTOCOL"@
        }
    } else if hosted_prefix(b) {
        sp matches ParsedSpec::Git(g) && g@ == b
    } else if ssh_colon(b) is Some {
        let c = ssh_colon(b)->0;
        sp matches ParsedSpec::Git(g) && (if is_suffix(".git"@, b) {
            g@ == "git+ssh://"@ + b.subrange(0, c) + "/"@ + b.subrange(c + 1, b.len() as int)
        } else {
            g@ == "git+ssh://"@ + b.subrange(0, c) + "/"@ + b.subrange(c + 1, b.len() as int)
                + ".git"@
        })
    } else if pathish(b) || (has_slash(b) && !slash_one(b)) {
        if tarball_name(b) {
            sp matches ParsedSpec::File(f) && f@ == b
        } else {
            sp matches ParsedSpec::Directory(d) && d@ == b
        }
    } else if has_slash(b) {
        sp matches ParsedSpec::Git(g) && g@ == "github:"@ + b
    } else {
        ||| sp matches ParsedSpec::Range(_)
        ||| (sp matches ParsedSpec::Tag(t) && t@ == b && tag_name_ok(b))
        ||| (sp matches ParsedSpec::Invalid(m) && m@ == "EINVALIDTAGNAME"@ && !tag_name_ok(b))
    }
}

/// How any spec string must be classified: `npm:name@sub` aliases first,
/// everything else by `plain_ok`.
pub open spec fn spec_ok(b: Seq<char>, sp: ParsedSpec) -> bool {
    if starts_npm(b) {
        let rest = b.subrange(4, b.len() as int);
        match alias_at(rest) {
            Some(a) => sp matches ParsedSpec::Alias(n, o, sub) && n@ == rest.subrange(0, a) && o
                is None && ((sub matches AliasSubspec::Range(_)) || (sub
                matches AliasSubspec::Tag(t) && t@ == rest.subrange(a + 1, rest.len() as int))),
            None => plain_ok(rest, sp),
        }
    } else {
        plain_ok(b, sp)
    }
}

// ------------------------------------------------------------------
// Classification, exec level
// ------------------------------------------------------------------

/// The characters `[from, to)` as a fresh vector.
#[verifier::loop_isolation(false)]
fn subrange_chars(v: &Vec<char>, from: usize, to: usize) -> (r: Vec<char>)
    requires
        from <= to <= v@.len(),
    ensures
        r@ == v@.subrange(from as int, to as int),
{
    let mut r: Vec<char> = Vec::new();
    let mut i: usize = from;
    while i < to
        invariant
            from <= i <= to,
            r@.len() == i - from,
            forall|k: int| 0 <= k < i - from ==> r@[k] == v@[from + k],
        decreases to - i,
    {
        r.push(v[i]);
        i = i + 1;
    }
    proof {
        assert(r@ =~= v@.subrange(from as int, to as int));
    }
    r
}

/// Classifies a spec with no alias prefix.
#[verifier::loop_isolation(false)]
fn classify_plain(s: &str, v: &Vec<char>) -> (sp: ParsedSpec)
    requires
        v@ == s@,
    ensures
        plain_ok(v@, sp),
{
    let n = v.len();
    if n == 0 {
        return ParsedSpec::Tag(String::from_str("latest"));
    }
    match find3(v, ':', '/', '/', 0) {
        Some(ci) => {
            let is_http = range_eq(v, 0, ci, "http") || range_eq(v, 0, ci, "https");
            if is_http {
                let host_end = match find_char(v, '/', ci + 3) {
                    Some(g) => g,
                    None => n,
                };
                let known = range_eq(v, ci + 3, host_end, "github.com") || range_eq(
                    v,
                    ci + 3,
                    host_end,
                    "gitlab.com",
                ) || range_eq(v, ci + 3, host_end, "bitbucket.org") || range_eq(
                    v,
                    ci + 3,
                    host_end,
                    "gist.github.com",
                );
                if known {
                    let mut g = String::from_str("git+");
                    g.append(s);
                    if !has_suffix(v, ".git") {
                        g.append(".git");
                    }
                    return ParsedSpec::Git(g);
                } else {
                    return ParsedSpec::Remote(s.to_owned());
                }
            }
            if range_eq(v, 0, ci, "file") {
                return ParsedSpec::File(s.substring_char(ci + 3, n).to_owned());
            }
            let supported = range_eq(v, 0, ci, "git") || range_eq(v, 0, ci, "git+ssh") || range_eq(
                v,
                0,
                ci,
                "git+http",
            ) || range_eq(v, 0, ci, "git+https") || range_eq(v, 0, ci, "git+file") || range_eq(
                v,
                0,
                ci,
                "ssh",
            );
            if supported {
                return ParsedSpec::Git(s.to_owned());
            }
            return ParsedSpec::Invalid(String::from_str("EUNSUPPORTEDPROTOCOL"));
        },
        None => {},
    }
    if has_prefix(v, "github:") || has_prefix(v, "gitlab:") || has_prefix(v, "bitbucket:")
        || has_prefix(v, "gist:") {
        return ParsedSpec::Git(s.to_owned());
    }
    // user@host:path git shorthand
    let ssh = match find_char(v, '@', 0) {
        Some(a) => if a >= 1 {
            match find_char(v, ':', a) {
                Some(c) => if c > a + 1 && c + 1 < n && (match find_char(v, '/', 0) {
                    Some(sl) => sl > c,
                    None => true,
                }) {
                    Some(c)
                } else {
                    None
                },
                None => None,
            }
        } else {
            None
        },
        None => None,
    };
    match ssh {
        Some(c) => {
            let mut g = String::from_str("git+ssh://");
            g.append(s.substring_char(0, c));
            g.append("/");
            g.append(s.substring_char(c + 1, n));
            if !has_suffix(v, ".git") {
                g.append(".git");
            }
            return ParsedSpec::Git(g);
        },
        None => {},
    }
    let path_prefix = has_prefix(v, "./") || has_prefix(v, "../") || v[0] == '/';
    let slash1 = match find_char(v, '/', 0) {
        Some(i) => match find_char(v, '/', i + 1) {
            Some(_) => false,
            None => true,
        },
        None => false,
    };
    let slash_any = match find_char(v, '/', 0) {
        Some(_) => true,
        None => false,
    };
    if path_prefix || (slash_any && !slash1) {
        let tarball = has_suffix(v, ".tgz") || has_suffix(v, ".tar.gz") || has_suffix(v, ".tar");
        if tarball {
            return ParsedSpec::File(s.to_owned());
        } else {
            return ParsedSpec::Directory(s.to_owned());
        }
    }
    if slash_any {
        let mut g = String::from_str("github:");
        g.append(s);
        return ParsedSpec::Git(g);
    }
    match parse_range(s, v) {
        Some(c) => ParsedSpec::Range(c),
        None => {
            if tag_range_ok(v, 0, n) {
                proof {
                    assert(v@.subrange(0, n as int) =~= v@);
                }
                ParsedSpec::Tag(s.to_owned())
            } else {
                proof {
                    assert(v@.subrange(0, n as int) =~= v@);
                }
                ParsedSpec::Invalid(String::from_str("EINVALIDTAGNAME"))
            }
        },
    }
}

/// Classifies a dependency spec string the way npm's resolver does:
/// alias, URL, git shorthand, path, version range, tag or invalid. It
/// never fails.
pub fn parse_spec_via_node(input: &str) -> (r: Result<ParsedSpec, ParseSpecError>)
    ensures
        r matches Ok(sp) && spec_ok(input@, sp),
{
    let v = chars_vec(input);
    let n = v.len();
    let npm = n >= 4 && v[0] == 'n' && v[1] == 'p' && v[2] == 'm' && v[3] == ':';
    if npm {
        let rest_str = input.substring_char(4, n);
        let rest_v = subrange_chars(&v, 4, n);
        let rn = rest_v.len();
        let at = if rn == 0 {
            None
        } else {
            match rfind_char(&rest_v, '@', rn - 1) {
                Some(a) => if a >= 1 {
                    Some(a)
                } else {
                    None
                },
                None => None,
            }
        };
        match at {
            Some(a) => {
                let name = rest_str.substring_char(0, a).to_owned();
                let sub_str = rest_str.substring_char(a + 1, rn);
                let sub_v = subrange_chars(&rest_v, a + 1, rn);
                let sub = match parse_range(sub_str, &sub_v) {
                    Some(c) => AliasSubspec::Range(c),
                    None => AliasSubspec::Tag(sub_str.to_owned()),
                };
                Ok(ParsedSpec::Alias(name, None, sub))
            },
            None => Ok(classify_plain(rest_str, &rest_v)),
        }
    } else {
        Ok(classify_plain(input, &v))
    }
}

/// The dedicated path-spec parser: file and directory specs only.
pub struct SpecParser;

impl SpecParser {
    /// Parses a path spec: a tarball path is a file spec, any other path
    /// is a directory spec, and anything that is not a path is refused.
    pub fn parse_str(input: &str) -> (r: Result<ParsedSpec, ParseSpecError>)
        ensures
            if pathish(input@) || has_slash(input@) {
                if tarball_name(input@) {
                    r matches Ok(sp) && sp matches ParsedSpec::File(f) && f@ == input@
                } else {
                    r matches Ok(sp) && sp matches ParsedSpec::Directory(d) && d@ == input@
                }
            } else {
                r matches Err(e) && e matches ParseSpecError::Other(m) && m@ == "todo"@
            },
    {
        let v = chars_vec(input);
        let path_prefix = has_prefix(&v, "./") || has_prefix(&v, "../") || (v.len() > 0 && v[0]
            == '/');
        let slash_any = match find_char(&v, '/', 0) {
            Some(_) => true,
            None => false,
        };
        if path_prefix || slash_any {
            let tarball = has_suffix(&v, ".tgz") || has_suffix(&v, ".tar.gz") || has_suffix(
                &v,
                ".tar",
            );
            if tarball {
                Ok(ParsedSpec::File(input.to_owned()))
            } else {
                Ok(ParsedSpec::Directory(input.to_owned()))
            }
        } else {
            Err(ParseSpecError::Other(String::from_str("todo")))
        }
    }
}

} // verus!
