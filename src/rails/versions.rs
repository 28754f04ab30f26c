//! The catalog of Rails releases under test, and its selection by a semver requirement.
use vstd::prelude::*;

use crate::text::{
    concat_three, decimal, decimal_string, lemma_cut_at_dot, lemma_decimal_injective,
    lemma_decimal_shape,
};

verus! {

/// A release number: major, minor and patch components.
#[derive(Clone, Copy, Debug, PartialEq, Eq, Hash, Structural)]
pub struct ReleaseVersion {
    pub major: u64,
    pub minor: u64,
    pub patch: u64,
}

/// `major.minor.patch` in base ten.
pub open spec fn version_text(v: ReleaseVersion) -> Seq<char> {
    decimal(v.major as nat) + seq!['.'] + decimal(v.minor as nat) + seq!['.'] + decimal(
        v.patch as nat,
    )
}

impl ReleaseVersion {
    /// Whether this release comes before `other`.
    pub fn precedes(&self, other: &ReleaseVersion) -> (r: bool)
        ensures
            r == release_lt(*self, *other),
    {
        self.major < other.major || (self.major == other.major && (self.minor < other.minor || (
        self.minor == other.minor && self.patch < other.patch)))
    }

    /// Renders the release as `major.minor.patch`.
    pub fn to_text(&self) -> (r: String)
        ensures
            r@ == version_text(*self),
    {
        let dot = ".";
        proof {
            reveal_strlit(".");
        }
        let major = decimal_string(self.major);
        let minor = decimal_string(self.minor);
        let patch = decimal_string(self.patch);
        let head = concat_three(major.as_str(), dot, minor.as_str());
        let r = concat_three(head.as_str(), dot, patch.as_str());
        assert(dot@ == seq!['.']);
        r
    }
}

/// Distinct releases render differently.
pub proof fn lemma_version_text_injective(a: ReleaseVersion, b: ReleaseVersion)
    requires
        version_text(a) == version_text(b),
    ensures
        a == b,
{
    let dot = seq!['.'];
    let (a1, a2, a3) = (decimal(a.major as nat), decimal(a.minor as nat), decimal(a.patch as nat));
    let (b1, b2, b3) = (decimal(b.major as nat), decimal(b.minor as nat), decimal(b.patch as nat));
    lemma_decimal_shape(a.major as nat);
    lemma_decimal_shape(b.major as nat);
    lemma_decimal_shape(a.minor as nat);
    lemma_decimal_shape(b.minor as nat);
    assert(version_text(a) =~= a1 + dot + (a2 + dot + a3));
    assert(version_text(b) =~= b1 + dot + (b2 + dot + b3));
    lemma_cut_at_dot(a1, a2 + dot + a3, b1, b2 + dot + b3);
    lemma_cut_at_dot(a2, a3, b2, b3);
    lemma_decimal_injective(a.major as nat, b.major as nat);
    lemma_decimal_injective(a.minor as nat, b.minor as nat);
    lemma_decimal_injective(a.patch as nat, b.patch as nat);
}

/// What a catalog entry is: the Ruby image tag, the Rails release and its patch set.
pub struct RailsVersionView {
    pub ruby: Seq<char>,
    pub rails: ReleaseVersion,
    pub patch: Seq<char>,
}

/// One entry of the catalog.
#[derive(Debug)]
pub struct RailsVersion {
    pub ruby: String,
    pub rails: ReleaseVersion,
    pub patch: String,
}

impl View for RailsVersion {
    type V = RailsVersionView;

    open spec fn view(&self) -> RailsVersionView {
        RailsVersionView { ruby: self.ruby@, rails: self.rails, patch: self.patch@ }
    }
}

/// The views of a sequence of catalog entries.
pub open spec fn version_views(v: Seq<RailsVersion>) -> Seq<RailsVersionView> {
    v.map_values(|x: RailsVersion| x@)
}

pub open spec fn entry(
    ruby: Seq<char>,
    major: u64,
    minor: u64,
    patch: u64,
    patchfile: Seq<char>,
) -> RailsVersionView {
    RailsVersionView {
        ruby,
        rails: ReleaseVersion { major, minor, patch },
        patch: patchfile,
    }
}

/// The releases known to this tool, in ascending order of Ruby tag and release.
pub open spec fn catalog() -> Seq<RailsVersionView> {
    seq![
        entry("3.0.7"@, 7, 0, 0, "7.0.x"@),
        entry("3.3.7"@, 7, 0, 1, "7.0.x"@),
        entry("3.3.7"@, 7, 0, 2, "7.0.x"@),
        entry("3.3.7"@, 7, 0, 3, "7.0.x"@),
        entry("3.3.7"@, 7, 0, 4, "7.0.x"@),
        entry("3.3.7"@, 7, 0, 5, "7.0.x"@),
        entry("3.3.7"@, 7, 0, 6, "7.0.x"@),
        entry("3.3.7"@, 7, 0, 7, "7.0.x"@),
        entry("3.3.7"@, 7, 0, 8, "7.0.x"@),
        entry("latest"@, 7, 1, 0, "none"@),
        entry("latest"@, 7, 1, 1, "none"@),
        entry("latest"@, 7, 1, 2, "none"@),
        entry("latest"@, 7, 1, 3, "none"@),
        entry("latest"@, 7, 1, 4, "none"@),
        entry("latest"@, 7, 1, 5, "none"@),
        entry("latest"@, 7, 2, 0, "none"@),
        entry("latest"@, 7, 2, 1, "none"@),
        entry("latest"@, 7, 2, 2, "none"@),
        entry("latest"@, 8, 0, 0, "none"@),
        entry("latest"@, 8, 0, 1, "none"@),
    ]
}

pub const CATALOG_LEN: usize = 20;

/// Whether release `a` comes before release `b`.
pub open spec fn release_lt(a: ReleaseVersion, b: ReleaseVersion) -> bool {
    a.major < b.major || (a.major == b.major && (a.minor < b.minor || (a.minor == b.minor
        && a.patch < b.patch)))
}

/// Whether the releases of `vs` strictly ascend.
pub open spec fn ascending(vs: Seq<RailsVersionView>) -> bool {
    forall|i: int, j: int| 0 <= i < j < vs.len() ==> release_lt(vs[i].rails, vs[j].rails)
}

/// The order of releases is transitive.
pub proof fn lemma_release_lt_transitive(a: ReleaseVersion, b: ReleaseVersion, c: ReleaseVersion)
    requires
        release_lt(a, b),
        release_lt(b, c),
    ensures
        release_lt(a, c),
{
}

/// Releases that ascend from each entry to the next ascend throughout.
#[verifier::rlimit(30)]
proof fn lemma_ascending_from_neighbours(vs: Seq<RailsVersionView>)
    requires
        forall|i: int| 0 <= i < vs.len() - 1 ==> release_lt(#[trigger] vs[i].rails, vs[i + 1].rails),
    ensures
        ascending(vs),
    decreases vs.len(),
{
    if vs.len() > 0 {
        let init = vs.drop_last();
        assert forall|i: int| 0 <= i < init.len() - 1 implies release_lt(
            #[trigger] init[i].rails,
            init[i + 1].rails,
        ) by {
            assert(init[i] == vs[i] && init[i + 1] == vs[i + 1]);
        }
        lemma_ascending_from_neighbours(init);
        assert forall|i: int, j: int| 0 <= i < j < vs.len() implies release_lt(
            vs[i].rails,
            vs[j].rails,
        ) by {
            if j < vs.len() - 1 {
                assert(init[i] == vs[i] && init[j] == vs[j]);
            } else {
                let k = j - 1;
                assert(release_lt(vs[k].rails, vs[j].rails));
                if i < k {
                    assert(init[i] == vs[i] && init[k] == vs[k]);
                    assert(release_lt(init[i].rails, init[k].rails));
                    lemma_release_lt_transitive(vs[i].rails, vs[k].rails, vs[j].rails);
                }
            }
        }
    }
}

/// The catalog lists its releases in ascending order.
pub proof fn lemma_catalog_ascending()
    ensures
        ascending(catalog()),
{
    let c = catalog();
    assert forall|i: int| 0 <= i < c.len() - 1 implies release_lt(
        #[trigger] c[i].rails,
        c[i + 1].rails,
    ) by {
        assert(c[0].rails == ReleaseVersion { major: 7, minor: 0, patch: 0 });
        assert(c[1].rails == ReleaseVersion { major: 7, minor: 0, patch: 1 });
        assert(c[2].rails == ReleaseVersion { major: 7, minor: 0, patch: 2 });
        assert(c[3].rails == ReleaseVersion { major: 7, minor: 0, patch: 3 });
        assert(c[4].rails == ReleaseVersion { major: 7, minor: 0, patch: 4 });
        assert(c[5].rails == ReleaseVersion { major: 7, minor: 0, patch: 5 });
        assert(c[6].rails == ReleaseVersion { major: 7, minor: 0, patch: 6 });
        assert(c[7].rails == ReleaseVersion { major: 7, minor: 0, patch: 7 });
        assert(c[8].rails == ReleaseVersion { major: 7, minor: 0, patch: 8 });
        assert(c[9].rails == ReleaseVersion { major: 7, minor: 1, patch: 0 });
        assert(c[10].rails == ReleaseVersion { major: 7, minor: 1, patch: 1 });
        assert(c[11].rails == ReleaseVersion { major: 7, minor: 1, patch: 2 });
        assert(c[12].rails == ReleaseVersion { major: 7, minor: 1, patch: 3 });
        assert(c[13].rails == ReleaseVersion { major: 7, minor: 1, patch: 4 });
        assert(c[14].rails == ReleaseVersion { major: 7, minor: 1, patch: 5 });
        assert(c[15].rails == ReleaseVersion { major: 7, minor: 2, patch: 0 });
        assert(c[16].rails == ReleaseVersion { major: 7, minor: 2, patch: 1 });
        assert(c[17].rails == ReleaseVersion { major: 7, minor: 2, patch: 2 });
        assert(c[18].rails == ReleaseVersion { major: 8, minor: 0, patch: 0 });
        assert(c[19].rails == ReleaseVersion { major: 8, minor: 0, patch: 1 });
    }
    lemma_ascending_from_neighbours(c);
}

/// Keeping some entries of an ascending sequence keeps it ascending.
pub proof fn lemma_filter_ascending(vs: Seq<RailsVersionView>, p: spec_fn(RailsVersionView) -> bool)
    requires
        ascending(vs),
    ensures
        ascending(vs.filter(p)),
    decreases vs.len(),
{
    reveal(Seq::filter);
    if vs.len() > 0 {
        let init = vs.drop_last();
        assert forall|i: int, j: int| 0 <= i < j < init.len() implies release_lt(
            init[i].rails,
            init[j].rails,
        ) by {
            assert(init[i] == vs[i] && init[j] == vs[j]);
        }
        lemma_filter_ascending(init, p);
        let f = init.filter(p);
        if p(vs.last()) {
            assert(vs.filter(p) == f.push(vs.last()));
            assert forall|i: int| 0 <= i < f.len() implies release_lt(
                #[trigger] f[i].rails,
                vs.last().rails,
            ) by {
                init.lemma_filter_contains_rev(p, f[i]);
                let k = choose|k: int| 0 <= k < init.len() && init[k] == f[i];
                assert(vs[k] == init[k]);
            }
            let g = f.push(vs.last());
            assert forall|i: int, j: int| 0 <= i < j < g.len() implies release_lt(
                g[i].rails,
                g[j].rails,
            ) by {
                if j < f.len() {
                    assert(g[i] == f[i] && g[j] == f[j]);
                } else {
                    assert(g[i] == f[i]);
                }
            }
        } else {
            assert(vs.filter(p) == f);
        }
    }
}

impl RailsVersion {
    /// An entry built from its parts.
    pub fn new(ruby: &str, major: u64, minor: u64, patch: u64, patchfile: &str) -> (r: Self)
        ensures
            r@ == entry(ruby@, major, minor, patch, patchfile@),
    {
        RailsVersion {
            ruby: ruby.to_owned(),
            rails: ReleaseVersion { major, minor, patch },
            patch: patchfile.to_owned(),
        }
    }

    /// A copy of this entry.
    pub fn duplicate(&self) -> (r: Self)
        ensures
            r@ == self@,
    {
        RailsVersion { ruby: self.ruby.clone(), rails: self.rails, patch: self.patch.clone() }
    }

    /// Whether two entries are the same (Ruby tag, release, patch set).
    pub fn same_as(&self, other: &RailsVersion) -> (r: bool)
        ensures
            r == (self@ == other@),
    {
        self.ruby == other.ruby && self.rails == other.rails && self.patch == other.patch
    }
}

/// The catalog, in its order.
#[verifier::rlimit(40)]
pub fn rails_catalog() -> (r: Vec<RailsVersion>)
    ensures
        version_views(r@) == catalog(),
        r@.len() == CATALOG_LEN,
{
    let mut v: Vec<RailsVersion> = Vec::new();
    v.push(RailsVersion::new("3.0.7", 7, 0, 0, "7.0.x"));
    v.push(RailsVersion::new("3.3.7", 7, 0, 1, "7.0.x"));
    v.push(RailsVersion::new("3.3.7", 7, 0, 2, "7.0.x"));
    v.push(RailsVersion::new("3.3.7", 7, 0, 3, "7.0.x"));
    v.push(RailsVersion::new("3.3.7", 7, 0, 4, "7.0.x"));
    v.push(RailsVersion::new("3.3.7", 7, 0, 5, "7.0.x"));
    v.push(RailsVersion::new("3.3.7", 7, 0, 6, "7.0.x"));
    v.push(RailsVersion::new("3.3.7", 7, 0, 7, "7.0.x"));
    v.push(RailsVersion::new("3.3.7", 7, 0, 8, "7.0.x"));
    v.push(RailsVersion::new("latest", 7, 1, 0, "none"));
    v.push(RailsVersion::new("latest", 7, 1, 1, "none"));
    v.push(RailsVersion::new("latest", 7, 1, 2, "none"));
    v.push(RailsVersion::new("latest", 7, 1, 3, "none"));
    v.push(RailsVersion::new("latest", 7, 1, 4, "none"));
    v.push(RailsVersion::new("latest", 7, 1, 5, "none"));
    v.push(RailsVersion::new("latest", 7, 2, 0, "none"));
    v.push(RailsVersion::new("latest", 7, 2, 1, "none"));
    v.push(RailsVersion::new("latest", 7, 2, 2, "none"));
    v.push(RailsVersion::new("latest", 8, 0, 0, "none"));
    v.push(RailsVersion::new("latest", 8, 0, 1, "none"));
    assert(version_views(v@) =~= catalog());
    v
}

#[verifier::external_type_specification]
#[verifier::external_body]
pub struct ExVersionReq(semver::VersionReq);

/// Whether `text` is a semver requirement, as `semver::VersionReq::parse` reads it.
pub uninterp spec fn requirement_parses(text: Seq<char>) -> bool;

/// Whether the requirement written `text` admits the release `major.minor.patch`, as
/// `semver::VersionReq::matches` decides it.
pub uninterp spec fn requirement_admits(text: Seq<char>, major: u64, minor: u64, patch: u64) -> bool;

/// Whether the requirement written `text` admits the release of `e`.
pub open spec fn admits_entry(text: Seq<char>, e: RailsVersionView) -> bool {
    requirement_admits(text, e.rails.major, e.rails.minor, e.rails.patch)
}

/// The catalog entries that the requirement written `text` selects: none when the text is
/// no requirement.
pub open spec fn resolved(text: Seq<char>) -> Seq<RailsVersionView> {
    if requirement_parses(text) {
        catalog().filter(|e: RailsVersionView| admits_entry(text, e))
    } else {
        Seq::empty()
    }
}

/// A parsed semver requirement, with the text it was parsed from.
pub struct VersionRequirement {
    text: String,
    parsed: semver::VersionReq,
}

/// Relies on `semver::VersionReq::parse`: whether it succeeds depends on the text alone.
#[verifier::external_body]
fn parse_requirement(text: &str) -> (r: Option<VersionRequirement>)
    ensures
        r is Some == requirement_parses(text@),
        r matches Some(q) ==> q.text() == text@,
{
    match semver::VersionReq::parse(text) {
        Ok(parsed) => Some(VersionRequirement { text: text.to_string(), parsed }),
        Err(_) => None,
    }
}

impl VersionRequirement {
    /// The text the requirement was parsed from.
    pub closed spec fn text(&self) -> Seq<char> {
        self.text@
    }

    /// Parses a requirement such as `>=7.0, <8.0`; `None` when the text is none.
    pub fn parse(text: &str) -> (r: Option<VersionRequirement>)
        ensures
            r is Some == requirement_parses(text@),
            r matches Some(q) ==> q.text() == text@,
    {
        parse_requirement(text)
    }

    /// The text the requirement was parsed from.
    pub fn as_text(&self) -> (r: &str)
        ensures
            r@ == self.text(),
    {
        self.text.as_str()
    }

    /// Relies on `semver::VersionReq::matches`, on the release `major.minor.patch` with no
    /// pre-release or build part. The requirement was parsed from `self.text()`, which the
    /// private fields keep together.
    #[verifier::external_body]
    fn matches_release(&self, v: &ReleaseVersion) -> (r: bool)
        ensures
            r == requirement_admits(self.text(), v.major, v.minor, v.patch),
    {
        self.parsed.matches(&semver::Version::new(v.major, v.minor, v.patch))
    }

    /// Whether this requirement admits the release `v`.
    pub fn admits(&self, v: &ReleaseVersion) -> (r: bool)
        ensures
            r == requirement_admits(self.text(), v.major, v.minor, v.patch),
    {
        self.matches_release(v)
    }
}

/// The catalog entries whose release the requirement admits, in catalog order.
pub fn match_versions(requirement: &VersionRequirement) -> (r: Vec<RailsVersion>)
    ensures
        version_views(r@) == catalog().filter(
            |e: RailsVersionView| admits_entry(requirement.text(), e),
        ),
{
    let all = rails_catalog();
    let ghost pred = |e: RailsVersionView| admits_entry(requirement.text(), e);
    let mut out: Vec<RailsVersion> = Vec::new();
    let mut i: usize = 0;
    assert(catalog().take(0).filter(pred) =~= Seq::<RailsVersionView>::empty());
    while i < all.len()
        invariant
            version_views(all@) == catalog(),
            pred == (|e: RailsVersionView| admits_entry(requirement.text(), e)),
            i <= all@.len(),
            version_views(out@) == catalog().take(i as int).filter(pred),
        decreases all@.len() - i,
    {
        let ghost before = version_views(out@);
        assert(catalog().take(i as int + 1) =~= catalog().take(i as int).push(catalog()[i as int]));
        proof {
            catalog().take(i as int).lemma_filter_push(catalog()[i as int], pred);
        }
        assert(all@[i as int]@ == version_views(all@)[i as int]);
        let keep = requirement.admits(&all[i].rails);
        assert(keep == pred(catalog()[i as int]));
        if keep {
            let e = all[i].duplicate();
            out.push(e);
            assert(version_views(out@) =~= before.push(e@));
        }
        i += 1;
    }
    assert(catalog().take(all@.len() as int) =~= catalog());
    out
}

/// The catalog entries that the requirement written `text` selects, in catalog order; none
/// when the text is no requirement.
pub fn resolve(text: &str) -> (r: Vec<RailsVersion>)
    ensures
        version_views(r@) == resolved(text@),
{
    match VersionRequirement::parse(text) {
        Some(q) => match_versions(&q),
        None => {
            let r: Vec<RailsVersion> = Vec::new();
            assert(version_views(r@) =~= Seq::<RailsVersionView>::empty());
            r
        },
    }
}

} // verus!
