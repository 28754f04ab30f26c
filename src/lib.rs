//! Version-matrix orchestration for checking how Rails releases encrypt their cookies.
use vstd::prelude::*;

pub mod containers;
pub mod docker;
pub mod rails;
pub mod run;
pub mod text;

use containers::{
    record_views, records_in_order, ContainerRecord, ContainerRecordView, ContainerSpec,
    ContainerSpecView, Poller, APP_PORT, BASE_PORT,
};
use docker::{
    as_ints, first_missing, full_tag, image_namespace, lemma_fresh_cache_builds_every_tag,
    lemma_missing_tags_distinct, missing_images, missing_positions, namespace,
    positions, BuildArchive, BuildJob, BuildJobView, ImageCache,
};
use rails::versions::{
    admits_entry, ascending, catalog, lemma_catalog_ascending, lemma_filter_ascending,
    lemma_release_lt_transitive, lemma_version_text_injective, release_lt,
    rails_catalog, requirement_parses, version_text, version_views, RailsVersion,
    RailsVersionView, VersionRequirement,
};
use text::{concat_two, views};

verus! {

/// `s.filter(p)` and `s.filter(q)` agree when `p` and `q` agree on the elements of `s`.
pub proof fn lemma_filter_congruent<A>(s: Seq<A>, p: spec_fn(A) -> bool, q: spec_fn(A) -> bool)
    requires
        forall|i: int| 0 <= i < s.len() ==> p(s[i]) == q(s[i]),
    ensures
        s.filter(p) == s.filter(q),
    decreases s.len(),
{
    reveal(Seq::filter);
    if s.len() > 0 {
        let t = s.drop_last();
        assert forall|i: int| 0 <= i < t.len() implies p(t[i]) == q(t[i]) by {
            assert(t[i] == s[i]);
        }
        lemma_filter_congruent(t, p, q);
        assert(p(s[s.len() - 1]) == q(s[s.len() - 1]));
    }
}

/// Tag of the Ruby base image for the Ruby tag `ruby`.
pub open spec fn base_tag(ruby: Seq<char>) -> Seq<char> {
    "ruby-base-"@ + ruby
}

/// Tag of the image of the entry `e`.
pub open spec fn release_tag(e: RailsVersionView) -> Seq<char> {
    "rails-v"@ + version_text(e.rails)
}

/// The build of the Ruby base image for `ruby`.
pub open spec fn base_job(ruby: Seq<char>) -> BuildJobView {
    BuildJobView {
        key: ruby,
        image_tag: namespace() + base_tag(ruby),
        archive: BuildArchive::RubyBase,
        build_args: seq![("BASE_IMAGE_TAG"@, ruby)],
    }
}

/// The build of the image of the entry `e`.
pub open spec fn release_job(e: RailsVersionView) -> BuildJobView {
    BuildJobView {
        key: version_text(e.rails),
        image_tag: namespace() + release_tag(e),
        archive: BuildArchive::RailsVersions,
        build_args: seq![
            ("BASE_IMAGE_TAG"@, e.ruby),
            ("RAILS_VERSION_TAG"@, version_text(e.rails)),
            ("RAILS_PATCH"@, e.patch),
        ],
    }
}

/// The builds at the given positions of `vs`, each made by `job`.
pub open spec fn jobs_at(
    vs: Seq<RailsVersionView>,
    picked: Seq<int>,
    job: spec_fn(RailsVersionView) -> BuildJobView,
) -> Seq<BuildJobView> {
    picked.map_values(|i: int| job(vs[i]))
}

/// The views of a list of build jobs.
pub open spec fn job_views(v: Seq<BuildJob>) -> Seq<BuildJobView> {
    v.map_values(|j: BuildJob| j@)
}

/// The build of the Ruby base image for `ruby`.
pub fn base_build_job(ruby: &str) -> (r: BuildJob)
    ensures
        r@ == base_job(ruby@),
{
    let tag = concat_two("ruby-base-", ruby);
    let image_tag = concat_two(image_namespace(), tag.as_str());
    let mut build_args: Vec<(String, String)> = Vec::new();
    build_args.push(("BASE_IMAGE_TAG".to_owned(), ruby.to_owned()));
    let r = BuildJob { key: ruby.to_owned(), image_tag, archive: BuildArchive::RubyBase, build_args };
    assert(r@.build_args =~= base_job(ruby@).build_args);
    assert(r@.image_tag =~= base_job(ruby@).image_tag);
    r
}

/// The build of the image of the entry `v`.
pub fn release_build_job(v: &RailsVersion) -> (r: BuildJob)
    ensures
        r@ == release_job(v@),
{
    let text = v.rails.to_text();
    let tag = concat_two("rails-v", text.as_str());
    let image_tag = concat_two(image_namespace(), tag.as_str());
    let mut build_args: Vec<(String, String)> = Vec::new();
    build_args.push(("BASE_IMAGE_TAG".to_owned(), v.ruby.clone()));
    build_args.push(("RAILS_VERSION_TAG".to_owned(), text.clone()));
    build_args.push(("RAILS_PATCH".to_owned(), v.patch.clone()));
    let r = BuildJob {
        key: text,
        image_tag,
        archive: BuildArchive::RailsVersions,
        build_args,
    };
    assert(r@.build_args =~= release_job(v@).build_args);
    assert(r@.image_tag =~= release_job(v@).image_tag);
    r
}

/// How the container of the entry `e`, at position `i` of the releases under test, is
/// created.
pub open spec fn container_spec(
    e: RailsVersionView,
    i: int,
    secret: Seq<char>,
    canary: Seq<char>,
) -> ContainerSpecView {
    ContainerSpecView {
        rails_version: version_text(e.rails),
        image_tag: namespace() + release_tag(e),
        container_name: "rails-cookies-everywhere-"@ + release_tag(e),
        env: seq!["SECRET_KEY_BASE="@ + secret, "CANARY_VALUE="@ + canary],
        app_port: APP_PORT,
        host_port: (BASE_PORT + i) as u16,
    }
}

/// Whether `vs` is a selection of catalog entries, kept in catalog order.
pub open spec fn is_selection(vs: Seq<RailsVersionView>) -> bool {
    vs == catalog().filter(|e: RailsVersionView| vs.contains(e))
}

/// Whether `v` is among the entries of `vs`.
pub fn contains_version(vs: &Vec<RailsVersion>, v: &RailsVersion) -> (r: bool)
    ensures
        r == version_views(vs@).contains(v@),
{
    let mut i: usize = 0;
    while i < vs.len()
        invariant
            i <= vs@.len(),
            forall|k: int| 0 <= k < i ==> vs@[k]@ != v@,
        decreases vs@.len() - i,
    {
        if vs[i].same_as(v) {
            assert(version_views(vs@)[i as int] == v@);
            return true;
        }
        i += 1;
    }
    assert forall|k: int| 0 <= k < version_views(vs@).len() implies version_views(vs@)[k] != v@ by {
        assert(version_views(vs@)[k] == vs@[k]@);
    }
    false
}

/// One run of the matrix: the secret and canary handed to every instance, the releases under
/// test and the containers started for them.
pub struct RailsCookiesMonster {
    secret: String,
    canary: String,
    versions: Vec<RailsVersion>,
    containers: Vec<ContainerRecord>,
}

impl RailsCookiesMonster {
    /// The releases under test, in catalog order.
    pub closed spec fn versions_view(&self) -> Seq<RailsVersionView> {
        version_views(self.versions@)
    }

    /// The containers started so far.
    pub closed spec fn containers_view(&self) -> Seq<ContainerRecordView> {
        record_views(self.containers@)
    }

    /// The secret key base handed to every instance.
    pub closed spec fn secret_view(&self) -> Seq<char> {
        self.secret@
    }

    /// The canary value handed to every instance.
    pub closed spec fn canary_view(&self) -> Seq<char> {
        self.canary@
    }

    /// The releases under test form a selection of the catalog, and the containers were
    /// recorded in ascending order of release.
    pub open spec fn wf(&self) -> bool {
        &&& is_selection(self.versions_view())
        &&& records_in_order(self.containers_view())
    }

    /// A run with no release selected yet. An absent secret or canary takes its default value.
    pub fn new(secret: Option<String>, canary: Option<String>) -> (r: Self)
        ensures
            r.wf(),
            r.versions_view().len() == 0,
            r.containers_view().len() == 0,
            r.secret_view() == match secret {
                Some(s) => s@,
                None => "rails-cookies-everywhere"@,
            },
            r.canary_view() == match canary {
                Some(c) => c@,
                None => "correct-horse-battery-staple"@,
            },
    {
        let secret = match secret {
            Some(s) => s,
            None => "rails-cookies-everywhere".to_owned(),
        };
        let canary = match canary {
            Some(c) => c,
            None => "correct-horse-battery-staple".to_owned(),
        };
        let r = RailsCookiesMonster {
            secret,
            canary,
            versions: Vec::new(),
            containers: Vec::new(),
        };
        assert(r.versions_view() =~= Seq::<RailsVersionView>::empty());
        assert(r.containers_view() =~= Seq::<ContainerRecordView>::empty());
        let ghost p = |e: RailsVersionView| r.versions_view().contains(e);
        assert(catalog().filter(p) =~= Seq::<RailsVersionView>::empty()) by {
            if catalog().filter(p).len() > 0 {
                catalog().lemma_filter_contains_rev(p, catalog().filter(p)[0]);
            }
        }
        r
    }

    /// The secret key base handed to every instance.
    pub fn secret(&self) -> (r: &str)
        ensures
            r@ == self.secret_view(),
    {
        self.secret.as_str()
    }

    /// The canary value handed to every instance.
    pub fn canary(&self) -> (r: &str)
        ensures
            r@ == self.canary_view(),
    {
        self.canary.as_str()
    }

    /// Number of releases under test.
    pub fn version_count(&self) -> (r: usize)
        ensures
            r == self.versions_view().len(),
    {
        self.versions.len()
    }

    /// Adds the catalog entries that the requirement written `text` admits. Text that is no
    /// requirement changes nothing.
    pub fn add_version_requirement(&mut self, text: &str)
        requires
            old(self).wf(),
        ensures
            final(self).wf(),
            final(self).secret_view() == old(self).secret_view(),
            final(self).canary_view() == old(self).canary_view(),
            final(self).containers_view() == old(self).containers_view(),
            final(self).versions_view() == if requirement_parses(text@) {
                catalog().filter(
                    |e: RailsVersionView|
                        old(self).versions_view().contains(e) || admits_entry(text@, e),
                )
            } else {
                old(self).versions_view()
            },
    {
        let requirement = match VersionRequirement::parse(text) {
            Some(q) => q,
            None => return ,
        };
        let ghost before = self.versions_view();
        let ghost pred = |e: RailsVersionView| before.contains(e) || admits_entry(text@, e);
        let all = rails_catalog();
        let mut out: Vec<RailsVersion> = Vec::new();
        let mut i: usize = 0;
        assert(catalog().take(0).filter(pred) =~= Seq::<RailsVersionView>::empty());
        while i < all.len()
            invariant
                version_views(all@) == catalog(),
                before == version_views(self.versions@),
                requirement.text() == text@,
                pred == (|e: RailsVersionView| before.contains(e) || admits_entry(text@, e)),
                i <= all@.len(),
                version_views(out@) == catalog().take(i as int).filter(pred),
            decreases all@.len() - i,
        {
            let ghost prev = version_views(out@);
            assert(catalog().take(i as int + 1) =~= catalog().take(i as int).push(
                catalog()[i as int],
            ));
            proof {
                catalog().take(i as int).lemma_filter_push(catalog()[i as int], pred);
            }
            assert(all@[i as int]@ == version_views(all@)[i as int]);
            let keep = contains_version(&self.versions, &all[i]) || requirement.admits(
                &all[i].rails,
            );
            assert(keep == pred(catalog()[i as int]));
            if keep {
                let e = all[i].duplicate();
                out.push(e);
                assert(version_views(out@) =~= prev.push(e@));
            }
            i += 1;
        }
        assert(catalog().take(all@.len() as int) =~= catalog());
        self.versions = out;
        let ghost now = self.versions_view();
        assert forall|k: int| 0 <= k < catalog().len() implies pred(catalog()[k]) == now.contains(
            catalog()[k],
        ) by {
            if pred(catalog()[k]) {
                catalog().lemma_filter_contains(pred, k);
            }
            if now.contains(catalog()[k]) {
                catalog().lemma_filter_contains_rev(pred, catalog()[k]);
            }
        }
        proof {
            lemma_filter_congruent(catalog(), pred, |e: RailsVersionView| now.contains(e));
        }
    }

    /// The Ruby image tag of each release under test, in catalog order (which sorts them).
    pub fn ruby_versions(&self) -> (r: Vec<String>)
        ensures
            views(r@) == self.versions_view().map_values(|e: RailsVersionView| e.ruby),
    {
        let mut out: Vec<String> = Vec::new();
        let mut i: usize = 0;
        while i < self.versions.len()
            invariant
                i <= self.versions@.len(),
                views(out@) == self.versions_view().take(i as int).map_values(
                    |e: RailsVersionView| e.ruby,
                ),
            decreases self.versions@.len() - i,
        {
            let ghost prev = views(out@);
            let s = self.versions[i].ruby.clone();
            out.push(s);
            assert(views(out@) =~= prev.push(s@));
            assert(self.versions_view().take(i as int + 1) =~= self.versions_view().take(
                i as int,
            ).push(self.versions@[i as int]@));
            assert(views(out@) =~= self.versions_view().take(i as int + 1).map_values(
                |e: RailsVersionView| e.ruby,
            ));
            i += 1;
        }
        assert(self.versions_view().take(self.versions@.len() as int) =~= self.versions_view());
        out
    }

    /// The tag of the Ruby base image of each release under test, in catalog order.
    pub fn base_image_tags(&self) -> (r: Vec<String>)
        ensures
            views(r@) == self.versions_view().map_values(|e: RailsVersionView| base_tag(e.ruby)),
    {
        let mut out: Vec<String> = Vec::new();
        let mut i: usize = 0;
        while i < self.versions.len()
            invariant
                i <= self.versions@.len(),
                views(out@) == self.versions_view().take(i as int).map_values(
                    |e: RailsVersionView| base_tag(e.ruby),
                ),
            decreases self.versions@.len() - i,
        {
            let ghost prev = views(out@);
            let s = concat_two("ruby-base-", self.versions[i].ruby.as_str());
            out.push(s);
            assert(views(out@) =~= prev.push(s@));
            assert(self.versions_view().take(i as int + 1) =~= self.versions_view().take(
                i as int,
            ).push(self.versions@[i as int]@));
            assert(views(out@) =~= self.versions_view().take(i as int + 1).map_values(
                |e: RailsVersionView| base_tag(e.ruby),
            ));
            i += 1;
        }
        assert(self.versions_view().take(self.versions@.len() as int) =~= self.versions_view());
        out
    }

    /// The tag of the image of each release under test, in catalog order.
    pub fn release_image_tags(&self) -> (r: Vec<String>)
        ensures
            views(r@) == self.versions_view().map_values(|e: RailsVersionView| release_tag(e)),
    {
        let mut out: Vec<String> = Vec::new();
        let mut i: usize = 0;
        while i < self.versions.len()
            invariant
                i <= self.versions@.len(),
                views(out@) == self.versions_view().take(i as int).map_values(
                    |e: RailsVersionView| release_tag(e),
                ),
            decreases self.versions@.len() - i,
        {
            let ghost prev = views(out@);
            let text = self.versions[i].rails.to_text();
            let s = concat_two("rails-v", text.as_str());
            out.push(s);
            assert(views(out@) =~= prev.push(s@));
            assert(self.versions_view().take(i as int + 1) =~= self.versions_view().take(
                i as int,
            ).push(self.versions@[i as int]@));
            assert(views(out@) =~= self.versions_view().take(i as int + 1).map_values(
                |e: RailsVersionView| release_tag(e),
            ));
            i += 1;
        }
        assert(self.versions_view().take(self.versions@.len() as int) =~= self.versions_view());
        out
    }

    /// The Ruby base images to build: one per distinct Ruby tag whose image the snapshot
    /// lacks, in catalog order of first use.
    pub fn plan_base_builds(&self, cache: &ImageCache) -> (r: Vec<BuildJob>)
        requires
            cache.populated(),
        ensures
            job_views(r@) == jobs_at(
                self.versions_view(),
                missing_positions(
                    cache.existing(),
                    self.versions_view().map_values(|e: RailsVersionView| base_tag(e.ruby)),
                ),
                |e: RailsVersionView| base_job(e.ruby),
            ),
            forall|a: int, b: int|
                0 <= a < r@.len() && 0 <= b < r@.len() && a != b ==> #[trigger] r@[a].key@
                    != #[trigger] r@[b].key@,
    {
        let tags = self.base_image_tags();
        let picked = missing_images(cache, &tags);
        let mut out: Vec<BuildJob> = Vec::new();
        let mut k: usize = 0;
        while k < picked.len()
            invariant
                as_ints(picked@) == missing_positions(cache.existing(), views(tags@)),
                views(tags@) == self.versions_view().map_values(
                    |e: RailsVersionView| base_tag(e.ruby),
                ),
                k <= picked@.len(),
                job_views(out@) == jobs_at(
                    self.versions_view(),
                    as_ints(picked@).take(k as int),
                    |e: RailsVersionView| base_job(e.ruby),
                ),
            decreases picked@.len() - k,
        {
            let i = picked[k];
            proof {
                let m = missing_positions(cache.existing(), views(tags@));
                assert(as_ints(picked@)[k as int] == i as int);
                positions(tags@.len()).lemma_filter_contains_rev(
                    |j: int| first_missing(cache.existing(), views(tags@), j),
                    i as int,
                );
            }
            let ghost prev = job_views(out@);
            let job = base_build_job(self.versions[i].ruby.as_str());
            out.push(job);
            assert(as_ints(picked@).take(k as int + 1) =~= as_ints(picked@).take(k as int).push(
                i as int,
            ));
            assert(self.versions_view()[i as int] == self.versions@[i as int]@);
            assert(job_views(out@) =~= prev.push(job@));
            assert(job_views(out@) =~= jobs_at(
                self.versions_view(),
                as_ints(picked@).take(k as int + 1),
                |e: RailsVersionView| base_job(e.ruby),
            ));
            k += 1;
        }
        assert(as_ints(picked@).take(picked@.len() as int) =~= as_ints(picked@));
        proof {
            let m = missing_positions(cache.existing(), views(tags@));
            lemma_missing_tags_distinct(cache.existing(), views(tags@));
            assert forall|a: int, b: int|
                0 <= a < out@.len() && 0 <= b < out@.len() && a != b implies #[trigger] out@[a].key@
                    != #[trigger] out@[b].key@ by {
                assert(job_views(out@)[a] == out@[a]@ && job_views(out@)[b] == out@[b]@);
                assert(views(tags@)[m[a]] != views(tags@)[m[b]]);
            }
        }
        out
    }

    /// The release images to build: one per release under test whose image the snapshot
    /// lacks, in catalog order.
    pub fn plan_release_builds(&self, cache: &ImageCache) -> (r: Vec<BuildJob>)
        requires
            cache.populated(),
        ensures
            job_views(r@) == jobs_at(
                self.versions_view(),
                missing_positions(
                    cache.existing(),
                    self.versions_view().map_values(|e: RailsVersionView| release_tag(e)),
                ),
                |e: RailsVersionView| release_job(e),
            ),
            forall|a: int, b: int|
                0 <= a < r@.len() && 0 <= b < r@.len() && a != b ==> #[trigger] r@[a].key@
                    != #[trigger] r@[b].key@,
    {
        let tags = self.release_image_tags();
        let picked = missing_images(cache, &tags);
        let mut out: Vec<BuildJob> = Vec::new();
        let mut k: usize = 0;
        while k < picked.len()
            invariant
                as_ints(picked@) == missing_positions(cache.existing(), views(tags@)),
                views(tags@) == self.versions_view().map_values(
                    |e: RailsVersionView| release_tag(e),
                ),
                k <= picked@.len(),
                job_views(out@) == jobs_at(
                    self.versions_view(),
                    as_ints(picked@).take(k as int),
                    |e: RailsVersionView| release_job(e),
                ),
            decreases picked@.len() - k,
        {
            let i = picked[k];
            proof {
                assert(as_ints(picked@)[k as int] == i as int);
                positions(tags@.len()).lemma_filter_contains_rev(
                    |j: int| first_missing(cache.existing(), views(tags@), j),
                    i as int,
                );
            }
            let ghost prev = job_views(out@);
            let job = release_build_job(&self.versions[i]);
            out.push(job);
            assert(as_ints(picked@).take(k as int + 1) =~= as_ints(picked@).take(k as int).push(
                i as int,
            ));
            assert(self.versions_view()[i as int] == self.versions@[i as int]@);
            assert(job_views(out@) =~= prev.push(job@));
            assert(job_views(out@) =~= jobs_at(
                self.versions_view(),
                as_ints(picked@).take(k as int + 1),
                |e: RailsVersionView| release_job(e),
            ));
            k += 1;
        }
        assert(as_ints(picked@).take(picked@.len() as int) =~= as_ints(picked@));
        proof {
            let m = missing_positions(cache.existing(), views(tags@));
            lemma_missing_tags_distinct(cache.existing(), views(tags@));
            assert forall|a: int, b: int|
                0 <= a < out@.len() && 0 <= b < out@.len() && a != b implies #[trigger] out@[a].key@
                    != #[trigger] out@[b].key@ by {
                assert(job_views(out@)[a] == out@[a]@ && job_views(out@)[b] == out@[b]@);
                assert(views(tags@)[m[a]] != views(tags@)[m[b]]);
            }
        }
        out
    }

    /// The releases under test ascend, so every list derived from them in their order is
    /// sorted by release.
    pub proof fn lemma_versions_ascending(&self)
        requires
            self.wf(),
        ensures
            ascending(self.versions_view()),
    {
        lemma_catalog_ascending();
        lemma_filter_ascending(catalog(), |e: RailsVersionView| self.versions_view().contains(e));
    }

    /// With none of the release images present, one release build is planned for every
    /// release under test.
    pub proof fn lemma_fresh_cache_builds_every_release(&self, existing: Set<Seq<char>>)
        requires
            self.wf(),
            forall|i: int|
                0 <= i < self.versions_view().len() ==> !existing.contains(
                    full_tag(release_tag(#[trigger] self.versions_view()[i])),
                ),
        ensures
            missing_positions(
                existing,
                self.versions_view().map_values(|e: RailsVersionView| release_tag(e)),
            ).len() == self.versions_view().len(),
    {
        let vs = self.versions_view();
        let tags = vs.map_values(|e: RailsVersionView| release_tag(e));
        self.lemma_versions_ascending();
        let p = "rails-v"@;
        assert forall|a: int, b: int| 0 <= a < tags.len() && 0 <= b < tags.len() && a != b implies tags[a]
            != tags[b] by {
            if tags[a] == tags[b] {
                let (x, y) = (version_text(vs[a].rails), version_text(vs[b].rails));
                assert(x =~= (p + x).subrange(p.len() as int, (p + x).len() as int));
                assert(y =~= (p + y).subrange(p.len() as int, (p + y).len() as int));
                lemma_version_text_injective(vs[a].rails, vs[b].rails);
                if a < b {
                    assert(release_lt(vs[a].rails, vs[b].rails));
                } else {
                    assert(release_lt(vs[b].rails, vs[a].rails));
                }
            }
        }
        assert forall|i: int| 0 <= i < tags.len() implies !existing.contains(
            full_tag(#[trigger] tags[i]),
        ) by {
            assert(tags[i] == release_tag(vs[i]));
        }
        lemma_fresh_cache_builds_every_tag(existing, tags);
        tags.unique_seq_to_set();
    }

    /// At most one release under test per catalog entry.
    pub proof fn lemma_version_count_bounded(&self)
        requires
            self.wf(),
        ensures
            self.versions_view().len() <= catalog().len(),
    {
        catalog().lemma_filter_len(|e: RailsVersionView| self.versions_view().contains(e));
    }

    /// How each release's container is created, in catalog order: the release at position
    /// `i` is bound to host port `BASE_PORT + i`, so no two share a port.
    pub fn container_plan(&self) -> (r: Vec<ContainerSpec>)
        requires
            self.wf(),
        ensures
            r@.len() == self.versions_view().len(),
            forall|i: int|
                0 <= i < r@.len() ==> #[trigger] r@[i]@ == container_spec(
                    self.versions_view()[i],
                    i,
                    self.secret_view(),
                    self.canary_view(),
                ),
            forall|i: int, j: int|
                0 <= i < r@.len() && 0 <= j < r@.len() && i != j ==> #[trigger] r@[i].host_port
                    != #[trigger] r@[j].host_port,
    {
        proof {
            self.lemma_version_count_bounded();
        }
        let mut out: Vec<ContainerSpec> = Vec::new();
        let mut i: usize = 0;
        while i < self.versions.len()
            invariant
                self.versions_view().len() <= 20,
                i <= self.versions@.len(),
                out@.len() == i,
                forall|k: int|
                    0 <= k < i ==> #[trigger] out@[k]@ == container_spec(
                        self.versions_view()[k],
                        k,
                        self.secret_view(),
                        self.canary_view(),
                    ),
            decreases self.versions@.len() - i,
        {
            let v = &self.versions[i];
            let text = v.rails.to_text();
            let tag = concat_two("rails-v", text.as_str());
            let image_tag = concat_two(image_namespace(), tag.as_str());
            let container_name = concat_two("rails-cookies-everywhere-", tag.as_str());
            let mut env: Vec<String> = Vec::new();
            env.push(concat_two("SECRET_KEY_BASE=", self.secret.as_str()));
            env.push(concat_two("CANARY_VALUE=", self.canary.as_str()));
            let spec = ContainerSpec {
                rails_version: text,
                image_tag,
                container_name,
                env,
                app_port: APP_PORT,
                host_port: BASE_PORT + i as u16,
            };
            assert(self.versions_view()[i as int] == v@);
            assert(spec@.env =~= container_spec(v@, i as int, self.secret_view(), self.canary_view()).env);
            assert(spec@.image_tag =~= container_spec(v@, i as int, self.secret_view(), self.canary_view()).image_tag);
            assert(spec@.container_name =~= container_spec(v@, i as int, self.secret_view(), self.canary_view()).container_name);
            out.push(spec);
            i += 1;
        }
        assert forall|i: int, j: int|
            0 <= i < out@.len() && 0 <= j < out@.len() && i != j implies #[trigger] out@[i].host_port
                != #[trigger] out@[j].host_port by {
            assert(out@[i]@.host_port == out@[i].host_port);
            assert(out@[j]@.host_port == out@[j].host_port);
        }
        out
    }

    /// Records the started container `container_id` of the release at `position` of the
    /// plan, bound to port `BASE_PORT + position`. Containers are recorded in plan order:
    /// a release that does not come after the last one recorded is refused (`false`).
    pub fn record_container(&mut self, position: usize, container_id: String) -> (r: bool)
        requires
            old(self).wf(),
        ensures
            final(self).wf(),
            final(self).versions_view() == old(self).versions_view(),
            final(self).secret_view() == old(self).secret_view(),
            final(self).canary_view() == old(self).canary_view(),
            r == (position < old(self).versions_view().len() && (old(self).containers_view().len()
                == 0 || release_lt(
                old(self).containers_view().last().release,
                old(self).versions_view()[position as int].rails,
            ))),
            r ==> final(self).containers_view() == old(self).containers_view().push(
                ContainerRecordView {
                    release: old(self).versions_view()[position as int].rails,
                    rails_version: version_text(old(self).versions_view()[position as int].rails),
                    container_id: container_id@,
                    host_port: (BASE_PORT + position) as u16,
                },
            ),
            !r ==> final(self).containers_view() == old(self).containers_view(),
    {
        proof {
            self.lemma_version_count_bounded();
        }
        if position >= self.versions.len() {
            return false;
        }
        let release = self.versions[position].rails;
        assert(self.versions_view()[position as int].rails == release);
        let n = self.containers.len();
        if n > 0 && !self.containers[n - 1].release.precedes(&release) {
            assert(self.containers_view().last() == self.containers@[n - 1]@);
            return false;
        }
        let ghost prev = self.containers_view();
        let rec = ContainerRecord {
            release,
            rails_version: release.to_text(),
            container_id,
            host_port: BASE_PORT + position as u16,
        };
        self.containers.push(rec);
        assert(self.containers_view() =~= prev.push(rec@));
        assert(records_in_order(self.containers_view())) by {
            let rs = self.containers_view();
            assert forall|i: int, j: int| 0 <= i < j < rs.len() implies release_lt(
                #[trigger] rs[i].release,
                #[trigger] rs[j].release,
            ) by {
                if j == rs.len() - 1 && i < j - 1 {
                    assert(prev.last() == prev[n - 1]);
                    lemma_release_lt_transitive(prev[i].release, prev[n - 1].release, release);
                }
            }
        }
        true
    }

    /// The ids of the started containers, in the order they were recorded.
    pub fn container_ids(&self) -> (r: Vec<String>)
        ensures
            views(r@) == self.containers_view().map_values(
                |c: ContainerRecordView| c.container_id,
            ),
    {
        let mut out: Vec<String> = Vec::new();
        let mut i: usize = 0;
        while i < self.containers.len()
            invariant
                i <= self.containers@.len(),
                views(out@) == self.containers_view().take(i as int).map_values(
                    |c: ContainerRecordView| c.container_id,
                ),
            decreases self.containers@.len() - i,
        {
            let ghost prev = views(out@);
            let s = self.containers[i].container_id.clone();
            out.push(s);
            assert(views(out@) =~= prev.push(s@));
            assert(self.containers_view().take(i as int + 1) =~= self.containers_view().take(
                i as int,
            ).push(self.containers@[i as int]@));
            assert(views(out@) =~= self.containers_view().take(i as int + 1).map_values(
                |c: ContainerRecordView| c.container_id,
            ));
            i += 1;
        }
        assert(self.containers_view().take(self.containers@.len() as int)
            =~= self.containers_view());
        out
    }

    /// A fresh poller for each started container, in the order they were recorded, which
    /// is ascending order of release.
    pub fn pollers(&self) -> (r: Vec<Poller>)
        requires
            self.wf(),
        ensures
            r@.len() == self.containers_view().len(),
            forall|i: int|
                0 <= i < r@.len() ==> (#[trigger] r@[i]).version_view() == version_text(
                    self.containers_view()[i].release,
                ),
            forall|i: int, j: int|
                0 <= i < j < r@.len() ==> release_lt(
                    #[trigger] self.containers_view()[i].release,
                    #[trigger] self.containers_view()[j].release,
                ),
            forall|i: int|
                0 <= i < r@.len() ==> {
                    &&& (#[trigger] r@[i]).version_view() == self.containers_view()[i].rails_version
                    &&& r@[i].port() == self.containers_view()[i].host_port
                    &&& r@[i].failures() == 0
                },
    {
        let mut out: Vec<Poller> = Vec::new();
        let mut i: usize = 0;
        while i < self.containers.len()
            invariant
                i <= self.containers@.len(),
                out@.len() == i,
                forall|k: int|
                    0 <= k < i ==> {
                        &&& (#[trigger] out@[k]).version_view()
                            == self.containers_view()[k].rails_version
                        &&& out@[k].port() == self.containers_view()[k].host_port
                        &&& out@[k].failures() == 0
                    },
            decreases self.containers@.len() - i,
        {
            let c = &self.containers[i];
            let p = Poller::new(c.rails_version.clone(), c.host_port);
            assert(self.containers_view()[i as int] == c@);
            out.push(p);
            i += 1;
        }
        assert forall|i: int| 0 <= i < out@.len() implies (#[trigger] out@[i]).version_view()
            == version_text(self.containers_view()[i].release) by {
            assert(self.containers_view()[i].rails_version == version_text(
                self.containers_view()[i].release,
            ));
        }
        out
    }

    /// Each release under test as (Ruby tag, `major.minor.patch`, patch set), in catalog
    /// order (which sorts them).
    pub fn rails_versions(&self) -> (r: Vec<(String, String, String)>)
        ensures
            r@.len() == self.versions_view().len(),
            forall|i: int|
                0 <= i < r@.len() ==> {
                    let e = #[trigger] self.versions_view()[i];
                    &&& r@[i].0@ == e.ruby
                    &&& r@[i].1@ == version_text(e.rails)
                    &&& r@[i].2@ == e.patch
                },
    {
        let mut out: Vec<(String, String, String)> = Vec::new();
        let mut i: usize = 0;
        while i < self.versions.len()
            invariant
                i <= self.versions@.len(),
                out@.len() == i,
                forall|k: int|
                    0 <= k < i ==> {
                        let e = #[trigger] self.versions_view()[k];
                        &&& out@[k].0@ == e.ruby
                        &&& out@[k].1@ == version_text(e.rails)
                        &&& out@[k].2@ == e.patch
                    },
            decreases self.versions@.len() - i,
        {
            let v = &self.versions[i];
            let t = (v.ruby.clone(), v.rails.to_text(), v.patch.clone());
            out.push(t);
            assert(self.versions_view()[i as int] == self.versions@[i as int]@);
            i += 1;
        }
        out
    }
}

} // verus!
