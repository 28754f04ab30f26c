//! Images: the snapshot of what the container engine already holds, and the scheduling of the
//! builds that are missing from it.
use vstd::prelude::*;

use crate::text::{concat_two, has_prefix, starts_with, views};

verus! {

/// The reserved prefix of every image tag this tool builds.
pub open spec fn namespace() -> Seq<char> {
    "rails-cookies-everywhere:"@
}

/// The tag `t` within the namespace: unchanged when it already starts with it.
pub open spec fn full_tag(t: Seq<char>) -> Seq<char> {
    if has_prefix(t, namespace()) {
        t
    } else {
        namespace() + t
    }
}

/// The namespace prefix of image tags.
pub fn image_namespace() -> (r: &'static str)
    ensures
        r@ == namespace(),
{
    "rails-cookies-everywhere:"
}

/// An image as the container engine lists it: its id and its repository tags.
pub struct DockerImage {
    pub id: String,
    pub tags: Vec<String>,
}

/// Whether one of `tags` lies in the namespace.
pub open spec fn in_namespace(tags: Seq<Seq<char>>) -> bool {
    exists|j: int| 0 <= j < tags.len() && has_prefix(#[trigger] tags[j], namespace())
}

/// Whether `t` is a tag of one of `images` that has a tag in the namespace.
pub open spec fn listed_tag(images: Seq<DockerImage>, t: Seq<char>) -> bool {
    exists|i: int|
        0 <= i < images.len() && in_namespace(views(#[trigger] images[i].tags@)) && views(
            images[i].tags@,
        ).contains(t)
}

/// Every tag of the images of `images` that carry a tag in the namespace, image after image
/// in listing order, each image's tags in its own order.
pub open spec fn kept_tags(images: Seq<DockerImage>) -> Seq<Seq<char>> {
    images.filter(|i: DockerImage| in_namespace(views(i.tags@))).map_values(
        |i: DockerImage| views(i.tags@),
    ).flatten()
}

/// Flattening a sequence with one more element appends that element.
pub proof fn lemma_flatten_push(s: Seq<Seq<Seq<char>>>, x: Seq<Seq<char>>)
    ensures
        s.push(x).flatten() == s.flatten() + x,
{
    s.push(x).lemma_flatten_and_flatten_alt_are_equivalent();
    s.lemma_flatten_and_flatten_alt_are_equivalent();
    assert(s.push(x).drop_last() =~= s);
}

/// Whether one of `tags` lies in the namespace.
pub fn has_namespace_tag(tags: &Vec<String>) -> (r: bool)
    ensures
        r == in_namespace(views(tags@)),
{
    let ns = image_namespace();
    let mut j: usize = 0;
    while j < tags.len()
        invariant
            j <= tags@.len(),
            ns@ == namespace(),
            forall|k: int| 0 <= k < j ==> !has_prefix(#[trigger] views(tags@)[k], namespace()),
        decreases tags@.len() - j,
    {
        if starts_with(tags[j].as_str(), ns) {
            assert(views(tags@)[j as int] == tags@[j as int]@);
            return true;
        }
        assert(views(tags@)[j as int] == tags@[j as int]@);
        j += 1;
    }
    false
}

/// Every tag of the images that carry a tag in the namespace.
pub fn namespace_tags(images: &Vec<DockerImage>) -> (r: Vec<String>)
    ensures
        views(r@) == kept_tags(images@),
        forall|t: Seq<char>| views(r@).contains(t) <==> listed_tag(images@, t),
{
    let ghost keep_pred = |i: DockerImage| in_namespace(views(i.tags@));
    let ghost tags_of = |i: DockerImage| views(i.tags@);
    let mut out: Vec<String> = Vec::new();
    let mut i: usize = 0;
    assert(kept_tags(images@.take(0)) =~= Seq::<Seq<char>>::empty()) by {
        assert(images@.take(0).filter(keep_pred) =~= Seq::<DockerImage>::empty());
        assert(images@.take(0).filter(keep_pred).map_values(tags_of) =~= Seq::<
            Seq<Seq<char>>,
        >::empty());
    }
    while i < images.len()
        invariant
            i <= images@.len(),
            keep_pred == (|i: DockerImage| in_namespace(views(i.tags@))),
            tags_of == (|i: DockerImage| views(i.tags@)),
            views(out@) == kept_tags(images@.take(i as int)),
            forall|t: Seq<char>|
                views(out@).contains(t) <==> listed_tag(images@.take(i as int), t),
        decreases images@.len() - i,
    {
        let ghost before = views(out@);
        let keep = has_namespace_tag(&images[i].tags);
        if keep {
            let tags = &images[i].tags;
            let mut j: usize = 0;
            while j < tags.len()
                invariant
                    j <= tags@.len(),
                    views(out@) == before + views(tags@).take(j as int),
                decreases tags@.len() - j,
            {
                let ghost prev = views(out@);
                let t = tags[j].clone();
                out.push(t);
                assert(views(out@) =~= prev.push(t@));
                assert(views(tags@).take(j as int + 1) =~= views(tags@).take(j as int).push(t@));
                j += 1;
            }
            assert(views(tags@).take(tags@.len() as int) =~= views(tags@));
        }
        let ghost tv = views(images@[i as int].tags@);
        let ghost added = if keep { tv } else { Seq::<Seq<char>>::empty() };
        assert(views(out@) =~= before + added);
        proof {
            let pre = images@.take(i as int);
            let img = images@[i as int];
            assert(images@.take(i as int + 1) =~= pre.push(img));
            pre.lemma_filter_push(img, keep_pred);
            assert(keep == keep_pred(img));
            let fm = pre.filter(keep_pred).map_values(tags_of);
            if keep {
                assert(pre.filter(keep_pred).push(img).map_values(tags_of) =~= fm.push(tv));
                lemma_flatten_push(fm, tv);
            } else {
                assert(before + added =~= before);
            }
        }
        let ghost now = images@.take(i as int + 1);
        assert forall|t: Seq<char>| views(out@).contains(t) <==> listed_tag(now, t) by {
            assert(now[i as int] == images@[i as int]);
            if listed_tag(now, t) {
                let k = choose|k: int|
                    0 <= k < now.len() && in_namespace(views(#[trigger] now[k].tags@)) && views(
                        now[k].tags@,
                    ).contains(t);
                if k < i {
                    assert(images@.take(i as int)[k] == now[k]);
                    assert(listed_tag(images@.take(i as int), t));
                    assert(before.contains(t));
                    let n = choose|n: int| 0 <= n < before.len() && before[n] == t;
                    assert(views(out@)[n] == t);
                } else {
                    assert(keep);
                    let n = choose|n: int| 0 <= n < tv.len() && tv[n] == t;
                    assert(views(out@)[before.len() + n] == t);
                }
            }
            if views(out@).contains(t) {
                let n = choose|n: int| 0 <= n < views(out@).len() && views(out@)[n] == t;
                if n < before.len() {
                    assert(before[n] == t);
                    assert(before.contains(t));
                    assert(listed_tag(images@.take(i as int), t));
                    let k = choose|k: int|
                        0 <= k < images@.take(i as int).len() && in_namespace(
                            views(#[trigger] images@.take(i as int)[k].tags@),
                        ) && views(images@.take(i as int)[k].tags@).contains(t);
                    assert(now[k] == images@.take(i as int)[k]);
                } else {
                    assert(tv[n - before.len()] == t);
                    assert(in_namespace(views(now[i as int].tags@)));
                }
            }
        }
        i += 1;
    }
    assert(images@.take(images@.len() as int) =~= images@);
    out
}

/// The snapshot of the images that already exist, taken at most once per run.
pub struct ImageCache {
    tags: Option<Vec<String>>,
}

impl ImageCache {
    /// Whether the snapshot was taken.
    pub closed spec fn populated(&self) -> bool {
        self.tags is Some
    }

    /// The full tags of the images in the snapshot.
    pub closed spec fn existing(&self) -> Set<Seq<char>> {
        match self.tags {
            Some(v) => views(v@).to_set(),
            None => Set::empty(),
        }
    }

    /// A cache whose snapshot is still to be taken.
    pub fn new() -> (r: Self)
        ensures
            !r.populated(),
            r.existing() == Set::<Seq<char>>::empty(),
    {
        ImageCache { tags: None }
    }

    /// Whether the snapshot was taken.
    pub fn is_populated(&self) -> (r: bool)
        ensures
            r == self.populated(),
    {
        self.tags.is_some()
    }

    /// Takes the snapshot from the engine's image listing, keeping the tags of the images
    /// that carry a tag in the namespace. Once taken, the snapshot never changes.
    pub fn populate(&mut self, listed: &Vec<DockerImage>)
        ensures
            final(self).populated(),
            old(self).populated() ==> final(self).existing() == old(self).existing(),
            !old(self).populated() ==> final(self).existing() == kept_tags(listed@).to_set(),
            !old(self).populated() ==> forall|t: Seq<char>|
                final(self).existing().contains(t) <==> listed_tag(listed@, t),
    {
        if self.tags.is_none() {
            let tags = namespace_tags(listed);
            self.tags = Some(tags);
        }
    }

}

/// Whether `t` is one of `tags`.
pub fn contains_text(tags: &Vec<String>, t: &str) -> (r: bool)
    ensures
        r == views(tags@).contains(t@),
{
    let owned = t.to_owned();
    let mut i: usize = 0;
    while i < tags.len()
        invariant
            i <= tags@.len(),
            owned@ == t@,
            forall|k: int| 0 <= k < i ==> tags@[k]@ != t@,
        decreases tags@.len() - i,
    {
        if tags[i] == owned {
            assert(views(tags@)[i as int] == t@);
            return true;
        }
        i += 1;
    }
    assert forall|k: int| 0 <= k < views(tags@).len() implies views(tags@)[k] != t@ by {
        assert(views(tags@)[k] == tags@[k]@);
    }
    false
}

/// Whether the snapshot holds the image `image_tag`, written with or without the namespace.
pub fn image_exists(cache: &ImageCache, image_tag: &str) -> (r: bool)
    requires
        cache.populated(),
    ensures
        r == cache.existing().contains(full_tag(image_tag@)),
{
    let ns = image_namespace();
    let full = if starts_with(image_tag, ns) {
        image_tag.to_owned()
    } else {
        concat_two(ns, image_tag)
    };
    match &cache.tags {
        Some(v) => {
            let r = contains_text(v, full.as_str());
            assert(views(v@).contains(full@) == views(v@).to_set().contains(full@));
            r
        },
        None => false,
    }
}

/// Whether position `i` of `tags` holds the first occurrence of a tag whose image is not
/// among `existing`.
pub open spec fn first_missing(existing: Set<Seq<char>>, tags: Seq<Seq<char>>, i: int) -> bool {
    &&& 0 <= i < tags.len()
    &&& !existing.contains(full_tag(tags[i]))
    &&& forall|j: int| 0 <= j < i ==> tags[j] != tags[i]
}

/// The positions `0, 1, ..., n - 1`.
pub open spec fn positions(n: nat) -> Seq<int> {
    Seq::new(n, |i: int| i)
}

/// The positions of `tags` that need a build: one per distinct tag whose image is not among
/// `existing`, in ascending order.
pub open spec fn missing_positions(existing: Set<Seq<char>>, tags: Seq<Seq<char>>) -> Seq<int> {
    positions(tags.len()).filter(|i: int| first_missing(existing, tags, i))
}

/// The positions as integers.
pub open spec fn as_ints(v: Seq<usize>) -> Seq<int> {
    v.map_values(|i: usize| i as int)
}

/// Whether the tag at position `i` already occurs before it.
fn occurs_before(tags: &Vec<String>, i: usize) -> (r: bool)
    requires
        i < tags@.len(),
    ensures
        r == exists|j: int| 0 <= j < i && views(tags@)[j] == views(tags@)[i as int],
{
    let mut j: usize = 0;
    while j < i
        invariant
            j <= i < tags@.len(),
            forall|k: int| 0 <= k < j ==> views(tags@)[k] != views(tags@)[i as int],
        decreases i - j,
    {
        if tags[j] == tags[i] {
            assert(views(tags@)[j as int] == views(tags@)[i as int]);
            return true;
        }
        assert(views(tags@)[j as int] == tags@[j as int]@);
        assert(views(tags@)[i as int] == tags@[i as int]@);
        j += 1;
    }
    false
}

/// The positions of `tags` whose image must be built: the first occurrence of each distinct
/// tag whose image the snapshot lacks, in ascending order.
pub fn missing_images(cache: &ImageCache, tags: &Vec<String>) -> (r: Vec<usize>)
    requires
        cache.populated(),
    ensures
        as_ints(r@) == missing_positions(cache.existing(), views(tags@)),
{
    let ghost existing = cache.existing();
    let ghost tv = views(tags@);
    let ghost pred = |i: int| first_missing(existing, tv, i);
    let mut out: Vec<usize> = Vec::new();
    let mut i: usize = 0;
    assert(positions(0).filter(pred) =~= Seq::<int>::empty());
    while i < tags.len()
        invariant
            cache.populated(),
            existing == cache.existing(),
            tv == views(tags@),
            pred == (|i: int| first_missing(existing, tv, i)),
            i <= tags@.len(),
            as_ints(out@) == positions(i as nat).filter(pred),
        decreases tags@.len() - i,
    {
        let ghost prev = as_ints(out@);
        assert(positions(i as nat + 1) =~= positions(i as nat).push(i as int));
        proof {
            positions(i as nat).lemma_filter_push(i as int, pred);
        }
        assert(tv[i as int] == tags@[i as int]@);
        let present = image_exists(cache, tags[i].as_str());
        let seen = occurs_before(tags, i);
        assert((!present && !seen) == pred(i as int));
        if !present && !seen {
            out.push(i);
            assert(as_ints(out@) =~= prev.push(i as int));
        }
        i += 1;
    }
    out
}

/// Keeping some elements of a strictly increasing sequence keeps it strictly increasing.
proof fn lemma_filter_increasing(s: Seq<int>, p: spec_fn(int) -> bool)
    requires
        forall|a: int, b: int| 0 <= a < b < s.len() ==> s[a] < s[b],
    ensures
        forall|a: int, b: int|
            0 <= a < b < s.filter(p).len() ==> s.filter(p)[a] < s.filter(p)[b],
    decreases s.len(),
{
    reveal(Seq::filter);
    if s.len() > 0 {
        let init = s.drop_last();
        assert forall|a: int, b: int| 0 <= a < b < init.len() implies init[a] < init[b] by {
            assert(init[a] == s[a] && init[b] == s[b]);
        }
        lemma_filter_increasing(init, p);
        let f = init.filter(p);
        if p(s.last()) {
            assert(s.filter(p) == f.push(s.last()));
            assert forall|a: int| 0 <= a < f.len() implies f[a] < s.last() by {
                init.lemma_filter_contains_rev(p, f[a]);
                let k = choose|k: int| 0 <= k < init.len() && init[k] == f[a];
                assert(s[k] == init[k]);
            }
            let g = f.push(s.last());
            assert forall|a: int, b: int| 0 <= a < b < g.len() implies g[a] < g[b] by {
                assert(g[a] == f[a]);
                if b < f.len() {
                    assert(g[b] == f[b]);
                }
            }
        } else {
            assert(s.filter(p) == f);
        }
    }
}

/// The planned positions hold pairwise distinct tags.
pub proof fn lemma_missing_tags_distinct(existing: Set<Seq<char>>, tags: Seq<Seq<char>>)
    ensures
        forall|a: int, b: int|
            0 <= a < missing_positions(existing, tags).len() && 0 <= b < missing_positions(
                existing,
                tags,
            ).len() && a != b ==> tags[missing_positions(existing, tags)[a]] != tags[missing_positions(
                existing,
                tags,
            )[b]],
{
    let m = missing_positions(existing, tags);
    let p = |i: int| first_missing(existing, tags, i);
    lemma_filter_increasing(positions(tags.len()), p);
    assert forall|a: int, b: int| 0 <= a < m.len() && 0 <= b < m.len() && a != b implies tags[m[a]]
        != tags[m[b]] by {
        positions(tags.len()).lemma_filter_contains_rev(p, m[a]);
        positions(tags.len()).lemma_filter_contains_rev(p, m[b]);
        if a < b {
            assert(m[a] < m[b]);
        } else {
            assert(m[b] < m[a]);
        }
    }
}

/// The first-occurrence test at positions before the end is unaffected by what is appended.
proof fn lemma_first_missing_prefix(
    existing: Set<Seq<char>>,
    tags: Seq<Seq<char>>,
    x: Seq<char>,
    i: int,
)
    requires
        0 <= i < tags.len(),
    ensures
        first_missing(existing, tags.push(x), i) == first_missing(existing, tags, i),
{
    assert(tags.push(x)[i] == tags[i]);
    assert forall|j: int| 0 <= j < i implies tags.push(x)[j] == tags[j] by {}
}

/// With none of the images already present, exactly one build is planned per distinct tag.
pub proof fn lemma_fresh_cache_builds_every_tag(existing: Set<Seq<char>>, tags: Seq<Seq<char>>)
    requires
        forall|i: int| 0 <= i < tags.len() ==> !existing.contains(full_tag(#[trigger] tags[i])),
    ensures
        missing_positions(existing, tags).len() == tags.to_set().len(),
    decreases tags.len(),
{
    if tags.len() == 0 {
        assert(positions(0).filter(|i: int| first_missing(existing, tags, i)) =~= Seq::<
            int,
        >::empty());
        assert(tags.to_set() =~= Set::<Seq<char>>::empty());
    } else {
        let init = tags.drop_last();
        let x = tags.last();
        let n = init.len();
        assert(init.push(x) =~= tags);
        assert forall|i: int| 0 <= i < init.len() implies !existing.contains(
            full_tag(#[trigger] init[i]),
        ) by {
            assert(init[i] == tags[i]);
        }
        lemma_fresh_cache_builds_every_tag(existing, init);
        init.lemma_push_to_set_commute(x);
        vstd::seq_lib::seq_to_set_is_finite(init);
        vstd::set::axiom_set_insert_len(init.to_set(), x);
        let p = |i: int| first_missing(existing, tags, i);
        let q = |i: int| first_missing(existing, init, i);
        assert forall|k: int| 0 <= k < positions(n).len() implies p(positions(n)[k]) == q(
            positions(n)[k],
        ) by {
            lemma_first_missing_prefix(existing, init, x, k);
        }
        crate::lemma_filter_congruent(positions(n), p, q);
        assert(positions(n + 1) =~= positions(n).push(n as int));
        positions(n).lemma_filter_push(n as int, p);
        assert(tags[n as int] == x);
        if init.contains(x) {
            let j = choose|j: int| 0 <= j < init.len() && init[j] == x;
            assert(tags[j] == x);
            assert(!p(n as int));
        } else {
            assert forall|j: int| 0 <= j < n implies tags[j] != tags[n as int] by {
                assert(tags[j] == init[j]);
            }
            assert(p(n as int));
        }
    }
}

/// Once the images of the planned builds exist, planning again finds nothing to build.
pub proof fn lemma_second_pass_builds_nothing(
    existing: Set<Seq<char>>,
    tags: Seq<Seq<char>>,
    after: Set<Seq<char>>,
)
    requires
        existing.subset_of(after),
        forall|k: int|
            0 <= k < missing_positions(existing, tags).len() ==> after.contains(
                full_tag(tags[#[trigger] missing_positions(existing, tags)[k]]),
            ),
    ensures
        missing_positions(after, tags).len() == 0,
{
    let m = missing_positions(existing, tags);
    let p = |i: int| first_missing(existing, tags, i);
    let q = |i: int| first_missing(after, tags, i);
    let second = positions(tags.len()).filter(q);
    if second.len() > 0 {
        let i = second[0];
        positions(tags.len()).lemma_filter_contains_rev(q, i);
        assert(q(i));
        assert(p(i));
        assert(positions(tags.len())[i] == i);
        positions(tags.len()).lemma_filter_contains(p, i);
        let k = choose|k: int| 0 <= k < m.len() && m[k] == i;
        assert(after.contains(full_tag(tags[m[k]])));
    }
}

/// The failed builds among the first `n`: each as (key, error message), in order.
pub open spec fn failures(
    keys: Seq<Seq<char>>,
    results: Seq<Result<(), String>>,
    n: nat,
) -> Seq<(Seq<char>, Seq<char>)>
    decreases n,
{
    if n == 0 {
        Seq::empty()
    } else {
        let rest = failures(keys, results, (n - 1) as nat);
        match results[n - 1] {
            Ok(_) => rest,
            Err(m) => rest.push((keys[n - 1], m@)),
        }
    }
}

/// The views of a list of (key, message) pairs.
pub open spec fn pair_views(v: Seq<(String, String)>) -> Seq<(Seq<char>, Seq<char>)> {
    v.map_values(|p: (String, String)| (p.0@, p.1@))
}

/// Every failure is keyed by one of the keys.
pub proof fn lemma_failures_among_keys(
    keys: Seq<Seq<char>>,
    results: Seq<Result<(), String>>,
    n: nat,
    k: int,
)
    requires
        n <= keys.len(),
        0 <= k < failures(keys, results, n).len(),
    ensures
        keys.subrange(0, n as int).contains(failures(keys, results, n)[k].0),
    decreases n,
{
    let rest = failures(keys, results, (n - 1) as nat);
    if k < rest.len() {
        lemma_failures_among_keys(keys, results, (n - 1) as nat, k);
        let pre = keys.subrange(0, n - 1);
        let j = choose|j: int| 0 <= j < pre.len() && #[trigger] pre[j] == rest[k].0;
        assert(keys.subrange(0, n as int)[j] == rest[k].0);
    } else {
        assert(keys.subrange(0, n as int)[n - 1] == keys[n - 1]);
    }
}

/// The keys of a list of failures.
pub open spec fn failure_keys(f: Seq<(Seq<char>, Seq<char>)>) -> Seq<Seq<char>> {
    f.map_values(|p: (Seq<char>, Seq<char>)| p.0)
}

/// With distinct keys, no key is reported twice among the failures.
pub proof fn lemma_failures_distinct(
    keys: Seq<Seq<char>>,
    results: Seq<Result<(), String>>,
    n: nat,
)
    requires
        n <= keys.len(),
        keys.no_duplicates(),
    ensures
        failure_keys(failures(keys, results, n)).no_duplicates(),
    decreases n,
{
    if n > 0 {
        let rest = failures(keys, results, (n - 1) as nat);
        lemma_failures_distinct(keys, results, (n - 1) as nat);
        if results[n - 1] is Err {
            let all = failures(keys, results, n);
            assert forall|a: int, b: int|
                0 <= a < failure_keys(all).len() && 0 <= b < failure_keys(all).len() && a != b
                    implies failure_keys(all)[a] != failure_keys(all)[b] by {
                if a < rest.len() && b < rest.len() {
                    assert(all[a] == rest[a] && all[b] == rest[b]);
                    assert(failure_keys(rest)[a] == rest[a].0);
                    assert(failure_keys(rest)[b] == rest[b].0);
                } else {
                    let k = if a < rest.len() { a } else { b };
                    assert(all[k] == rest[k]);
                    lemma_failures_among_keys(keys, results, (n - 1) as nat, k);
                    let pre = keys.subrange(0, n - 1);
                    let j = choose|j: int| 0 <= j < pre.len() && #[trigger] pre[j] == rest[k].0;
                    assert(keys[j] == pre[j]);
                    assert(all[rest.len() as int].0 == keys[n - 1]);
                }
            }
        }
    }
}

/// Gathers the outcome of a batch of builds run to completion: `Ok` when every build
/// succeeded, otherwise each failure with its key and message, in order.
pub fn build_outcome(keys: &Vec<String>, results: &Vec<Result<(), String>>) -> (r: Result<
    (),
    Vec<(String, String)>,
>)
    requires
        keys@.len() == results@.len(),
    ensures
        r is Ok <==> forall|i: int| 0 <= i < results@.len() ==> results@[i] is Ok,
        r is Ok <==> failures(views(keys@), results@, results@.len() as nat).len() == 0,
        r matches Err(e) ==> pair_views(e@) == failures(views(keys@), results@, results@.len() as nat),
        views(keys@).no_duplicates() ==> failure_keys(
            failures(views(keys@), results@, results@.len() as nat),
        ).no_duplicates(),
{
    let ghost kv = views(keys@);
    let mut out: Vec<(String, String)> = Vec::new();
    let mut i: usize = 0;
    while i < results.len()
        invariant
            keys@.len() == results@.len(),
            kv == views(keys@),
            i <= results@.len(),
            pair_views(out@) == failures(kv, results@, i as nat),
            (out@.len() == 0) <==> forall|k: int| 0 <= k < i ==> results@[k] is Ok,
        decreases results@.len() - i,
    {
        let ghost prev = pair_views(out@);
        match &results[i] {
            Ok(_) => {},
            Err(m) => {
                let pair = (keys[i].clone(), m.clone());
                out.push(pair);
                assert(kv[i as int] == keys@[i as int]@);
                assert(pair_views(out@) =~= prev.push((kv[i as int], m@)));
            },
        }
        i += 1;
    }
    proof {
        if kv.no_duplicates() {
            lemma_failures_distinct(kv, results@, results@.len() as nat);
        }
    }
    if out.len() == 0 {
        Ok(())
    } else {
        Err(out)
    }
}

/// The build context an image is built from.
#[derive(Clone, Copy, Debug, PartialEq, Eq, Structural)]
pub enum BuildArchive {
    /// The Ruby base image's Dockerfile.
    RubyBase,
    /// The Rails image's Dockerfile and its patch sets.
    RailsVersions,
}

/// One image build: the key its failure is reported under, the full image tag, the build
/// context and the build arguments.
pub struct BuildJob {
    pub key: String,
    pub image_tag: String,
    pub archive: BuildArchive,
    pub build_args: Vec<(String, String)>,
}

/// What a build job is.
pub struct BuildJobView {
    pub key: Seq<char>,
    pub image_tag: Seq<char>,
    pub archive: BuildArchive,
    pub build_args: Seq<(Seq<char>, Seq<char>)>,
}

impl View for BuildJob {
    type V = BuildJobView;

    open spec fn view(&self) -> BuildJobView {
        BuildJobView {
            key: self.key@,
            image_tag: self.image_tag@,
            archive: self.archive,
            build_args: pair_views(self.build_args@),
        }
    }
}

impl BuildArchive {
    /// File name of the archive that holds the build context.
    pub fn file_name(&self) -> (r: &'static str)
        ensures
            r@ == match self {
                BuildArchive::RubyBase => "ruby-base.tar"@,
                BuildArchive::RailsVersions => "rails-versions.tar"@,
            },
    {
        match self {
            BuildArchive::RubyBase => "ruby-base.tar",
            BuildArchive::RailsVersions => "rails-versions.tar",
        }
    }
}

} // verus!
