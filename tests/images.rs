use rails_cookies_monster::docker::{
    build_outcome, image_exists, missing_images, namespace_tags, BuildArchive, DockerImage,
    ImageCache,
};
use rails_cookies_monster::{base_build_job, RailsCookiesMonster};

fn image(id: &str, tags: &[&str]) -> DockerImage {
    DockerImage { id: id.to_string(), tags: tags.iter().map(|t| t.to_string()).collect() }
}

fn strings(v: &[&str]) -> Vec<String> {
    v.iter().map(|t| t.to_string()).collect()
}

#[test]
fn listing_keeps_images_of_the_namespace() {
    let listed = vec![
        image("1", &["rails-cookies-everywhere:ruby-base-3.3.7", "extra:tag"]),
        image("2", &["postgres:16"]),
        image("3", &[]),
    ];
    let tags = namespace_tags(&listed);
    assert_eq!(tags, strings(&["rails-cookies-everywhere:ruby-base-3.3.7", "extra:tag"]));
}

#[test]
fn cache_is_populated_once() {
    let mut cache = ImageCache::new();
    assert!(!cache.is_populated());
    cache.populate(&vec![image("1", &["rails-cookies-everywhere:rails-v7.0.0"])]);
    assert!(cache.is_populated());
    cache.populate(&vec![image("2", &["rails-cookies-everywhere:rails-v7.0.1"])]);
    assert!(image_exists(&cache, "rails-v7.0.0"));
    assert!(!image_exists(&cache, "rails-v7.0.1"));
}

#[test]
fn tags_match_with_or_without_namespace() {
    let mut cache = ImageCache::new();
    cache.populate(&vec![image("1", &["rails-cookies-everywhere:ruby-base-latest"])]);
    assert!(image_exists(&cache, "ruby-base-latest"));
    assert!(image_exists(&cache, "rails-cookies-everywhere:ruby-base-latest"));
    assert!(!image_exists(&cache, "ruby-base-3.3.7"));
}

#[test]
fn missing_images_skip_present_and_repeated_tags() {
    let mut cache = ImageCache::new();
    cache.populate(&vec![image("1", &["rails-cookies-everywhere:b"])]);
    let tags = strings(&["a", "b", "a", "c", "c"]);
    assert_eq!(missing_images(&cache, &tags), vec![0, 3]);
    assert!(missing_images(&cache, &vec![]).is_empty());
}

#[test]
fn fresh_cache_builds_each_distinct_artifact_once() {
    let mut m = RailsCookiesMonster::new(None, None);
    m.add_version_requirement(">=7.0.0");
    let mut cache = ImageCache::new();
    cache.populate(&vec![]);
    let bases = m.plan_base_builds(&cache);
    let keys: Vec<&str> = bases.iter().map(|j| j.key.as_str()).collect();
    assert_eq!(keys, vec!["3.0.7", "3.3.7", "latest"]);
    assert_eq!(bases[1].image_tag, "rails-cookies-everywhere:ruby-base-3.3.7");
    assert_eq!(bases[1].archive, BuildArchive::RubyBase);
    assert_eq!(bases[1].build_args, vec![("BASE_IMAGE_TAG".to_string(), "3.3.7".to_string())]);
    let releases = m.plan_release_builds(&cache);
    assert_eq!(releases.len(), 20);
    assert_eq!(releases[0].key, "7.0.0");
    assert_eq!(releases[0].image_tag, "rails-cookies-everywhere:rails-v7.0.0");
    assert_eq!(releases[0].archive, BuildArchive::RailsVersions);
    assert_eq!(
        releases[0].build_args,
        vec![
            ("BASE_IMAGE_TAG".to_string(), "3.0.7".to_string()),
            ("RAILS_VERSION_TAG".to_string(), "7.0.0".to_string()),
            ("RAILS_PATCH".to_string(), "7.0.x".to_string()),
        ]
    );
}

#[test]
fn second_pass_after_builds_attempts_nothing() {
    let mut m = RailsCookiesMonster::new(None, None);
    m.add_version_requirement("~7.0");
    let mut first = ImageCache::new();
    first.populate(&vec![image("1", &["rails-cookies-everywhere:ruby-base-3.0.7"])]);
    let bases = m.plan_base_builds(&first);
    let releases = m.plan_release_builds(&first);
    assert_eq!(bases.len(), 1);
    assert_eq!(bases[0].key, "3.3.7");
    assert_eq!(releases.len(), 9);
    let mut built = vec![image("1", &["rails-cookies-everywhere:ruby-base-3.0.7"])];
    for job in bases.iter().chain(releases.iter()) {
        built.push(image("n", &[job.image_tag.as_str()]));
    }
    let mut second = ImageCache::new();
    second.populate(&built);
    assert!(m.plan_base_builds(&second).is_empty());
    assert!(m.plan_release_builds(&second).is_empty());
}

#[test]
fn outcome_is_ok_when_every_build_succeeds() {
    let keys = strings(&["3.3.7", "latest"]);
    assert_eq!(build_outcome(&keys, &vec![Ok(()), Ok(())]), Ok(()));
    assert_eq!(build_outcome(&vec![], &vec![]), Ok(()));
}

#[test]
fn outcome_lists_each_failure_in_order() {
    let keys = strings(&["7.0.0", "7.0.1", "7.0.2"]);
    let results = vec![Err("no space".to_string()), Ok(()), Err("bad patch".to_string())];
    assert_eq!(
        build_outcome(&keys, &results),
        Err(vec![
            ("7.0.0".to_string(), "no space".to_string()),
            ("7.0.2".to_string(), "bad patch".to_string()),
        ])
    );
}

#[test]
fn base_job_names_its_archive() {
    let job = base_build_job("latest");
    assert_eq!(job.archive.file_name(), "ruby-base.tar");
    assert_eq!(BuildArchive::RailsVersions.file_name(), "rails-versions.tar");
    assert_eq!(job.image_tag, "rails-cookies-everywhere:ruby-base-latest");
}

#[test]
fn listing_keeps_engine_order_and_repetition() {
    let listed = vec![
        image("1", &["rails-cookies-everywhere:rails-v7.0.1", "other:b"]),
        image("2", &["other:a"]),
        image("3", &["x:y", "rails-cookies-everywhere:rails-v7.0.0"]),
        image("4", &["rails-cookies-everywhere:rails-v7.0.1"]),
    ];
    assert_eq!(
        namespace_tags(&listed),
        strings(&[
            "rails-cookies-everywhere:rails-v7.0.1",
            "other:b",
            "x:y",
            "rails-cookies-everywhere:rails-v7.0.0",
            "rails-cookies-everywhere:rails-v7.0.1",
        ])
    );
}

#[test]
fn fresh_cache_plans_one_release_build_per_release_with_distinct_keys() {
    let mut m = RailsCookiesMonster::new(None, None);
    m.add_version_requirement("*");
    let mut cache = ImageCache::new();
    cache.populate(&vec![image("1", &["rails-cookies-everywhere:ruby-base-latest"])]);
    let releases = m.plan_release_builds(&cache);
    assert_eq!(releases.len(), m.version_count());
    let mut keys: Vec<&str> = releases.iter().map(|j| j.key.as_str()).collect();
    keys.dedup();
    assert_eq!(keys.len(), 20);
    assert_eq!(m.plan_base_builds(&cache).len(), 2);
}
