use rails_cookies_monster::rails::versions::{
    match_versions, rails_catalog, resolve, ReleaseVersion, VersionRequirement,
};
use rails_cookies_monster::RailsCookiesMonster;

fn release(major: u64, minor: u64, patch: u64) -> ReleaseVersion {
    ReleaseVersion { major, minor, patch }
}

#[test]
fn catalog_has_every_release_once() {
    let all = rails_catalog();
    assert_eq!(all.len(), 20);
    assert_eq!(all[0].ruby, "3.0.7");
    assert_eq!(all[0].rails, release(7, 0, 0));
    assert_eq!(all[0].patch, "7.0.x");
    assert_eq!(all[19].ruby, "latest");
    assert_eq!(all[19].rails, release(8, 0, 1));
    assert_eq!(all[19].patch, "none");
}

#[test]
fn exact_requirement_resolves_to_one_entry() {
    let found = resolve("=7.0.0");
    assert_eq!(found.len(), 1);
    assert_eq!(found[0].ruby, "3.0.7");
    assert_eq!(found[0].rails, release(7, 0, 0));
    assert_eq!(found[0].patch, "7.0.x");
}

#[test]
fn range_requirement_resolves_to_its_entries() {
    let found = resolve(">=7.0, <8.0");
    assert_eq!(found.len(), 18);
    assert!(found.iter().all(|v| v.rails.major == 7));
    let eight = resolve(">=8");
    assert_eq!(eight.len(), 2);
    assert_eq!(eight[0].rails, release(8, 0, 0));
    assert_eq!(eight[1].rails, release(8, 0, 1));
    let minor = resolve("~7.1");
    assert_eq!(minor.len(), 6);
}

#[test]
fn unsatisfiable_requirement_resolves_to_nothing() {
    assert!(resolve("=1.0.0").is_empty());
    assert!(resolve(">9").is_empty());
}

#[test]
fn malformed_requirement_resolves_to_nothing() {
    assert!(VersionRequirement::parse("not a version").is_none());
    assert!(resolve("not a version").is_empty());
    assert!(resolve(">=>7").is_empty());
}

#[test]
fn requirement_admits_releases() {
    let q = VersionRequirement::parse(">=7.1, <7.2").unwrap();
    assert_eq!(q.as_text(), ">=7.1, <7.2");
    assert!(q.admits(&release(7, 1, 3)));
    assert!(!q.admits(&release(7, 2, 0)));
    assert!(!q.admits(&release(7, 0, 8)));
    assert_eq!(match_versions(&q).len(), 6);
}

#[test]
fn release_renders_as_text() {
    assert_eq!(release(7, 0, 8).to_text(), "7.0.8");
    assert_eq!(release(10, 20, 300).to_text(), "10.20.300");
}

#[test]
fn monster_defaults_secret_and_canary() {
    let m = RailsCookiesMonster::new(None, None);
    assert_eq!(m.secret(), "rails-cookies-everywhere");
    assert_eq!(m.canary(), "correct-horse-battery-staple");
    assert_eq!(m.version_count(), 0);
    let m = RailsCookiesMonster::new(Some("s3cr3t".to_string()), Some("bird".to_string()));
    assert_eq!(m.secret(), "s3cr3t");
    assert_eq!(m.canary(), "bird");
}

#[test]
fn requirements_accumulate_without_duplicates() {
    let mut m = RailsCookiesMonster::new(None, None);
    m.add_version_requirement("~7.2");
    assert_eq!(m.version_count(), 3);
    m.add_version_requirement(">=7.2.1");
    assert_eq!(m.version_count(), 5);
    m.add_version_requirement("=7.0.0");
    assert_eq!(m.version_count(), 6);
    let rails = m.rails_versions();
    let texts: Vec<&str> = rails.iter().map(|r| r.1.as_str()).collect();
    assert_eq!(texts, vec!["7.0.0", "7.2.0", "7.2.1", "7.2.2", "8.0.0", "8.0.1"]);
    assert_eq!(rails[0], ("3.0.7".to_string(), "7.0.0".to_string(), "7.0.x".to_string()));
    assert_eq!(rails[5], ("latest".to_string(), "8.0.1".to_string(), "none".to_string()));
}

#[test]
fn malformed_requirement_changes_nothing() {
    let mut m = RailsCookiesMonster::new(None, None);
    m.add_version_requirement("=7.0.1");
    m.add_version_requirement("seven");
    assert_eq!(m.version_count(), 1);
    assert_eq!(m.rails_versions()[0].1, "7.0.1");
}

#[test]
fn ruby_versions_follow_the_releases() {
    let mut m = RailsCookiesMonster::new(None, None);
    m.add_version_requirement(">=7.0.0, <=7.0.2");
    m.add_version_requirement("=8.0.0");
    assert_eq!(m.ruby_versions(), vec!["3.0.7", "3.3.7", "3.3.7", "latest"]);
}
