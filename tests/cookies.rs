use rails_cookies_monster::rails::{
    check_cookie, cookie_family, cookie_kind, decipher_cookie, extract_canary, extract_message,
    parse_set_cookie, parse_version_triple, CheckError, CookieError, CookieFamily, CookieKind,
    KeyDigest,
};

const RAILS6_KEY: &str = "10b8683351f3a680391ba9b4735285900b6a7745ed5791437f001a938cc4dfac997363195051a28be31ba64d7a0098c2efc41aed4ef206fb18f373339a44bd2f";
const RAILS6_COOKIE: &str = "FaxbWcVc2y/48LYms/BrNb5r2MUXZcfZLpfzYOR0lVoQvoKz5R3IQwoNVL3VXgcudYp4oWYCuxX4IID70mjmFBcDK5DQTvykD1JAKgcFsbQcxDR5E/PBKTBwS5L5pEruWIB72Lu9o6BXreK6VZeNrAp9xBASiz+a/X33XAMrZFPPC/TGotfkkeLjwTx24wVg5OoET/Y3DkDhlXd9H0sho6lUEJLxxLyhNB+zqCc3i/sB2nyqRXf7J/3FsALeiwrPSCjF8ivBFyeD4pRercRBTNbLP6+Z--7FdUaoy4iwX6C+GX--2bq4Qvv1UDTUHv+O4pRxBg==";
const RAILS7_KEY: &str = "5ac471dc7dc882a9d8367253dcdebd086be029cad10f681725fad25e8b425d241854a054ea06b08d9ac36e03439948eddd2e93b1310b1c5c9843f6f54a562286";
const RAILS7_COOKIE: &str = "ClX3OHg9XV03KMYDOUJGB8u1wTq4qnahW1GS9nwbX0Z0eOsuIqWo6l0AVenz1wN61BPg79Bifwr2zGwKwyH9JhFpO75wPlh6llTJ4/dOzmucMsZIRpFDvLoDLjVkeuxSdIRE9JURM9/sD92jOby4qFdR4bkCHMGmnS+T4hbactT88X0uDOpyeifEUVHUi+Mmmui4qzpRbaR86lvqnudVKHYlC53Sb5EQJX0IK1oE/8tl/hXXAd0fQCP+Ho0pqz6LtH4+PPa7H7PXJFOxJ1epDqotmUI9XuYJp7Cq6GZ+NoE2t4WAl+SHqxjjAwE6vzfajA553x4=--5hm+u0xu/mHYUHIh--YiXje6ZO08vnyf/hY41dgQ==";

#[test]
fn version_triples_are_read() {
    assert_eq!(parse_version_triple("7.0.8"), Some((7, 0, 8)));
    assert_eq!(parse_version_triple("255.0.010"), Some((255, 0, 10)));
    assert_eq!(parse_version_triple("256.0.0"), None);
    assert_eq!(parse_version_triple("7.0"), None);
    assert_eq!(parse_version_triple("7..0"), None);
    assert_eq!(parse_version_triple("7.0.x"), None);
}

#[test]
fn family_follows_the_major_component() {
    assert_eq!(cookie_family("6.1.7"), CookieFamily::Rails6);
    assert_eq!(cookie_family("7.0.0"), CookieFamily::Rails7);
    assert_eq!(cookie_family("7.2.2"), CookieFamily::Rails7);
    assert_eq!(cookie_family("8.0.1"), CookieFamily::Latest);
    assert_eq!(cookie_family("latest"), CookieFamily::Latest);
}

#[test]
fn families_carry_their_key_parameters() {
    let p6 = CookieFamily::Rails6.params();
    assert_eq!(p6.digest, KeyDigest::Sha1);
    assert_eq!(p6.iterations, 1000);
    assert_eq!(p6.key_salt, "authenticated encrypted cookie");
    assert_eq!(CookieFamily::Rails7.params().digest, KeyDigest::Sha256);
    assert_eq!(CookieFamily::Latest.params().digest, KeyDigest::Sha256);
}

#[test]
fn rails6_cookie_is_deciphered() {
    let message = decipher_cookie(RAILS6_KEY, "6.1.7", RAILS6_COOKIE).unwrap();
    assert_eq!(
        message,
        "{\"session_id\":\"033ff410bb681720bfd4d03962111b39\",\"current_user_uuid\":\"95d73bf8-6edf-4a67-b1f9-227398bdd8af\"}"
    );
}

#[test]
fn rails7_cookie_is_deciphered_with_the_default_strategy() {
    let message = decipher_cookie(RAILS7_KEY, "7.0.0", RAILS7_COOKIE).unwrap();
    assert_eq!(
        message,
        "{\"session_id\":\"b2c3df57abfede83bb9e0db36ac30f0e\",\"foo\":\"bar\",\"_csrf_token\":\"1cYczkyoTjWbue1ZaGqvLOnZep992rc9jQb_mWE0_78\",\"count\":12}"
    );
    assert!(decipher_cookie(RAILS7_KEY, "8.0.1", RAILS7_COOKIE).is_ok());
}

#[test]
fn wrong_family_or_key_is_undecipherable() {
    assert_eq!(decipher_cookie(RAILS7_KEY, "6.0.0", RAILS7_COOKIE), Err(CookieError::Undecipherable));
    assert_eq!(decipher_cookie("other", "7.0.0", RAILS7_COOKIE), Err(CookieError::Undecipherable));
}

#[test]
fn malformed_cookie_is_refused_before_deciphering() {
    assert_eq!(decipher_cookie(RAILS7_KEY, "7.0.0", "test--"), Err(CookieError::Malformed));
    assert_eq!(decipher_cookie(RAILS7_KEY, "7.0.0", "%test--foo--bar"), Err(CookieError::Malformed));
    assert_eq!(decipher_cookie(RAILS7_KEY, "7.0.0", "YWJj--YWJj--YWJj"), Err(CookieError::Malformed));
}

#[test]
fn envelope_message_is_read() {
    let envelope = "{\"_rails\":{\"message\":\"ImNvcnJlY3QtaG9yc2UtYmF0dGVyeS1zdGFwbGUi\",\"exp\":null,\"pur\":\"cookie.encrypted\"}}";
    assert_eq!(extract_message(envelope), Ok("\"correct-horse-battery-staple\"".to_string()));
    assert_eq!(extract_message("{\"_rails\":{}}"), Err(CookieError::NoMessage));
    assert_eq!(extract_message("{\"_rails\":{\"message\":\"!!\"}}"), Err(CookieError::InvalidBase64));
    assert_eq!(extract_message("{\"_rails\":{\"message\":\"/w==\"}}"), Err(CookieError::InvalidUtf8));
}

#[test]
fn set_cookie_header_is_cut_into_name_and_value() {
    assert_eq!(
        parse_set_cookie("encrypted=abc==--d--e; path=/; httponly"),
        Some(("encrypted".to_string(), "abc==--d--e".to_string()))
    );
    assert_eq!(parse_set_cookie("encrypted=abc"), None);
    assert_eq!(parse_set_cookie("noequals; path=/"), None);
    assert_eq!(parse_set_cookie("=v;"), Some(("".to_string(), "v".to_string())));
}

#[test]
fn cookie_kind_is_chosen_by_name() {
    assert_eq!(cookie_kind("encrypted"), CookieKind::Encrypted);
    assert_eq!(cookie_kind("_cookie_monster_session"), CookieKind::Session);
    assert_eq!(cookie_kind("other"), CookieKind::Unknown);
}

#[test]
fn canary_is_read_where_the_kind_puts_it() {
    assert_eq!(extract_canary(CookieKind::Encrypted, "\"bird\""), Some("bird".to_string()));
    assert_eq!(extract_canary(CookieKind::Encrypted, "\""), None);
    assert_eq!(extract_canary(CookieKind::Encrypted, "bird"), None);
    assert_eq!(
        extract_canary(CookieKind::Session, "{\"session_id\":\"abc\",\"canary\":\"bird\"}"),
        Some("bird".to_string())
    );
    assert_eq!(extract_canary(CookieKind::Session, "{\"a\":\"b\"}"), None);
    assert_eq!(extract_canary(CookieKind::Unknown, "\"bird\""), None);
}

#[test]
fn session_cookie_carrying_the_canary_passes() {
    let header = format!("_cookie_monster_session={}; path=/; httponly", RAILS7_COOKIE);
    assert_eq!(check_cookie("bar", RAILS7_KEY, "7.1.0", &header), Ok(()));
    assert_eq!(check_cookie("baz", RAILS7_KEY, "7.1.0", &header), Err(CheckError::Mismatch));
    let header6 = format!("_cookie_monster_session={}; path=/", RAILS6_COOKIE);
    assert_eq!(
        check_cookie("95d73bf8-6edf-4a67-b1f9-227398bdd8af", RAILS6_KEY, "6.0.0", &header6),
        Ok(())
    );
}

#[test]
fn cookie_check_reports_each_failure() {
    assert_eq!(check_cookie("bar", RAILS7_KEY, "7.1.0", "nothing"), Err(CheckError::MalformedHeader));
    let other = format!("other={}; path=/", RAILS7_COOKIE);
    assert_eq!(check_cookie("bar", RAILS7_KEY, "7.1.0", &other), Err(CheckError::UnknownCookie));
    let encrypted = format!("encrypted={}; path=/", RAILS7_COOKIE);
    assert_eq!(check_cookie("bar", RAILS7_KEY, "7.1.0", &encrypted), Err(CheckError::NoCanary));
    assert_eq!(
        check_cookie("bar", "wrong", "7.1.0", &encrypted),
        Err(CheckError::Cookie(CookieError::Undecipherable))
    );
}
