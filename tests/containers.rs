use rails_cookies_monster::containers::{
    decode_cookie_header, PollError, Poller, MAX_POLL_ATTEMPTS,
};
use rails_cookies_monster::RailsCookiesMonster;

#[test]
fn plan_binds_distinct_ports_in_order() {
    let mut m = RailsCookiesMonster::new(Some("key".to_string()), Some("bird".to_string()));
    m.add_version_requirement(">=7.1");
    let plan = m.container_plan();
    assert_eq!(plan.len(), 11);
    for (i, spec) in plan.iter().enumerate() {
        assert_eq!(spec.host_port, 3000 + i as u16);
        assert_eq!(spec.app_port, 3000);
    }
    let mut ports: Vec<u16> = plan.iter().map(|s| s.host_port).collect();
    ports.dedup();
    assert_eq!(ports.len(), 11);
    assert_eq!(plan[0].rails_version, "7.1.0");
    assert_eq!(plan[0].image_tag, "rails-cookies-everywhere:rails-v7.1.0");
    assert_eq!(plan[0].container_name, "rails-cookies-everywhere-rails-v7.1.0");
    assert_eq!(plan[0].env, vec!["SECRET_KEY_BASE=key", "CANARY_VALUE=bird"]);
}

#[test]
fn whole_catalog_fits_the_port_range() {
    let mut m = RailsCookiesMonster::new(None, None);
    m.add_version_requirement("*");
    let plan = m.container_plan();
    assert_eq!(plan.len(), 20);
    assert_eq!(plan[19].host_port, 3019);
}

#[test]
fn containers_are_recorded_in_plan_order() {
    let mut m = RailsCookiesMonster::new(None, None);
    m.add_version_requirement("~7.0");
    assert!(m.record_container(0, "abc".to_string()));
    assert!(m.record_container(2, "def".to_string()));
    assert!(!m.record_container(1, "ghi".to_string()));
    assert!(!m.record_container(2, "def".to_string()));
    assert!(!m.record_container(9, "jkl".to_string()));
    assert_eq!(m.container_ids(), vec!["abc", "def"]);
    let pollers = m.pollers();
    assert_eq!(pollers.len(), 2);
    assert_eq!(pollers[0].rails_version(), "7.0.0");
    assert_eq!(pollers[1].rails_version(), "7.0.2");
    assert_eq!(pollers[1].host_port(), 3002);
    assert_eq!(pollers[1].url(), "http://localhost:3002/");
}

#[test]
fn silent_target_is_given_up_at_the_cap() {
    let mut p = Poller::new("7.0.0".to_string(), 3000);
    for _ in 1..MAX_POLL_ATTEMPTS {
        assert!(p.on_unreachable().is_none());
    }
    let last = p.on_unreachable();
    assert_eq!(last, Some(vec![]));
    assert_eq!(MAX_POLL_ATTEMPTS, 11);
}

#[test]
fn answer_yields_decoded_cookies() {
    let p = Poller::new("7.1.2".to_string(), 3005);
    let headers = vec![
        "encrypted=abc%3D%3D--x--y; path=/".to_string(),
        "_cookie_monster_session=plain; path=/; httponly".to_string(),
    ];
    let got = p.on_response("{\"version\":\"7.1.2\"}", &headers).ok().unwrap();
    assert_eq!(
        got,
        vec![
            ("7.1.2".to_string(), "encrypted=abc==--x--y; path=/".to_string()),
            ("7.1.2".to_string(), "_cookie_monster_session=plain; path=/; httponly".to_string()),
        ]
    );
}

#[test]
fn answer_with_another_body_is_refused() {
    let p = Poller::new("7.1.2".to_string(), 3005);
    match p.on_response("{\"version\":\"7.1.3\"}", &vec![]) {
        Err(PollError::WrongBody(b)) => assert_eq!(b, "{\"version\":\"7.1.3\"}"),
        _ => panic!("expected a wrong body"),
    }
}

#[test]
fn answer_with_undecodable_cookie_is_refused() {
    let p = Poller::new("8.0.0".to_string(), 3000);
    match p.on_response("{\"version\":\"8.0.0\"}", &vec!["a=%FF; path=/".to_string()]) {
        Err(PollError::UndecodableCookie(h)) => assert_eq!(h, "a=%FF; path=/"),
        _ => panic!("expected an undecodable cookie"),
    }
}

#[test]
fn headers_are_percent_decoded() {
    assert_eq!(decode_cookie_header("a%20b"), Some("a b".to_string()));
    assert_eq!(decode_cookie_header("plain"), Some("plain".to_string()));
    assert_eq!(decode_cookie_header("%C3%A9"), Some("é".to_string()));
    assert_eq!(decode_cookie_header("%FF"), None);
}
