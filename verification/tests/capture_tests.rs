use wombat::commands::{lambda_arn, service_interceptors, InterceptorKind};
use wombat::kv::KVStore;
use wombat::logs::{is_readable, streams_readable, LogStream};
use wombat::profiles::{push_infra_for_app, take_profile_entry, InfraProfile, ProfileEntry, WombatAwsProfile};
use wombat::resources::db_name_from;
use wombat::shared::{arn_to_name, version_to_number, Env};
use wombat::user::{get_port, port_free};

fn sso_entry(name: &str) -> ProfileEntry {
    ProfileEntry {
        name: name.to_string(),
        role_arn: None,
        source_profile: None,
        sso_start_url: Some("https://start".to_string()),
        sso_account_id: Some("835811189142".to_string()),
        region: Some("eu-west-1".to_string()),
    }
}

fn infra_entry(name: &str, source: Option<&str>) -> ProfileEntry {
    ProfileEntry {
        name: name.to_string(),
        role_arn: Some("arn:aws:iam::1:role/users-infra".to_string()),
        source_profile: source.map(|s| s.to_string()),
        sso_start_url: None,
        sso_account_id: None,
        region: None,
    }
}

fn log_stream(last: Option<i64>, ingested: Option<i64>) -> LogStream {
    LogStream {
        name: Some("web/users/1".to_string()),
        first_event_timestamp: Some(0),
        creation_time: None,
        last_event_timestamp: last,
        last_ingestion_time: ingested,
    }
}

#[test]
fn env_from_captured_text() {
    assert_eq!(Env::from_capture(Some("dev".to_string())), Env::DEV);
    assert_eq!(Env::from_capture(Some("prod".to_string())), Env::PROD);
    assert_eq!(Env::from_capture(Some("staging".to_string())), Env::DEVNULL);
    assert_eq!(Env::from_capture(None), Env::DEVNULL);
}

#[test]
fn db_name_from_capture_or_arn() {
    let arn = "arn:aws:rds:eu-west-1:1:db:dsi-dev-users";
    assert_eq!(db_name_from(arn, Some("users".to_string())), "users");
    assert_eq!(db_name_from(arn, None), "dsi-dev-users");
}

#[test]
fn infra_profiles_for_captured_app() {
    let mut r: Vec<InfraProfile> = Vec::new();
    push_infra_for_app(&mut r, &infra_entry("users-dev", Some("acme-dev")), Some("users".to_string()));
    assert_eq!(r.len(), 1);
    assert_eq!(r[0].app, "users");
    assert_eq!(r[0].env, Env::DEV);
    assert_eq!(r[0].source_profile, "acme-dev");
    push_infra_for_app(&mut r, &infra_entry("users", Some("acme")), Some("users".to_string()));
    assert_eq!(r.len(), 6);
    let envs: Vec<Env> = r[1..].iter().map(|p| p.env).collect();
    assert_eq!(envs, vec![Env::PLAY, Env::LAB, Env::DEV, Env::DEMO, Env::PROD]);
    push_infra_for_app(&mut r, &infra_entry("users-dev", Some("acme-dev")), None);
    push_infra_for_app(&mut r, &infra_entry("users-dev", None), Some("users".to_string()));
    assert_eq!(r.len(), 6);
}

#[test]
fn profile_entry_with_captured_base_and_env() {
    let infra: Vec<InfraProfile> = Vec::new();
    let mut ws: Vec<WombatAwsProfile> = Vec::new();
    take_profile_entry(&mut ws, &infra, &sso_entry("acme-dev"), Some("acme".to_string()), Some("dev".to_string()));
    assert_eq!(ws.len(), 1);
    assert_eq!(ws[0].profile_base_name, "acme");
    assert_eq!(ws[0].sso_profiles.len(), 1);
    assert_eq!(ws[0].sso_profiles[0].env, Env::DEV);
    take_profile_entry(&mut ws, &infra, &sso_entry("acme-prod"), Some("acme".to_string()), Some("prod".to_string()));
    assert_eq!(ws.len(), 1);
    assert_eq!(ws[0].sso_profiles.len(), 2);
    take_profile_entry(&mut ws, &infra, &sso_entry("solo"), None, None);
    assert_eq!(ws.len(), 2);
    assert_eq!(ws[1].name, "solo");
    let envs: Vec<Env> = ws[1].sso_profiles.iter().map(|s| s.env).collect();
    assert_eq!(envs, vec![Env::DEV, Env::DEMO, Env::PROD]);
    take_profile_entry(&mut ws, &infra, &infra_entry("users-dev", Some("acme-dev")), Some("users".to_string()), Some("dev".to_string()));
    assert_eq!(ws.len(), 2);
}

#[test]
fn interceptors_of_service_proxy() {
    assert_eq!(service_interceptors(None), vec![InterceptorKind::StaticHeaders]);
    assert_eq!(service_interceptors(Some("jepsen")), vec![InterceptorKind::StaticHeaders, InterceptorKind::Jepsen]);
    assert_eq!(service_interceptors(Some("basic")), vec![InterceptorKind::StaticHeaders, InterceptorKind::Basic]);
    assert_eq!(service_interceptors(Some("oauth")), vec![InterceptorKind::StaticHeaders]);
}

#[test]
fn readable_streams() {
    assert!(is_readable(&log_stream(Some(1000), None)));
    assert!(is_readable(&log_stream(None, Some(i64::MAX - 60000))));
    assert!(!is_readable(&log_stream(None, Some(i64::MAX - 59999))));
    assert!(!is_readable(&log_stream(Some(i64::MAX), Some(0))));
    assert!(is_readable(&log_stream(None, None)));
    assert!(streams_readable(&vec![]));
    assert!(streams_readable(&vec![log_stream(Some(1), None), log_stream(None, None)]));
    assert!(!streams_readable(&vec![log_stream(Some(1), None), log_stream(Some(i64::MAX), None)]));
}

#[test]
fn port_free_checks() {
    let mut map: Vec<(String, u16)> = Vec::new();
    assert!(port_free(&map, "arn:a", 52000, 52002));
    map.push(("arn:a".to_string(), 52000));
    map.push(("arn:b".to_string(), 52001));
    assert!(port_free(&map, "arn:a", 52000, 52002));
    assert!(port_free(&map, "arn:c", 52000, 52002));
    for p in 58000..59000u16 {
        map.push((format!("arn:f{}", p), p));
    }
    assert!(!port_free(&map, "arn:c", 52000, 52002));
    assert!(port_free(&map, "arn:b", 52000, 52002));
    assert!(port_free(&map, "arn:c", 52000, 52003));
}

#[test]
fn repeated_port_lookup_keeps_port() {
    let mut map: Vec<(String, u16)> = Vec::new();
    let (p, new) = get_port(&mut map, "arn:x", 53000, 53100, 7);
    assert_eq!((p, new), (53007, true));
    let before = map.clone();
    assert_eq!(get_port(&mut map, "arn:x", 53000, 53100, 42), (53007, false));
    assert_eq!(map, before);
}

#[test]
fn full_range_takes_lowest_fallbacks() {
    let mut map: Vec<(String, u16)> = vec![("arn:a".to_string(), 53000), ("arn:b".to_string(), 53001)];
    let (p, new) = get_port(&mut map, "arn:c", 53000, 53002, 1);
    assert_eq!((p, new), (58000, true));
    let (q, _) = get_port(&mut map, "arn:d", 53000, 53002, 0);
    assert_eq!(q, 58001);
}

#[test]
fn versions_order_by_parts() {
    assert_eq!(version_to_number("1.2.3"), 1_002_003);
    assert!(version_to_number("1.2.3") < version_to_number("1.10.0"));
    assert!(version_to_number("1.999.999") < version_to_number("2.0.0"));
    assert!(version_to_number("0.0.9") < version_to_number("0.1.0"));
    assert_eq!(version_to_number("4293.999.999"), 4_293_999_999);
}

#[test]
fn lambda_arn_names_its_app() {
    assert_eq!(arn_to_name(&lambda_arn("users", Env::DEV)), "users");
    assert_eq!(arn_to_name(&lambda_arn("a:b", Env::PROD)), "a:b");
    assert_eq!(arn_to_name(&lambda_arn(":lead", Env::LAB)), ":lead");
    assert_eq!(arn_to_name(&lambda_arn("tail:", Env::LAB)), "tail");
}

#[test]
fn put_survives_other_writes() {
    let mut kv = KVStore::new();
    let key = kv.put("hello".to_string());
    assert_eq!(key.len(), 64);
    assert!(key.chars().all(|c| c.is_ascii_digit() || ('A'..='F').contains(&c)));
    let other = kv.put("world".to_string());
    kv.delete("missing");
    kv.delete(&other);
    kv.put("again".to_string());
    assert_eq!(kv.get(&key), Some("hello".to_string()));
    kv.delete(&key);
    assert_eq!(kv.get(&key), None);
}
