use wombat::kv::{KVStore, LockCount};
use wombat::profiles::{load_aws_profile_configuration, read_infra_profiles, AwsConfigProvider, ProfileEntry, SupportLevel};
use wombat::shared::Env;
use wombat::user::{get_port, migrate_v4_content, recheck_dbeaver_path, UserConfig};

#[test]
fn kv_put_get_delete() {
    let mut kv = KVStore::new();
    let key = kv.put("hello".to_string());
    assert_eq!(key, "2CF24DBA5FB0A30E26E83B2AC5B9E29E1B161E5C1FA7425E73043362938B9824");
    assert_eq!(kv.get(&key), Some("hello".to_string()));
    assert_eq!(kv.put("hello".to_string()), key);
    assert_eq!(kv.get("missing"), None);
    kv.delete(&key);
    assert_eq!(kv.get(&key), None);
}

#[test]
fn lock_count_increments() {
    let mut c = LockCount { count: 0 };
    c.inc();
    c.inc();
    assert_eq!(c.count, 2);
}

#[test]
fn ports_are_stable_and_distinct() {
    let mut map: Vec<(String, u16)> = Vec::new();
    let (p1, new1) = get_port(&mut map, "arn:a", 52000, 52100, 5);
    assert_eq!((p1, new1), (52005, true));
    let (p2, new2) = get_port(&mut map, "arn:a", 52000, 52100, 70);
    assert_eq!((p2, new2), (52005, false));
    let (p3, _) = get_port(&mut map, "arn:b", 52000, 52100, 5);
    assert_eq!(p3, 52006);
    let (p4, _) = get_port(&mut map, "arn:c", 52000, 52100, 99);
    assert_eq!(p4, 52099);
    assert_eq!(map.len(), 3);
}

#[test]
fn full_range_falls_back() {
    let mut map: Vec<(String, u16)> = Vec::new();
    get_port(&mut map, "arn:a", 52000, 52001, 0);
    let (p, new) = get_port(&mut map, "arn:b", 52000, 52001, 0);
    assert_eq!((p, new), (58000, true));
}

#[test]
fn user_config_ports_in_ranges() {
    let mut c = UserConfig::fresh("id".to_string(), "/logs".to_string());
    let db = c.get_db_port("arn:aws:rds:x");
    assert!((52000..52100).contains(&db));
    assert_eq!(c.get_db_port("arn:aws:rds:x"), db);
    assert!((53000..53100).contains(&c.get_service_port("arn:aws:ecs:x")));
    assert!((54000..54100).contains(&c.get_lambda_app_port("lambdaApp::x::dev")));
    assert!((55000..55100).contains(&c.get_user_session_proxy_port("session")));
}

#[test]
fn user_preferences() {
    let mut c = UserConfig::fresh("id".to_string(), "/logs".to_string());
    c.use_profile("acme", vec![Env::DEV], vec!["users".to_string()]);
    assert_eq!(c.last_used_profile, Some("acme".to_string()));
    assert_eq!(c.preferences.len(), 1);
    let r = c.favorite("acme", "users".to_string()).unwrap();
    assert!(r.preferences[0].1.tracked_names.is_empty());
    let r = c.favorite("acme", "orders".to_string()).unwrap();
    assert_eq!(r.preferences[0].1.tracked_names, vec!["orders".to_string()]);
    let r = c.save_preferred_envs("acme", vec![Env::PROD]).unwrap();
    assert_eq!(r.preferences[0].1.preferred_environments, vec![Env::PROD]);
    c.use_profile("acme", vec![Env::LAB], vec![]);
    assert_eq!(c.preferences.len(), 1);
    assert_eq!(c.preferences[0].1.preferred_environments, vec![Env::PROD]);
}

#[test]
fn user_paths() {
    let mut c = UserConfig::fresh("id".to_string(), "/logs".to_string());
    let e = c.set_dbeaver_path("/nope", false).unwrap_err();
    assert_eq!(e.message, "Invalid path!");
    assert!(c.set_dbeaver_path("/opt/dbeaver", true).is_ok());
    assert_eq!(c.dbeaver_path, Some("/opt/dbeaver".to_string()));
    let e = c.set_logs_path("/x", Err("denied".to_string())).unwrap_err();
    assert_eq!(e.message, "Invalid path! denied");
    assert_eq!(c.logs_dir, "/logs");
    assert!(c.set_logs_path("/x", Ok(())).is_ok());
    assert_eq!(c.logs_dir, "/x");
}

#[test]
fn dbeaver_path_recheck() {
    assert_eq!(recheck_dbeaver_path(Some("/a".to_string()), true, true, true), Some("/a".to_string()));
    assert_eq!(
        recheck_dbeaver_path(Some("/a".to_string()), false, true, false),
        Some("/Applications/DBeaver.app/Contents/MacOS/dbeaver".to_string())
    );
    assert_eq!(recheck_dbeaver_path(None, false, false, true), Some("C:\\Program Files\\DBeaver\\dbeaver.exe".to_string()));
    assert_eq!(recheck_dbeaver_path(None, false, false, false), None);
}

#[test]
fn config_migration_renames_keys() {
    assert_eq!(
        migrate_v4_content("{\"verson\":4,\"preffered_environments\":[]}"),
        "{\"version\":4,\"preferred_environments\":[]}"
    );
}

fn entry(name: &str, role: Option<&str>, source: Option<&str>, sso: bool, account: Option<&str>) -> ProfileEntry {
    ProfileEntry {
        name: name.to_string(),
        role_arn: role.map(|s| s.to_string()),
        source_profile: source.map(|s| s.to_string()),
        sso_start_url: if sso { Some("https://start".to_string()) } else { None },
        sso_account_id: account.map(|s| s.to_string()),
        region: Some("eu-west-1".to_string()),
    }
}

fn profile_set() -> Vec<ProfileEntry> {
    vec![
        entry("acme-dev", None, None, true, Some("835811189142")),
        entry("acme-prod", None, None, true, Some("835811189142")),
        entry("users-dev", Some("arn:aws:iam::1:role/users-infra"), Some("acme-dev"), false, None),
        entry("plain", None, None, false, None),
    ]
}

#[test]
fn infra_profiles_read() {
    let infra = read_infra_profiles(&profile_set());
    assert_eq!(infra.len(), 1);
    assert_eq!(infra[0].app, "users");
    assert_eq!(infra[0].env, Env::DEV);
    assert_eq!(infra[0].source_profile, "acme-dev");
}

#[test]
fn wombat_profiles_grouped() {
    let profiles = load_aws_profile_configuration(&profile_set());
    assert_eq!(profiles.len(), 1);
    let w = &profiles[0];
    assert_eq!(w.name, "acme-(dev|prod)");
    assert_eq!(w.support_level, SupportLevel::Full);
    assert_eq!(w.sso_profiles.len(), 2);
    let dev = w.sso_profiles.iter().find(|s| s.env == Env::DEV).unwrap();
    assert_eq!(dev.infra_profiles.len(), 1);
    assert_eq!(dev.infra_profiles[0].profile_name, "users-dev");
}

#[test]
fn provider_sign_in_and_config_choice() {
    let mut p = AwsConfigProvider::new(profile_set());
    p.login("acme-(dev|prod)", false);
    let mut envs = p.configured_envs();
    envs.sort_by_key(|e| e.name());
    assert_eq!(envs, vec![Env::DEV, Env::PROD]);
    assert_eq!(p.sso_config(&Env::DEV), "acme-dev");
    assert_eq!(p.app_config("users", &Env::DEV), Some("users-dev".to_string()));
    assert_eq!(p.app_config("orders", &Env::DEV), None);
    assert_eq!(p.app_config_with_fallback("orders", &Env::DEV), Some("acme-dev".to_string()));
    p.login("acme-(dev|prod)", true);
    assert_eq!(p.app_config("orders", &Env::PROD), Some("acme-prod".to_string()));
    assert_eq!(p.region_from_profile("acme-dev"), Some("eu-west-1".to_string()));
}

#[test]
fn favorite_twice_restores() {
    let mut c = UserConfig::fresh("id".to_string(), "/logs".to_string());
    c.use_profile("acme", vec![Env::DEV], vec!["users".to_string(), "orders".to_string()]);
    let before: std::collections::HashSet<String> = c.preferences[0].1.tracked_names.iter().cloned().collect();
    c.favorite("acme", "billing".to_string()).unwrap();
    assert!(c.preferences[0].1.tracked_names.contains(&"billing".to_string()));
    let r = c.favorite("acme", "billing".to_string()).unwrap();
    let after: std::collections::HashSet<String> = r.preferences[0].1.tracked_names.iter().cloned().collect();
    assert_eq!(after, before);
    c.favorite("acme", "users".to_string()).unwrap();
    let r = c.favorite("acme", "users".to_string()).unwrap();
    let again: std::collections::HashSet<String> = r.preferences[0].1.tracked_names.iter().cloned().collect();
    assert_eq!(again, before);
}
