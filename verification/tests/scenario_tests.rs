use wombat::commands::{dbeaver_connection, kv_answer, lambda_arn};
use wombat::profiles::{load_aws_profile_configuration, ProfileEntry, SupportLevel};
use wombat::proxy::{ProxyInterceptor, RequestHeaders};
use wombat::resources::{normalize_name, Cluster, EcsService, Endpoint, RdsInstance};
use wombat::secrets::{DbSecret, LookupAction, LookupEvent, SecretLookup};
use wombat::session::{services_in_clusters, unique_clusters, unique_databases};
use wombat::shared::{arn_to_name, Env};

fn sso(name: &str) -> ProfileEntry {
    ProfileEntry {
        name: name.to_string(),
        role_arn: None,
        source_profile: None,
        sso_start_url: Some("https://start".to_string()),
        sso_account_id: Some("590184069535".to_string()),
        region: Some("eu-west-1".to_string()),
    }
}

fn infra(name: &str, app: &str, source: &str) -> ProfileEntry {
    ProfileEntry {
        name: name.to_string(),
        role_arn: Some(format!("arn:aws:iam::123567890:role/{}-infra", app)),
        source_profile: Some(source.to_string()),
        sso_start_url: None,
        sso_account_id: None,
        region: None,
    }
}

fn infra_names(w: &wombat::profiles::WombatAwsProfile, env: Env) -> Vec<String> {
    let mut names: Vec<String> = w
        .sso_profiles
        .iter()
        .filter(|s| s.env == env)
        .flat_map(|s| s.infra_profiles.iter().map(|i| i.profile_name.clone()))
        .collect();
    names.sort();
    names
}

#[test]
fn single_sso_profile_with_infra_profile_per_app() {
    let ws = load_aws_profile_configuration(&vec![
        sso("acme"),
        infra("service1", "service1", "acme"),
        infra("service2", "service2", "acme"),
    ]);
    assert_eq!(ws.len(), 1);
    let w = &ws[0];
    assert_eq!(w.name, "acme");
    assert_eq!(w.support_level, SupportLevel::Partial);
    let mut envs: Vec<Env> = w.sso_profiles.iter().map(|s| s.env).collect();
    envs.sort_by_key(|e| e.name());
    assert_eq!(envs, vec![Env::DEMO, Env::DEV, Env::PROD]);
    for env in [Env::DEV, Env::DEMO, Env::PROD] {
        assert_eq!(infra_names(w, env), vec!["service1".to_string(), "service2".to_string()]);
    }
}

#[test]
fn single_sso_profile_with_infra_profile_per_app_per_env() {
    let ws = load_aws_profile_configuration(&vec![
        sso("acme"),
        infra("service1-dev", "service1", "acme"),
        infra("service2-dev", "service2", "acme"),
        infra("service2-demo", "service2", "acme"),
    ]);
    assert_eq!(ws.len(), 1);
    let w = &ws[0];
    assert_eq!(infra_names(w, Env::DEV), vec!["service1-dev".to_string(), "service2-dev".to_string()]);
    assert_eq!(infra_names(w, Env::DEMO), vec!["service2-demo".to_string()]);
    assert!(infra_names(w, Env::PROD).is_empty());
}

#[test]
fn sso_profile_per_env() {
    let ws = load_aws_profile_configuration(&vec![
        sso("acme-dev"),
        infra("service1-dev", "service1", "acme-dev"),
        infra("service2-dev", "service2", "acme-dev"),
        sso("acme-demo"),
        infra("service1-demo", "service1", "acme-demo"),
        infra("service2-demo", "service2", "acme-demo"),
    ]);
    assert_eq!(ws.len(), 1);
    let w = &ws[0];
    assert_eq!(w.name, "acme-(dev|demo)");
    assert!(!w.single_source_profile);
    assert_eq!(w.sso_profiles.len(), 2);
    assert_eq!(infra_names(w, Env::DEV), vec!["service1-dev".to_string(), "service2-dev".to_string()]);
    assert_eq!(infra_names(w, Env::DEMO), vec!["service1-demo".to_string(), "service2-demo".to_string()]);
    let dev = w.sso_profiles.iter().find(|s| s.env == Env::DEV).unwrap();
    assert_eq!(dev.profile_name, "acme-dev");
}

#[test]
fn manager_secret_opens_temporary_connection() {
    let (mut lookup, _) = SecretLookup::start("users", Env::DEV);
    lookup.step(LookupEvent::Listed(Ok(vec![Some("arn".to_string())])));
    let dto = wombat::secrets::DbSecretDTO {
        dbInstanceIdentifier: "i".to_string(),
        dbname: "db".to_string(),
        engine: "postgres".to_string(),
        host: "h".to_string(),
        password: "pw".to_string(),
        port: 5432,
        username: "u".to_string(),
    };
    let secret = match lookup.step(LookupEvent::SecretRead(Ok(dto))) {
        LookupAction::Finish(Ok(s)) => s,
        other => panic!("unexpected {:?}", other),
    };
    let conn = dbeaver_connection("users", "localhost", 1, &secret);
    assert!(conn.contains("url=jdbc:postgresql://"));
    assert!(!conn.contains("savePassword=true"));
}

#[test]
fn parameter_secret_opens_saved_connection() {
    let secret = DbSecret { dbname: "users".to_string(), password: "pw".to_string(), username: "users".to_string(), auto_rotated: false };
    let conn = dbeaver_connection("users", "localhost", 1, &secret);
    assert!(conn.contains("savePassword=true|create=true|save=true"));
    assert!(!conn.contains("url=jdbc"));
}

#[test]
fn lambda_arn_round_trip() {
    assert_eq!(arn_to_name(&lambda_arn("shop", Env::DEV)), "shop");
    assert_eq!(arn_to_name(&lambda_arn("", Env::PROD)), "");
}

#[test]
fn header_set_once() {
    let i = ProxyInterceptor { path_prefix: String::new(), headers: vec![("X-A".to_string(), "2".to_string())] };
    let mut h = RequestHeaders {
        entries: vec![("x-a".to_string(), "1".to_string()), ("x-b".to_string(), "b".to_string()), ("x-a".to_string(), "0".to_string())],
    };
    i.modify_headers(&mut h);
    let xs: Vec<&str> = h.entries.iter().filter(|(n, _)| n == "x-a").map(|(_, v)| v.as_str()).collect();
    assert_eq!(xs, vec!["2"]);
    assert_eq!(h.entries.len(), 2);
}

#[test]
fn kv_answers() {
    assert_eq!(kv_answer(Some("v".to_string()), "k"), Ok("v".to_string()));
    assert_eq!(kv_answer(None, "k"), Err("Key k not found".to_string()));
}

#[test]
fn cached_resources() {
    assert_eq!(normalize_name("users-migrated"), "users");
    assert_eq!(normalize_name("users"), "users");
    let clusters = vec![
        Cluster { name: "a".to_string(), arn: "ca".to_string(), env: Env::DEV },
        Cluster { name: "a2".to_string(), arn: "ca".to_string(), env: Env::PROD },
    ];
    let u = unique_clusters(&clusters);
    assert_eq!(u.len(), 1);
    assert_eq!(u[0].name, "a2");
    let services = vec![
        EcsService { arn: "s1".to_string(), name: "x".to_string(), cluster_arn: "ca".to_string(), env: Env::DEV },
        EcsService { arn: "s2".to_string(), name: "y".to_string(), cluster_arn: "cb".to_string(), env: Env::DEV },
    ];
    let kept = services_in_clusters(&services, &clusters);
    assert_eq!(kept.len(), 1);
    assert_eq!(kept[0].arn, "s1");
    let db = |arn: &str, name: &str| RdsInstance {
        arn: arn.to_string(),
        name: name.to_string(),
        normalized_name: name.to_string(),
        engine: "e".to_string(),
        engine_version: "v".to_string(),
        endpoint: Endpoint { address: "a".to_string(), port: 1 },
        environment_tag: String::new(),
        env: Env::DEV,
        appname_tag: String::new(),
    };
    let dbs = vec![db("d1", "one"), db("d2", "two"), db("d1", "uno")];
    let u = unique_databases(&dbs);
    assert_eq!(u.iter().map(|d| d.name.as_str()).collect::<Vec<_>>(), vec!["two", "uno"]);
}
