use wombat::resources::{Cluster, EcsService, Endpoint, RdsInstance};
use wombat::session::{
    clusters_in_envs, databases_for_app, databases_in_envs, discover, env_listed, services_for_app,
    services_in_envs, services_of_cluster, unique_services, AuthTracker,
};
use wombat::shared::Env;

#[test]
fn auth_checks_every_five_minutes() {
    let mut t = AuthTracker::new();
    assert!(t.needs_check(300_001));
    assert!(!t.needs_check(300_000));
    let (r, kill) = t.record_checks(400_000, &vec![true, true]);
    assert!(r.is_ok() && !kill);
    assert_eq!(t.last_auth_check, 400_000);
    assert!(!t.needs_check(700_000));
    assert!(t.needs_check(700_001));
}

#[test]
fn second_failure_closes_window() {
    let mut t = AuthTracker::new();
    let (r, kill) = t.record_checks(10, &vec![true, false]);
    assert_eq!(r, Err("Authentication failed".to_string()));
    assert!(!kill);
    assert_eq!(t.no_of_failed_logins, 1);
    assert_eq!(t.last_auth_check, 0);
    let (_, kill) = t.record_checks(20, &vec![false]);
    assert!(kill);
    let (_, kill) = t.record_checks(30, &vec![false]);
    assert!(!kill);
    t.record_checks(40, &vec![]);
    assert_eq!(t.no_of_failed_logins, 0);
    t.reset();
    assert_eq!(t.last_auth_check, 0);
}

#[test]
fn pass_forgets_failures() {
    let mut t = AuthTracker::new();
    t.record_checks(10, &vec![false]);
    t.record_checks(20, &vec![true]);
    let (_, kill) = t.record_checks(30, &vec![false]);
    assert!(!kill);
}

#[test]
fn discover_finds_untracked_names() {
    let dbs = vec!["arn:aws:rds:eu-west-1:1:db:dsi-dev-users".to_string(), "arn:aws:rds:eu-west-1:1:db:dsi-prod-users".to_string()];
    let services = vec![
        "arn:aws:ecs:eu-west-1:1:service/dsi-dev/users-api".to_string(),
        "arn:aws:ecs:eu-west-1:1:service/dsi-dev/orders".to_string(),
    ];
    let mut found = discover("USERS", &vec![], &dbs, &services);
    found.sort();
    assert_eq!(found, vec!["users".to_string(), "users-api".to_string()]);
    let found = discover("users", &vec!["users".to_string()], &dbs, &services);
    assert_eq!(found, vec!["users-api".to_string()]);
    assert!(discover("", &vec![], &dbs, &services).is_empty());
}

fn service(name: &str, cluster: &str, env: Env) -> EcsService {
    EcsService { arn: format!("arn:{}:{}", cluster, name), name: name.to_string(), cluster_arn: cluster.to_string(), env }
}

fn rds(arn: &str, app: &str, env: Env) -> RdsInstance {
    RdsInstance {
        arn: arn.to_string(),
        name: app.to_string(),
        normalized_name: app.to_string(),
        engine: "postgres".to_string(),
        engine_version: "v1".to_string(),
        endpoint: Endpoint { address: "a".to_string(), port: 1 },
        environment_tag: String::new(),
        env,
        appname_tag: app.to_string(),
    }
}

#[test]
fn filters() {
    let envs = vec![Env::DEV, Env::PROD];
    assert!(env_listed(&envs, Env::PROD));
    assert!(!env_listed(&envs, Env::LAB));
    let services = vec![service("users", "c1", Env::DEV), service("users", "c2", Env::LAB), service("orders", "c1", Env::DEV)];
    assert_eq!(services_for_app(&services, "users", &envs).len(), 1);
    assert_eq!(services_of_cluster(&services, "c1").len(), 2);
    assert_eq!(services_in_envs(&services, &envs).len(), 2);
    let dbs = vec![rds("a", "users", Env::DEV), rds("b", "users", Env::LAB), rds("c", "orders", Env::PROD)];
    assert_eq!(databases_for_app(&dbs, "users", &envs).len(), 1);
    assert_eq!(databases_in_envs(&dbs, &vec![Env::PROD])[0].arn, "c");
    let clusters = vec![
        Cluster { name: "a".to_string(), arn: "a".to_string(), env: Env::LAB },
        Cluster { name: "b".to_string(), arn: "b".to_string(), env: Env::DEV },
    ];
    assert_eq!(clusters_in_envs(&clusters, &envs)[0].name, "b");
}

#[test]
fn unique_by_arn_keeps_last() {
    let mut a2 = service("users", "c1", Env::DEV);
    a2.env = Env::PROD;
    let services = vec![service("users", "c1", Env::DEV), service("orders", "c1", Env::DEV), a2];
    let u = unique_services(&services);
    assert_eq!(u.len(), 2);
    assert_eq!(u[0].name, "orders");
    assert_eq!(u[1].name, "users");
    assert_eq!(u[1].env, Env::PROD);
}
