use wombat::resources::{
    bastion_from_instance, bastion_instance_for, bastions, clusters_from_arns, collect_databases,
    more_database_pages, rds_instance_from, services_from_arns, ArhAwsResolver, ArhEnvironment,
    Bastion, Cluster, DbInstanceData, Ec2Instance, ReportedEndpoint, SdkAwsResolver, Tag,
};
use wombat::shared::Env;

fn tag(k: Option<&str>, v: Option<&str>) -> Tag {
    Tag { key: k.map(|s| s.to_string()), value: v.map(|s| s.to_string()) }
}

#[test]
fn bastion_env_from_first_environment_tag() {
    let inst = Ec2Instance {
        instance_id: Some("i-1".to_string()),
        tags: vec![tag(Some("Name"), Some("dev-bastion")), tag(Some("Environment"), Some("dev")), tag(Some("Environment"), Some("prod"))],
    };
    let b = bastion_from_instance(&inst);
    assert_eq!(b.instance_id, "i-1");
    assert_eq!(b.env, Env::DEV);
}

#[test]
fn bastion_without_environment_tag_is_devnull() {
    let inst = Ec2Instance { instance_id: Some("i-2".to_string()), tags: vec![tag(None, Some("prod")), tag(Some("Environment"), None)] };
    assert_eq!(bastion_from_instance(&inst).env, Env::DEVNULL);
}

#[test]
fn bastions_keep_order_and_first_of_env_is_chosen() {
    let insts = vec![
        Ec2Instance { instance_id: Some("i-a".to_string()), tags: vec![tag(Some("Environment"), Some("prod"))] },
        Ec2Instance { instance_id: Some("i-b".to_string()), tags: vec![tag(Some("Environment"), Some("dev"))] },
        Ec2Instance { instance_id: Some("i-c".to_string()), tags: vec![tag(Some("Environment"), Some("dev"))] },
    ];
    let bs = bastions(&insts);
    assert_eq!(bs.len(), 3);
    assert_eq!(bastion_instance_for(&bs, Env::DEV), Some("i-b".to_string()));
    assert_eq!(bastion_instance_for(&bs, Env::PROD), Some("i-a".to_string()));
    assert_eq!(bastion_instance_for(&bs, Env::LAB), None);
    let sdk = SdkAwsResolver::new();
    assert_eq!(sdk.bastions(&insts).len(), 3);
}

#[test]
fn arh_resolver_maps_environments() {
    let arh = ArhAwsResolver::new();
    let bs: Vec<Bastion> = arh.bastions(vec![
        ("i-1".to_string(), ArhEnvironment::Dev),
        ("i-2".to_string(), ArhEnvironment::Demo),
        ("i-3".to_string(), ArhEnvironment::Prod),
        ("i-4".to_string(), ArhEnvironment::Other),
    ]);
    assert_eq!(bs.iter().map(|b| b.env).collect::<Vec<_>>(), vec![Env::DEV, Env::DEMO, Env::PROD, Env::DEVNULL]);
    assert_eq!(bs[3].instance_id, "i-4");
}

#[test]
fn clusters_named_after_arn() {
    let cs = clusters_from_arns(&vec![
        "arn:aws:ecs:eu-west-1:123:cluster/dsi-dev".to_string(),
        "arn:aws:ecs:eu-west-1:123:cluster/dsi-prod".to_string(),
    ]);
    assert_eq!(cs[0].name, "dsi-dev");
    assert_eq!(cs[0].env, Env::DEV);
    assert_eq!(cs[1].name, "dsi-prod");
    assert_eq!(cs[1].env, Env::PROD);
}

#[test]
fn services_sorted_by_name() {
    let cluster = Cluster { name: "dsi-dev".to_string(), arn: "arn:c".to_string(), env: Env::DEV };
    let ss = services_from_arns(
        &vec![
            "arn:aws:ecs:eu-west-1:1:service/dsi-dev/zeta".to_string(),
            "arn:aws:ecs:eu-west-1:1:service/dsi-dev/alpha".to_string(),
            "arn:aws:ecs:eu-west-1:1:service/dsi-dev/Beta".to_string(),
        ],
        &cluster,
    );
    let names: Vec<&str> = ss.iter().map(|s| s.name.as_str()).collect();
    assert_eq!(names, vec!["Beta", "alpha", "zeta"]);
    assert!(ss.iter().all(|s| s.cluster_arn == "arn:c" && s.env == Env::DEV));
    assert_eq!(ss[1].arn, "arn:aws:ecs:eu-west-1:1:service/dsi-dev/alpha");
}

fn db(arn: &str, named: bool, app: &str, env: &str) -> DbInstanceData {
    DbInstanceData {
        arn: Some(arn.to_string()),
        has_db_name: named,
        endpoint: Some(ReportedEndpoint { address: Some("db.local".to_string()), port: Some(5432) }),
        engine: Some("postgres".to_string()),
        engine_version: Some("14.1".to_string()),
        tags: vec![tag(Some("AppName"), Some(app)), tag(Some("Environment"), Some(env))],
    }
}

#[test]
fn rds_instance_fields() {
    let r = rds_instance_from(&db("arn:aws:rds:eu-west-1:123:db:dsi-dev-users-migrated", true, "users", "dev"));
    assert_eq!(r.name, "users-migrated");
    assert_eq!(r.normalized_name, "users");
    assert_eq!(r.engine, "postgres");
    assert_eq!(r.engine_version, "v14.1");
    assert_eq!(r.endpoint.address, "db.local");
    assert_eq!(r.endpoint.port, 5432);
    assert_eq!(r.appname_tag, "users");
    assert_eq!(r.environment_tag, "dev");
    assert_eq!(r.env, Env::DEV);
}

#[test]
fn rds_instance_defaults() {
    let mut d = db("arn:aws:rds:eu-west-1:123:db:mydb", true, "x", "qa");
    d.engine = None;
    d.engine_version = None;
    d.tags = vec![];
    let r = rds_instance_from(&d);
    assert_eq!(r.name, "mydb");
    assert_eq!(r.engine, "??");
    assert_eq!(r.engine_version, "v??");
    assert_eq!(r.appname_tag, "");
    assert_eq!(r.environment_tag, "");
    assert_eq!(r.env, Env::DEVNULL);
}

#[test]
fn databases_with_name_sorted() {
    let reports = vec![
        db("arn:aws:rds:eu-west-1:1:db:dsi-dev-orders", true, "orders", "dev"),
        db("arn:aws:rds:eu-west-1:1:db:dsi-dev-skip", false, "skip", "dev"),
        db("arn:aws:rds:eu-west-1:1:db:dsi-prod-accounts", true, "accounts", "prod"),
    ];
    let dbs = collect_databases(&reports);
    assert_eq!(dbs.len(), 2);
    assert_eq!(dbs[0].name, "accounts");
    assert_eq!(dbs[0].env, Env::PROD);
    assert_eq!(dbs[1].name, "orders");
}

#[test]
fn database_pages() {
    assert!(more_database_pages(100, &Some("m".to_string())));
    assert!(!more_database_pages(99, &Some("m".to_string())));
    assert!(!more_database_pages(100, &None));
}
