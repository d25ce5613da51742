use wombat::secrets::{
    managed_secret_names, parameter_secret_names, secret_from_parameter, DbSecretDTO, LookupAction,
    LookupEvent, LookupStage, SecretLookup,
};
use wombat::shared::Env;

#[test]
fn managed_names_plain() {
    assert_eq!(
        managed_secret_names("users", Env::DEV),
        vec!["users-dev/db-credentials", "users-dev/spring-datasource-password", "users-dev/datasource-password"]
    );
}

#[test]
fn managed_names_migrated_first_without_mark() {
    let names = managed_secret_names("users-migrated", Env::PROD);
    assert_eq!(names.len(), 6);
    assert_eq!(names[0], "users-prod/db-credentials");
    assert_eq!(names[3], "users-migrated-prod/db-credentials");
    assert_eq!(names[5], "users-migrated-prod/datasource-password");
}

#[test]
fn parameter_names() {
    assert_eq!(
        parameter_secret_names("users", Env::DEMO),
        vec!["/config/users_demo/db-credentials", "/config/users_demo/spring-datasource-password", "/config/users_demo/datasource-password"]
    );
    let migrated = parameter_secret_names("a-migrated", Env::DEV);
    assert_eq!(migrated[0], "/config/a_dev/db-credentials");
    assert_eq!(migrated[3], "/config/a-migrated_dev/db-credentials");
}

fn dto() -> DbSecretDTO {
    DbSecretDTO {
        dbInstanceIdentifier: "id".to_string(),
        dbname: "usersdb".to_string(),
        engine: "postgres".to_string(),
        host: "h".to_string(),
        password: "pw".to_string(),
        port: 5432,
        username: "admin".to_string(),
    }
}

#[test]
fn lookup_reads_single_listed_secret() {
    let (mut lookup, first) = SecretLookup::start("users", Env::DEV);
    assert!(matches!(first, LookupAction::ListSecrets(ref n) if n == "users-dev/db-credentials"));
    let next = lookup.step(LookupEvent::Listed(Ok(vec![])));
    assert!(matches!(next, LookupAction::ListSecrets(ref n) if n == "users-dev/spring-datasource-password"));
    let next = lookup.step(LookupEvent::Listed(Ok(vec![Some("arn:secret".to_string())])));
    assert!(matches!(next, LookupAction::ReadSecret(ref a) if a == "arn:secret"));
    assert_eq!(lookup.stage, LookupStage::Reading(1));
    match lookup.step(LookupEvent::SecretRead(Ok(dto()))) {
        LookupAction::Finish(Ok(s)) => {
            assert_eq!(s.dbname, "usersdb");
            assert_eq!(s.username, "admin");
            assert_eq!(s.password, "pw");
            assert!(s.auto_rotated);
        },
        other => panic!("unexpected {:?}", other),
    }
    assert_eq!(lookup.stage, LookupStage::Done);
}

#[test]
fn lookup_two_secrets_is_a_miss() {
    let (mut lookup, _) = SecretLookup::start("users", Env::DEV);
    let next = lookup.step(LookupEvent::Listed(Ok(vec![Some("a".to_string()), Some("b".to_string())])));
    assert!(matches!(next, LookupAction::ListSecrets(ref n) if n == "users-dev/spring-datasource-password"));
}

#[test]
fn lookup_auth_error() {
    let (mut lookup, _) = SecretLookup::start("users", Env::DEV);
    match lookup.step(LookupEvent::Listed(Err("denied".to_string()))) {
        LookupAction::Finish(Err(e)) => {
            assert_eq!(e.command, "db_secret");
            assert_eq!(e.message, "Auth error?");
        },
        other => panic!("unexpected {:?}", other),
    }
}

#[test]
fn lookup_access_denied() {
    let (mut lookup, _) = SecretLookup::start("users", Env::DEV);
    lookup.step(LookupEvent::Listed(Ok(vec![Some("arn".to_string())])));
    match lookup.step(LookupEvent::SecretRead(Err("nope".to_string()))) {
        LookupAction::Finish(Err(e)) => assert_eq!(e.message, "Access denied"),
        other => panic!("unexpected {:?}", other),
    }
}

#[test]
fn lookup_falls_back_to_parameters() {
    let (mut lookup, _) = SecretLookup::start("users", Env::DEV);
    lookup.step(LookupEvent::Listed(Ok(vec![])));
    lookup.step(LookupEvent::Listed(Ok(vec![])));
    let next = lookup.step(LookupEvent::Listed(Ok(vec![])));
    assert!(matches!(next, LookupAction::ReadParameter(ref n) if n == "/config/users_dev/db-credentials"));
    let next = lookup.step(LookupEvent::ParameterRead(None));
    assert!(matches!(next, LookupAction::ReadParameter(ref n) if n == "/config/users_dev/spring-datasource-password"));
    match lookup.step(LookupEvent::ParameterRead(Some("secret".to_string()))) {
        LookupAction::Finish(Ok(s)) => {
            assert_eq!(s.dbname, "users");
            assert_eq!(s.username, "users");
            assert_eq!(s.password, "secret");
            assert!(!s.auto_rotated);
        },
        other => panic!("unexpected {:?}", other),
    }
}

#[test]
fn lookup_finds_nothing() {
    let (mut lookup, _) = SecretLookup::start("users", Env::DEV);
    for _ in 0..3 {
        lookup.step(LookupEvent::Listed(Ok(vec![])));
    }
    lookup.step(LookupEvent::ParameterRead(None));
    lookup.step(LookupEvent::ParameterRead(None));
    match lookup.step(LookupEvent::ParameterRead(None)) {
        LookupAction::Finish(Err(e)) => {
            assert_eq!(e.command, "db_secret");
            assert_eq!(e.message, "No secret found");
        },
        other => panic!("unexpected {:?}", other),
    }
}

#[test]
fn single_parameter_secret() {
    assert_eq!(secret_from_parameter(Some("v".to_string())).unwrap(), "v");
    let e = secret_from_parameter(None).unwrap_err();
    assert_eq!(e.command, "secret");
    assert_eq!(e.message, "Secret not found");
}
