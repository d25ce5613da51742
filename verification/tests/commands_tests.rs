use wombat::commands::{
    app_config, auth_kind, aws_local_port, cache_db_file_name, credentials_step, dbeaver_args,
    dbeaver_connection, dbeaver_secret_step, is_stale_cache_file, lambda_arn, logger_kind,
    pending_migrations, release_app_config, service_host, version_write, AuthKind, CredentialStep,
    LoggerKind, VersionWrite, CLUSTER_CACHE_VERSION,
};
use wombat::secrets::DbSecret;
use wombat::shared::{CommandError, Env};

#[test]
fn cache_files() {
    assert!(is_stale_cache_file("wombat.db"));
    assert!(is_stale_cache_file("wombat.db-wal"));
    assert!(is_stale_cache_file("cache-acme.json"));
    assert!(!is_stale_cache_file("v1-cache-acme.db"));
    assert_eq!(cache_db_file_name("acme"), "v1-cache-acme.db");
}

#[test]
fn migrations() {
    assert_eq!(pending_migrations(0, CLUSTER_CACHE_VERSION), vec![1, 2, 3]);
    assert_eq!(pending_migrations(2, 3), vec![3]);
    assert!(pending_migrations(3, 3).is_empty());
    assert!(pending_migrations(5, 3).is_empty());
    assert_eq!(version_write(1), VersionWrite::Insert);
    assert_eq!(version_write(2), VersionWrite::Update);
}

fn secret(rotated: bool) -> DbSecret {
    DbSecret { dbname: "usersdb".to_string(), password: "p@ss w".to_string(), username: "admin".to_string(), auto_rotated: rotated }
}

#[test]
fn dbeaver_connections() {
    assert_eq!(
        dbeaver_connection("users", "localhost", 52001, &secret(true)),
        "driver=postgresql|id=users|name=users|openConsole=true|folder=wombat|url=jdbc:postgresql://localhost:52001/usersdb?user=admin&password=p%40ss%20w"
    );
    assert_eq!(
        dbeaver_connection("users", "localhost", 52001, &secret(false)),
        "driver=postgresql|id=users|name=users|openConsole=true|folder=wombat|savePassword=true|create=true|save=true|host=localhost|port=52001|database=usersdb|user=admin|password=p@ss w"
    );
    let args = dbeaver_args("arn:aws:rds:eu-west-1:1:db:dsi-dev-users", 52001, &secret(false));
    assert_eq!(args[0], "-con");
    assert!(args[1].starts_with("driver=postgresql|id=dsi-dev-users|name=dsi-dev-users|"));
}

#[test]
fn proxy_targets() {
    assert_eq!(aws_local_port(53001), 63001);
    assert_eq!(service_host("users"), "users.service");
    assert_eq!(lambda_arn("shop", Env::DEV), "lambdaApp::shop::dev");
    assert_eq!(auth_kind("jepsen"), AuthKind::Jepsen);
    assert_eq!(auth_kind("basic"), AuthKind::Basic);
    assert_eq!(auth_kind("oauth"), AuthKind::Unknown);
}

#[test]
fn credential_fallbacks() {
    let err = || Err(CommandError::new("db_secret", "Auth error?".to_string()));
    assert!(matches!(credentials_step(Ok(secret(true)), false), CredentialStep::Done(Ok(_))));
    assert!(matches!(credentials_step(err(), true), CredentialStep::RetryWithUserProfile));
    assert!(matches!(credentials_step(err(), false), CredentialStep::Done(Err(ref e)) if e.message == "Auth error?"));
    assert!(matches!(dbeaver_secret_step(err(), true), CredentialStep::RetryWithUserProfile));
    assert!(matches!(dbeaver_secret_step(err(), false), CredentialStep::Done(Err(ref e)) if e.message == "No secret found" && e.command == "db_secret"));
}

#[test]
fn settings() {
    let c = app_config(Some("https://w".to_string()), None, None, None);
    assert_eq!(c.wombat_api_url, "https://w");
    assert_eq!(c.wombat_api_user, "%%WOMBAT_API_USER%%");
    assert_eq!(c.wombat_api_password, "%%WOMBAT_API_PASSWORD%%");
    assert_eq!(c.logger, "console");
    let r = release_app_config();
    assert_eq!(r.logger, "file");
    assert_eq!(logger_kind("console"), Some(LoggerKind::Console));
    assert_eq!(logger_kind("file"), Some(LoggerKind::File));
    assert_eq!(logger_kind("syslog"), None);
}

#[test]
fn dbeaver_password_percent_encoding() {
    let s = DbSecret { dbname: "d".to_string(), password: "aZ09-._~/é".to_string(), username: "u".to_string(), auto_rotated: true };
    assert_eq!(
        dbeaver_connection("x", "h", 1, &s),
        "driver=postgresql|id=x|name=x|openConsole=true|folder=wombat|url=jdbc:postgresql://h:1/d?user=u&password=aZ09-._~%2F%C3%A9"
    );
}
