use wombat::shared::{
    arn_to_name, cluster_arn_to_name, ecs_arn_to_name, rds_arn_to_name, version_number_checked,
    version_to_number, BrowserExtension, BrowserExtensionState, CommandError, Cookie, CookieHealth,
    CookieJar, Env,
};

#[test]
fn env_from_exact_names() {
    assert_eq!(Env::from_exact("play"), Env::PLAY);
    assert_eq!(Env::from_exact("lab"), Env::LAB);
    assert_eq!(Env::from_exact("dev"), Env::DEV);
    assert_eq!(Env::from_exact("demo"), Env::DEMO);
    assert_eq!(Env::from_exact("prod"), Env::PROD);
    assert_eq!(Env::from_exact("Dev"), Env::DEVNULL);
    assert_eq!(Env::from_exact(""), Env::DEVNULL);
}

#[test]
fn env_from_any_text() {
    assert_eq!(Env::from_any("arn:aws:ecs:eu-west-1:123:cluster/demo-apps"), Env::DEMO);
    assert_eq!(Env::from_any("dsi-prod-users"), Env::PROD);
    assert_eq!(Env::from_any("nothing-here"), Env::DEVNULL);
}

#[test]
fn env_names() {
    assert_eq!(Env::PLAY.name(), "play");
    assert_eq!(Env::DEVNULL.name(), "devnull");
}

#[test]
fn resource_names() {
    assert_eq!(ecs_arn_to_name("arn:aws:ecs:eu-west-1:123:service/dsi-dev/users-api"), "users-api");
    assert_eq!(cluster_arn_to_name("arn:aws:ecs:eu-west-1:123:cluster/dsi-dev"), "dsi-dev");
    assert_eq!(rds_arn_to_name("arn:aws:rds:eu-west-1:123:db:dsi-dev-users-db"), "users-db");
    assert_eq!(arn_to_name("arn:aws:ecs:eu-west-1:123:service/dsi-dev/users-api"), "users-api");
    assert_eq!(arn_to_name("arn:aws:rds:eu-west-1:123:db:dsi-prod-orders"), "orders");
    assert_eq!(arn_to_name("lambdaApp::shop::dev"), "shop");
    assert_eq!(arn_to_name("something"), "unknown!#something");
}

#[test]
fn version_numbers() {
    assert_eq!(version_to_number("1.2.3"), 1002003);
    assert_eq!(version_to_number("2.0"), 2000000);
    assert_eq!(version_to_number("x.5.1"), 5001);
    assert_eq!(version_to_number("0.0.0"), 0);
    assert_eq!(version_number_checked("1.2.3"), Some(1002003));
    assert_eq!(version_number_checked("1.2.3.4"), None);
}

fn extension(version: Option<&str>, last: i64) -> BrowserExtension {
    BrowserExtension {
        version: version.map(|v| v.to_string()),
        reported_version: None,
        last_health_check: last,
        expected_version: "1.2.0".to_string(),
        last_supported_version: "1.0.0".to_string(),
    }
}

#[test]
fn browser_extension_states() {
    assert_eq!(extension(Some("1.2.0"), 1000).status_at(5000).state, BrowserExtensionState::UpToDate);
    assert_eq!(extension(Some("1.3.0"), 1000).status_at(5000).state, BrowserExtensionState::UpToDate);
    assert_eq!(extension(Some("1.1.0"), 1000).status_at(5000).state, BrowserExtensionState::Outdated);
    assert_eq!(extension(Some("0.9.0"), 1000).status_at(5000).state, BrowserExtensionState::NotSupported);
    assert_eq!(extension(None, 1000).status_at(5000).state, BrowserExtensionState::NotSupported);
    assert_eq!(extension(Some("1.2.0"), 1000).status_at(11000).state, BrowserExtensionState::Disconnected);
    assert_eq!(extension(Some("1.2.0"), 1000).status_at(10999).state, BrowserExtensionState::UpToDate);
}

#[test]
fn browser_extension_records_health() {
    let mut ext = extension(None, 0);
    ext.record_health("1.2.0".to_string(), 50_000);
    assert_eq!(ext.version, Some("1.2.0".to_string()));
    assert_eq!(ext.last_health_check, 50_000);
    let st = ext.status_at(52_000);
    assert_eq!(st.state, BrowserExtensionState::UpToDate);
    assert_eq!(st.version, Some("1.2.0".to_string()));
}

fn cookie(name: &str, value: &str, env: Env, at: i64) -> Cookie {
    Cookie { name: name.to_string(), value: value.to_string(), env, stored_at: at }
}

#[test]
fn cookie_header_joins_pairs_of_env() {
    let jar = CookieJar {
        cookies: vec![cookie("a", "1", Env::DEV, 0), cookie("x", "9", Env::PROD, 0), cookie("b", "2", Env::DEV, 0)],
    };
    assert_eq!(jar.header_value_for_env(&Env::DEV), "a=1; b=2");
    assert_eq!(jar.header_value_for_env(&Env::PROD), "x=9");
    assert_eq!(jar.header_value_for_env(&Env::LAB), "");
}

#[test]
fn cookie_put_replaces_same_name() {
    let mut jar = CookieJar { cookies: vec![cookie("a", "1", Env::DEV, 0), cookie("b", "2", Env::DEV, 0)] };
    jar.put(cookie("a", "3", Env::DEV, 5));
    assert_eq!(jar.cookies.len(), 2);
    assert_eq!(jar.cookies[0].name, "b");
    assert_eq!(jar.cookies[1].value, "3");
    assert_eq!(jar.header_value_for_env(&Env::DEV), "b=2; a=3");
}

#[test]
fn cookie_delete_removes_name() {
    let mut jar = CookieJar { cookies: vec![cookie("a", "1", Env::DEV, 0), cookie("b", "2", Env::DEV, 0)] };
    jar.delete("a");
    assert_eq!(jar.cookies.len(), 1);
    assert_eq!(jar.cookies[0].name, "b");
    jar.delete("zzz");
    assert_eq!(jar.cookies.len(), 1);
}

#[test]
fn cookie_jar_status_per_env() {
    let now: i64 = 10 * 24 * 3600 * 1000;
    let jar = CookieJar { cookies: vec![cookie("a", "1", Env::DEV, now - 1000), cookie("b", "2", Env::PROD, 0)] };
    let status = jar.status_at(now);
    let dev = status.cookie_health.iter().find(|(e, _)| *e == Env::DEV).map(|(_, h)| *h);
    assert_eq!(dev, Some(CookieHealth::Fresh));
    let prod = status.cookie_health.iter().find(|(e, _)| *e == Env::PROD).map(|(_, h)| *h);
    assert!(prod.is_some());
    assert_ne!(prod, Some(CookieHealth::Fresh));
}

#[test]
fn command_error_fields() {
    let e = CommandError::new("login", "Failed to log in".to_string());
    assert_eq!(e.command, "login");
    assert_eq!(e.message, "Failed to log in");
}
