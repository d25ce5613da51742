use wombat::proxy::{
    forward_address, session_log_names, ssm_session_args, startup_wait, BasicAuthenticator,
    CookieAutheticator, JepsenAutheticator, JepsenBody, ProxyInterceptor, RequestHeaders, StartupWait,
};
use wombat::shared::{Cookie, CookieJar, Env};
use wombat::wombat_api::ProxyAuthConfig;

fn config(auth_type: &str) -> ProxyAuthConfig {
    ProxyAuthConfig {
        id: 1,
        from_app: "web".to_string(),
        to_app: "users".to_string(),
        env: "dev".to_string(),
        auth_type: auth_type.to_string(),
        api_path: "/api".to_string(),
        jepsen_auth_api: Some("https://auth".to_string()),
        jepsen_api_name: Some("users-api".to_string()),
        jepsen_client_id: Some("client".to_string()),
        basic_user: Some("user".to_string()),
        secret_name: "secret".to_string(),
        require_sso_profile: false,
    }
}

fn value_of<'a>(h: &'a RequestHeaders, name: &str) -> Option<&'a str> {
    h.entries.iter().find(|(n, _)| n == name).map(|(_, v)| v.as_str())
}

#[test]
fn interceptor_sets_headers() {
    let i = ProxyInterceptor {
        path_prefix: "/api".to_string(),
        headers: vec![("X-Trace".to_string(), "1".to_string()), ("Accept".to_string(), "json".to_string())],
    };
    assert!(i.applies("/api/users"));
    assert!(!i.applies("/web"));
    let mut h = RequestHeaders { entries: vec![("accept".to_string(), "xml".to_string()), ("host".to_string(), "h".to_string())] };
    i.modify_headers(&mut h);
    assert_eq!(h.entries.len(), 3);
    assert_eq!(value_of(&h, "x-trace"), Some("1"));
    assert_eq!(value_of(&h, "accept"), Some("json"));
    assert_eq!(value_of(&h, "host"), Some("h"));
}

#[test]
fn jepsen_authenticator() {
    let j = JepsenAutheticator::from_proxy_auth_config(config("jepsen"));
    assert_eq!(j.jepsen_url, "https://auth");
    assert_eq!(j.api_name, "users-api");
    assert_eq!(j.secret_arn, "secret");
    assert!(j.applies("/api/x"));
    let body = j.token_request("s3cret".to_string());
    assert_eq!(body.grant_type, "client_credentials");
    assert_eq!(body.client_id, "client");
    let mut h = RequestHeaders { entries: vec![] };
    j.modify_headers(&mut h, Ok("tok".to_string()));
    assert_eq!(value_of(&h, "authorization"), Some("Bearer tok"));
    let mut h2 = RequestHeaders { entries: vec![] };
    j.modify_headers(&mut h2, Err("no token".to_string()));
    assert!(h2.entries.is_empty());
}

#[test]
fn jepsen_body() {
    let b = JepsenBody::new("api".to_string(), "id".to_string(), "secret".to_string());
    assert_eq!(b.grant_type, "client_credentials");
    assert_eq!(b.api_name, "api");
    assert_eq!(b.client_secret, "secret");
}

#[test]
fn basic_authenticator() {
    let b = BasicAuthenticator::from_proxy_auth_config(config("basic"), Some("pass".to_string()));
    assert_eq!(b.user, "user");
    assert!(b.applies("/api"));
    let mut h = RequestHeaders { entries: vec![("authorization".to_string(), "old".to_string())] };
    b.modify_headers(&mut h);
    assert_eq!(h.entries.len(), 1);
    assert_eq!(value_of(&h, "authorization"), Some("Basic dXNlcjpwYXNz"));
    let none = BasicAuthenticator::from_proxy_auth_config(config("basic"), None);
    let mut h = RequestHeaders { entries: vec![] };
    none.modify_headers(&mut h);
    assert!(h.entries.is_empty());
}

#[test]
fn cookie_authenticator() {
    let jar = CookieJar {
        cookies: vec![Cookie { name: "s".to_string(), value: "1".to_string(), env: Env::DEV, stored_at: 0 }],
    };
    let c = CookieAutheticator { env: Env::DEV };
    assert!(c.applies("/anything"));
    let mut h = RequestHeaders { entries: vec![] };
    c.modify_headers(&mut h, &jar);
    assert_eq!(value_of(&h, "cookie"), Some("s=1"));
    let other = CookieAutheticator { env: Env::PROD };
    let mut h = RequestHeaders { entries: vec![] };
    other.modify_headers(&mut h, &jar);
    assert!(h.entries.is_empty());
}

#[test]
fn session_arguments() {
    let args = ssm_session_args("i-1", "acme-dev", "db.local", 5432, 52001);
    assert_eq!(args[0], "ssm");
    assert_eq!(args[3], "i-1");
    assert_eq!(args[5], "acme-dev");
    assert_eq!(args[7], "AWS-StartPortForwardingSessionToRemoteHost");
    assert_eq!(args[9], "{\"host\":[\"db.local\"], \"portNumber\":[\"5432\"], \"localPortNumber\":[\"52001\"]}");
    assert_eq!(session_log_names(52001), ("out-52001.log".to_string(), "err-52001.log".to_string()));
    assert_eq!(forward_address(63001), "http://localhost:63001/");
}

#[test]
fn session_startup() {
    assert_eq!(startup_wait("Starting...\nWaiting for connections...\n", 3), StartupWait::Ready);
    assert_eq!(startup_wait("Starting...", 10), StartupWait::KeepWaiting);
    assert_eq!(startup_wait("Starting...", 11), StartupWait::GiveUp);
    assert_eq!(startup_wait("Waiting for connections...", 50), StartupWait::Ready);
}

#[test]
fn basic_authorization_padding() {
    for (password, expected) in [("pa", "Basic dXNlcjpwYQ=="), ("pas", "Basic dXNlcjpwYXM="), ("é", "Basic dXNlcjrDqQ==")] {
        let b = BasicAuthenticator::from_proxy_auth_config(config("basic"), Some(password.to_string()));
        let mut h = RequestHeaders { entries: vec![] };
        b.modify_headers(&mut h);
        assert_eq!(value_of(&h, "authorization"), Some(expected));
    }
}
