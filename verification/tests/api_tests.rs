use wombat::global_db::{feature_enabled, log_filter_from_row, user_feature_enabled};
use wombat::wombat_api::{api_status, decode_payload, feature_answer, token_payload, Claims, WombatApi};

#[test]
fn status_chain() {
    assert_eq!(api_status(false, true, true), Err("Not connected".to_string()));
    assert_eq!(api_status(true, false, true), Err("Not authenticated".to_string()));
    assert_eq!(api_status(true, true, false), Err("Requirements not met".to_string()));
    assert_eq!(api_status(true, true, true), Ok("Connected".to_string()));
}

#[test]
fn feature_bodies() {
    assert!(feature_answer("true"));
    assert!(!feature_answer("True"));
    assert!(!feature_answer("false"));
}

#[test]
fn endpoints() {
    let api = WombatApi::new("https://w".to_string(), "u".to_string(), "p".to_string(), "id-1".to_string());
    assert_eq!(api.health_url(), "https://w/health");
    assert_eq!(api.login_url(), "https://w/api/login");
    assert_eq!(api.feature_url("dev-way"), "https://w/api/features/dev-way");
    assert_eq!(api.features_url(), "https://w/api/features");
    assert_eq!(api.log_filters_url(), "https://w/api/log-filters");
    assert_eq!(api.proxy_auth_configs_url(), "https://w/api/proxy-auth-configs");
    assert_eq!(api.versions_url(), "https://w/api/versions");
    assert_eq!(api.bearer_header(), None);
}

#[test]
fn login_keeps_token() {
    let mut api = WombatApi::new("https://w".to_string(), "u".to_string(), "p".to_string(), "id-1".to_string());
    assert!(!api.accept_login(None));
    assert_eq!(api.jwt, None);
    assert!(api.accept_login(Some("jwt".to_string())));
    assert_eq!(api.bearer_header(), Some("Bearer jwt".to_string()));
}

#[test]
fn token_parts() {
    assert_eq!(token_payload("head.eyJhIjoxfQ.sig"), Some("eyJhIjoxfQ".to_string()));
    assert_eq!(token_payload("nodots"), None);
    assert_eq!(decode_payload(b"eyJhIjoxfQ"), Some(b"{\"a\":1}".to_vec()));
    assert_eq!(decode_payload(b"eyJhIjoxfQ=="), None);
}

#[test]
fn claims_validity() {
    let c = Claims { app_user_id: "1".to_string(), email: "e".to_string(), role: "r".to_string(), exp: 1000 };
    assert_eq!(c.is_valid_at(999, 999_999_999), Some(true));
    assert_eq!(c.is_valid_at(1000, 999), Some(true));
    assert_eq!(c.is_valid_at(1000, 1000), Some(false));
    assert_eq!(c.is_valid_at(1001, 0), Some(false));
    let far = Claims { exp: i64::MAX, ..c };
    assert_eq!(far.is_valid_at(0, 0), None);
}

#[test]
fn global_rows() {
    let f = log_filter_from_row("ERROR".to_string(), "users;orders", "Errors".to_string());
    assert_eq!(f.services, vec!["users".to_string(), "orders".to_string()]);
    assert_eq!(f.label, "Errors");
    assert_eq!(log_filter_from_row("x".to_string(), "", "l".to_string()).services, vec!["".to_string()]);
    assert!(feature_enabled(Some(1)));
    assert!(!feature_enabled(Some(2)));
    assert!(!feature_enabled(None));
    assert!(!user_feature_enabled(false, Some(1)));
    assert!(user_feature_enabled(true, Some(1)));
}

fn claims_expiring(exp: i64) -> Claims {
    Claims { app_user_id: "1".to_string(), email: "e".to_string(), role: "r".to_string(), exp }
}

#[test]
fn claims_validity_at_chrono_limits() {
    assert_eq!(claims_expiring(8_210_266_876_799).is_valid_at(0, 0), Some(true));
    assert_eq!(claims_expiring(8_210_266_876_800).is_valid_at(0, 0), None);
    assert_eq!(claims_expiring(-8_334_601_228_800).is_valid_at(i64::MIN, 0), Some(true));
    assert_eq!(claims_expiring(-8_334_601_228_800).is_valid_at(0, 0), Some(false));
    assert_eq!(claims_expiring(-8_334_601_228_801).is_valid_at(0, 0), None);
}
