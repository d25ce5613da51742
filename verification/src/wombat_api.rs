//! The client side of the Wombat back end: its endpoints, the reading of
//! its tokens, and the status it is reported with. The HTTP calls are made
//! by the application.
use vstd::prelude::*;
use crate::external::{base64_no_pad_decode, base64_no_pad_decoded, timestamp_in_range, timestamp_representable};
use crate::text::{append_str, chars_of, split_char, split_on, seqs_of, string_from};

verus! {

broadcast use vstd::string::group_string_axioms;

/// A saved log search filter.
#[derive(Debug)]
pub struct LogFilter {
    pub id: i64,
    pub filter: String,
    pub services: Vec<String>,
    pub label: String,
}

/// How a proxy to `to_app` authenticates its requests under `api_path`:
/// `jepsen` (a token from a Jepsen endpoint) or `basic` (a user and a
/// password kept as a secret).
#[derive(Debug)]
pub struct ProxyAuthConfig {
    pub id: i64,
    pub from_app: String,
    pub to_app: String,
    pub env: String,
    pub auth_type: String,
    pub api_path: String,
    pub jepsen_auth_api: Option<String>,
    pub jepsen_api_name: Option<String>,
    pub jepsen_client_id: Option<String>,
    pub basic_user: Option<String>,
    pub secret_name: String,
    pub require_sso_profile: bool,
}

/// The identity of the user at the Wombat back end, and its token.
pub struct WombatApi {
    pub user_id: String,
    pub user: String,
    pub password: String,
    pub jwt: Option<String>,
    pub url: String,
}

/// The status the back end is reported with, from how far the checks got:
/// it answered, the user could authenticate, the required feature is on.
pub open spec fn status_of(reachable: bool, authenticated: bool, feature_enabled: bool) -> Result<
    Seq<char>,
    Seq<char>,
> {
    if !reachable {
        Err("Not connected"@)
    } else if !authenticated {
        Err("Not authenticated"@)
    } else if !feature_enabled {
        Err("Requirements not met"@)
    } else {
        Ok("Connected"@)
    }
}

/// The views of a status.
pub open spec fn status_view(r: Result<String, String>) -> Result<Seq<char>, Seq<char>> {
    match r {
        Ok(s) => Ok(s@),
        Err(s) => Err(s@),
    }
}

/// The status of the back end: `authenticated` is only asked of a back end
/// that answered, and `feature_enabled` only of one the user authenticated
/// with.
pub fn api_status(reachable: bool, authenticated: bool, feature_enabled: bool) -> (r: Result<String, String>)
    ensures
        status_view(r) == status_of(reachable, authenticated, feature_enabled),
{
    if !reachable {
        Err("Not connected".to_string())
    } else if !authenticated {
        Err("Not authenticated".to_string())
    } else if !feature_enabled {
        Err("Requirements not met".to_string())
    } else {
        Ok("Connected".to_string())
    }
}

/// Whether the body of a feature query says the feature is on: exactly
/// `true`.
pub fn feature_answer(body: &str) -> (r: bool)
    ensures
        r == (body@ == "true"@),
{
    body.to_string() == "true".to_string()
}

impl WombatApi {
    /// A client of the back end at `url` for `user`, without a token yet.
    pub fn new(url: String, user: String, password: String, user_id: String) -> (r: WombatApi)
        ensures
            r.url == url,
            r.user == user,
            r.password == password,
            r.user_id == user_id,
            r.jwt is None,
    {
        WombatApi { user_id, jwt: None, user, password, url }
    }

    /// The address of `path` at the back end.
    pub fn endpoint(&self, path: &str) -> (r: String)
        ensures
            r@ == self.url@ + path@,
    {
        let mut text = chars_of(self.url.as_str());
        append_str(&mut text, path);
        string_from(&text)
    }

    /// The address of the health check.
    pub fn health_url(&self) -> (r: String)
        ensures
            r@ == self.url@ + "/health"@,
    {
        self.endpoint("/health")
    }

    /// The address of the login.
    pub fn login_url(&self) -> (r: String)
        ensures
            r@ == self.url@ + "/api/login"@,
    {
        self.endpoint("/api/login")
    }

    /// The address of the query for `feature`.
    pub fn feature_url(&self, feature: &str) -> (r: String)
        ensures
            r@ == self.url@ + "/api/features/"@ + feature@,
    {
        let mut text = chars_of(self.url.as_str());
        append_str(&mut text, "/api/features/");
        append_str(&mut text, feature);
        string_from(&text)
    }

    /// The address of the list of enabled features.
    pub fn features_url(&self) -> (r: String)
        ensures
            r@ == self.url@ + "/api/features"@,
    {
        self.endpoint("/api/features")
    }

    /// The address of the saved log filters.
    pub fn log_filters_url(&self) -> (r: String)
        ensures
            r@ == self.url@ + "/api/log-filters"@,
    {
        self.endpoint("/api/log-filters")
    }

    /// The address of the proxy authentication settings.
    pub fn proxy_auth_configs_url(&self) -> (r: String)
        ensures
            r@ == self.url@ + "/api/proxy-auth-configs"@,
    {
        self.endpoint("/api/proxy-auth-configs")
    }

    /// The address the versions in use are reported to.
    pub fn versions_url(&self) -> (r: String)
        ensures
            r@ == self.url@ + "/api/versions"@,
    {
        self.endpoint("/api/versions")
    }

    /// The `Authorization` header value the client sends, where it holds a
    /// token: `Bearer` and the token.
    pub fn bearer_header(&self) -> (r: Option<String>)
        ensures
            self.jwt is None ==> r is None,
            self.jwt matches Some(t) ==> (r matches Some(h) && h@ == "Bearer "@ + t@),
    {
        match &self.jwt {
            Some(t) => {
                let mut text = chars_of("Bearer ");
                append_str(&mut text, t.as_str());
                Some(string_from(&text))
            },
            None => None,
        }
    }

    /// Takes the answer to a login: a token where the back end accepted the
    /// user, which the client keeps; says whether the user is authenticated.
    pub fn accept_login(&mut self, token: Option<String>) -> (r: bool)
        ensures
            r == (token is Some),
            token is Some ==> final(self).jwt == token,
            token is None ==> final(self).jwt == old(self).jwt,
            final(self).url == old(self).url,
            final(self).user == old(self).user,
            final(self).password == old(self).password,
            final(self).user_id == old(self).user_id,
    {
        match token {
            Some(t) => {
                self.jwt = Some(t);
                true
            },
            None => false,
        }
    }
}

/// What a token says of its user.
#[derive(Debug)]
pub struct Claims {
    pub app_user_id: String,
    pub email: String,
    pub role: String,
    pub exp: i64,
}

/// The payload of a token: its second `.`-separated part, where it has one.
pub fn token_payload(token: &str) -> (r: Option<String>)
    ensures
        split_char(token@, '.').len() >= 2 ==> (r matches Some(p) && p@ == split_char(token@, '.')[1]),
        split_char(token@, '.').len() < 2 ==> r is None,
{
    let chars = chars_of(token);
    let parts = split_on(&chars, '.');
    if parts.len() >= 2 {
        assert(seqs_of(parts@)[1] == parts@[1]@);
        Some(string_from(&parts[1]))
    } else {
        None
    }
}

/// The bytes of the payload of a token, decoded from unpadded base64.
pub fn decode_payload(payload: &[u8]) -> (r: Option<Vec<u8>>)
    ensures
        r is Some <==> base64_no_pad_decoded(payload@) is Some,
        r matches Some(v) ==> base64_no_pad_decoded(payload@) == Some(v@),
{
    base64_no_pad_decode(payload)
}

impl Claims {
    /// Whether the token is still valid at the instant `now_secs` seconds
    /// and `now_nanos` nanoseconds after the epoch: before the instant `exp`
    /// seconds and a microsecond after the epoch, compared to the
    /// nanosecond. `None` where chrono cannot represent that instant.
    pub fn is_valid_at(&self, now_secs: i64, now_nanos: u32) -> (r: Option<bool>)
        ensures
            r is Some <==> timestamp_in_range(self.exp as int),
            r matches Some(b) ==> b == (now_secs * 1000000000 + now_nanos < self.exp * 1000000000
                + 1000),
    {
        if !timestamp_representable(self.exp) {
            return None;
        }
        let n: i128 = now_secs as i128;
        let e: i128 = self.exp as i128;
        let m: i128 = now_nanos as i128;
        Some(n * 1000000000 + m < e * 1000000000 + 1000)
    }
}

} // verus!
