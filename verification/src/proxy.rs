//! The local proxies: the session-manager port forwarding they ride on, and
//! the interceptors that add headers to the requests they forward.
use vstd::prelude::*;
use crate::external::basic_authorization;
use crate::shared::{CookieJar, Env};
use crate::text::{append_str, chars_of, contains, decimal, decimal_of, has_infix, has_prefix, push_all, starts_with, string_from};
use crate::wombat_api::ProxyAuthConfig;

verus! {

broadcast use vstd::string::group_string_axioms;

/// A character that may stand in a header name.
pub open spec fn header_name_char(c: char) -> bool {
    ('a' <= c <= 'z') || ('A' <= c <= 'Z') || ('0' <= c <= '9') || c == '!' || c == '#' || c == '$'
        || c == '%' || c == '&' || c == '\'' || c == '*' || c == '+' || c == '-' || c == '.'
        || c == '^' || c == '_' || c == '`' || c == '|' || c == '~'
}

/// A text that parses as a header name.
pub open spec fn valid_header_name(s: Seq<char>) -> bool {
    1 <= s.len() <= 65535 && forall|i: int| 0 <= i < s.len() ==> header_name_char(#[trigger] s[i])
}

/// A text that parses as a header value: no control character but tab.
pub open spec fn valid_header_value(s: Seq<char>) -> bool {
    forall|i: int| 0 <= i < s.len() ==> ((#[trigger] s[i]) == '\t' || (s[i] as u32 >= 32 && s[i] as u32 != 127))
}

/// A character in lower case, where it is an ASCII capital.
pub open spec fn lower_char(c: char) -> char {
    if 'A' <= c <= 'Z' {
        ((c as u32) + 32) as char
    } else {
        c
    }
}

/// The name a header is stored under: its ASCII capitals in lower case.
pub open spec fn header_key(s: Seq<char>) -> Seq<char> {
    Seq::new(s.len(), |i: int| lower_char(s[i]))
}

fn lower(c: char) -> (r: char)
    ensures
        r == lower_char(c),
{
    if 'A' <= c && c <= 'Z' {
        let code: u8 = (c as u8) + 32;
        code as char
    } else {
        c
    }
}

/// The headers of a request being forwarded, by stored name.
pub struct RequestHeaders {
    pub entries: Vec<(String, String)>,
}

/// The entries of `es` not stored under `key`.
pub open spec fn without_key(es: Seq<(String, String)>, key: Seq<char>) -> Seq<(String, String)>
    decreases es.len(),
{
    if es.len() == 0 {
        es
    } else if es.last().0@ == key {
        without_key(es.drop_last(), key)
    } else {
        without_key(es.drop_last(), key).push(es.last())
    }
}

impl RequestHeaders {
    /// Sets header `name` to `value`, dropping its former values (as
    /// `HeaderMap::insert` does); the name is stored in lower case.
    pub fn insert(&mut self, name: &str, value: String)
        requires
            valid_header_name(name@),
            valid_header_value(value@),
        ensures
            final(self).entries@.len() >= 1,
            final(self).entries@.drop_last() == without_key(old(self).entries@, header_key(name@)),
            final(self).entries@.last().0@ == header_key(name@),
            final(self).entries@.last().1 == value,
    {
        let chars = chars_of(name);
        let mut key: Vec<char> = Vec::new();
        let mut i: usize = 0;
        while i < chars.len()
            invariant
                i <= chars.len(),
                chars@ == name@,
                key@ == header_key(name@).take(i as int),
            decreases chars.len() - i,
        {
            key.push(lower(chars[i]));
            assert(key@ =~= header_key(name@).take(i + 1));
            i = i + 1;
        }
        assert(header_key(name@).take(chars.len() as int) =~= header_key(name@));
        let key = string_from(&key);
        let mut kept: Vec<(String, String)> = Vec::new();
        let mut j: usize = 0;
        while j < self.entries.len()
            invariant
                j <= self.entries.len(),
                key@ == header_key(name@),
                kept@ == without_key(self.entries@.take(j as int), key@),
            decreases self.entries.len() - j,
        {
            let ghost pre = self.entries@.take(j as int);
            assert(self.entries@.take(j + 1).drop_last() =~= pre);
            assert(self.entries@.take(j + 1).last() == self.entries@[j as int]);
            if !(self.entries[j].0.clone() == key.clone()) {
                let entry = (self.entries[j].0.clone(), self.entries[j].1.clone());
                assert(entry == self.entries@[j as int]);
                kept.push(entry);
            }
            j = j + 1;
        }
        assert(self.entries@.take(self.entries.len() as int) =~= self.entries@);
        kept.push((key, value));
        assert(kept@.drop_last() =~= without_key(old(self).entries@, header_key(name@)));
        self.entries = kept;
    }
}

/// Headers that a proxy adds to the requests whose path starts with
/// `path_prefix`.
pub struct ProxyInterceptor {
    pub path_prefix: String,
    pub headers: Vec<(String, String)>,
}

/// The headers to add can be set: their names and values parse.
pub open spec fn settable(hs: Seq<(String, String)>) -> bool {
    forall|i: int| 0 <= i < hs.len() ==> valid_header_name((#[trigger] hs[i]).0@) && valid_header_value(hs[i].1@)
}

/// The entries of `es` after setting each header of `hs` in turn.
pub open spec fn after_setting(es: Seq<(String, String)>, hs: Seq<(String, String)>) -> Seq<(Seq<char>, Seq<char>)>
    decreases hs.len(),
{
    if hs.len() == 0 {
        Seq::new(es.len(), |i: int| (es[i].0@, es[i].1@))
    } else {
        let before = after_setting(es, hs.drop_last());
        keyed_without(before, header_key(hs.last().0@)).push((header_key(hs.last().0@), hs.last().1@))
    }
}

/// The pairs of `ps` not under `key`.
pub open spec fn keyed_without(ps: Seq<(Seq<char>, Seq<char>)>, key: Seq<char>) -> Seq<(Seq<char>, Seq<char>)>
    decreases ps.len(),
{
    if ps.len() == 0 {
        ps
    } else if ps.last().0 == key {
        keyed_without(ps.drop_last(), key)
    } else {
        keyed_without(ps.drop_last(), key).push(ps.last())
    }
}

/// The views of the entries of some headers.
pub open spec fn pairs_view(es: Seq<(String, String)>) -> Seq<(Seq<char>, Seq<char>)> {
    Seq::new(es.len(), |i: int| (es[i].0@, es[i].1@))
}

/// Dropping a key commutes with taking views.
pub proof fn lemma_without_key_view(es: Seq<(String, String)>, key: Seq<char>)
    ensures
        pairs_view(without_key(es, key)) == keyed_without(pairs_view(es), key),
    decreases es.len(),
{
    if es.len() > 0 {
        lemma_without_key_view(es.drop_last(), key);
        assert(pairs_view(es).drop_last() =~= pairs_view(es.drop_last()));
        assert(pairs_view(without_key(es.drop_last(), key).push(es.last())) =~= pairs_view(
            without_key(es.drop_last(), key),
        ).push((es.last().0@, es.last().1@)));
    }
}

impl ProxyInterceptor {
    /// Whether the interceptor acts on a request to `uri`: the path starts
    /// with its prefix.
    pub fn applies(&self, uri: &str) -> (r: bool)
        ensures
            r == has_prefix(uri@, self.path_prefix@),
    {
        starts_with(&chars_of(uri), &chars_of(self.path_prefix.as_str()))
    }

    /// Sets each of the interceptor's headers on `headers`, in turn.
    pub fn modify_headers(&self, headers: &mut RequestHeaders)
        requires
            settable(self.headers@),
        ensures
            pairs_view(final(headers).entries@) == after_setting(old(headers).entries@, self.headers@),
    {
        let ghost start = old(headers).entries@;
        let mut i: usize = 0;
        while i < self.headers.len()
            invariant
                i <= self.headers.len(),
                settable(self.headers@),
                pairs_view(headers.entries@) == after_setting(start, self.headers@.take(i as int)),
            decreases self.headers.len() - i,
        {
            let ghost before = headers.entries@;
            let name = self.headers[i].0.clone();
            let value = self.headers[i].1.clone();
            assert(self.headers@[i as int].0@ == name@ && self.headers@[i as int].1@ == value@);
            headers.insert(name.as_str(), value);
            proof {
                lemma_without_key_view(before, header_key(name@));
                let hs = self.headers@.take(i + 1);
                assert(hs.drop_last() =~= self.headers@.take(i as int));
                assert(hs.last() == self.headers@[i as int]);
                assert(pairs_view(headers.entries@) =~= pairs_view(headers.entries@.drop_last()).push(
                    (headers.entries@.last().0@, headers.entries@.last().1@),
                ));
            }
            i = i + 1;
        }
        assert(self.headers@.take(self.headers.len() as int) =~= self.headers@);
    }
}

/// The body of a request for a Jepsen token.
#[derive(Debug)]
pub struct JepsenBody {
    pub grant_type: String,
    pub api_name: String,
    pub client_id: String,
    pub client_secret: String,
}

impl JepsenBody {
    /// A request for a token of `api_name` with the client credentials.
    pub fn new(api_name: String, client_id: String, client_secret: String) -> (r: JepsenBody)
        ensures
            r.grant_type@ == "client_credentials"@,
            r.api_name == api_name,
            r.client_id == client_id,
            r.client_secret == client_secret,
    {
        JepsenBody { grant_type: "client_credentials".to_string(), api_name, client_id, client_secret }
    }
}

/// Authenticates requests under a path with a token from a Jepsen endpoint;
/// the client secret is read from `secret_arn`.
#[derive(Debug)]
pub struct JepsenAutheticator {
    pub path_prefix: String,
    pub jepsen_url: String,
    pub api_name: String,
    pub client_id: String,
    pub secret_arn: String,
}

/// The `Authorization` value of a bearer token.
pub open spec fn bearer_value(token: Seq<char>) -> Seq<char> {
    "Bearer "@ + token
}

impl JepsenAutheticator {
    /// The authenticator a `jepsen` setting describes.
    pub fn from_proxy_auth_config(config: ProxyAuthConfig) -> (r: JepsenAutheticator)
        requires
            config.jepsen_api_name is Some,
            config.jepsen_auth_api is Some,
            config.jepsen_client_id is Some,
        ensures
            r.api_name == config.jepsen_api_name.unwrap(),
            r.jepsen_url == config.jepsen_auth_api.unwrap(),
            r.path_prefix == config.api_path,
            r.client_id == config.jepsen_client_id.unwrap(),
            r.secret_arn == config.secret_name,
    {
        JepsenAutheticator {
            api_name: config.jepsen_api_name.unwrap(),
            jepsen_url: config.jepsen_auth_api.unwrap(),
            path_prefix: config.api_path,
            client_id: config.jepsen_client_id.unwrap(),
            secret_arn: config.secret_name,
        }
    }

    /// Whether the authenticator acts on a request to `uri`.
    pub fn applies(&self, uri: &str) -> (r: bool)
        ensures
            r == has_prefix(uri@, self.path_prefix@),
    {
        starts_with(&chars_of(uri), &chars_of(self.path_prefix.as_str()))
    }

    /// The body of the token request, with the client secret read.
    pub fn token_request(&self, client_secret: String) -> (r: JepsenBody)
        ensures
            r.grant_type@ == "client_credentials"@,
            r.api_name == self.api_name,
            r.client_id == self.client_id,
            r.client_secret == client_secret,
    {
        JepsenBody::new(self.api_name.clone(), self.client_id.clone(), client_secret)
    }

    /// Sets the bearer token on the request, where one could be had.
    pub fn modify_headers(&self, headers: &mut RequestHeaders, token: Result<String, String>)
        requires
            token matches Ok(t) ==> valid_header_value(bearer_value(t@)),
        ensures
            token is Err ==> final(headers).entries == old(headers).entries,
            token matches Ok(t) ==> final(headers).entries@.drop_last() == without_key(
                old(headers).entries@,
                "authorization"@,
            ) && final(headers).entries@.last().0@ == "authorization"@
                && final(headers).entries@.last().1@ == bearer_value(t@),
    {
        match token {
            Ok(t) => {
                let mut text = chars_of("Bearer ");
                append_str(&mut text, t.as_str());
                proof {
                    reveal_strlit("Authorization");
                    reveal_strlit("authorization");
                    assert(header_key("Authorization"@) =~= "authorization"@);
                }
                headers.insert("Authorization", string_from(&text));
            },
            Err(_) => {},
        }
    }
}

/// Adds the cookies the browser extension stored for an environment to
/// every request.
pub struct CookieAutheticator {
    pub env: Env,
}

impl CookieAutheticator {
    /// The authenticator acts on every request.
    pub fn applies(&self, uri: &str) -> (r: bool)
        ensures
            r,
    {
        true
    }

    /// Sets the `Cookie` header to the cookies of the environment, where
    /// there are any.
    pub fn modify_headers(&self, headers: &mut RequestHeaders, jar: &CookieJar)
        requires
            valid_header_value(crate::text::join_with(crate::shared::cookie_pairs(jar.cookies@, self.env), "; "@)),
        ensures
            crate::text::join_with(crate::shared::cookie_pairs(jar.cookies@, self.env), "; "@).len() == 0 ==> final(headers).entries
                == old(headers).entries,
            crate::text::join_with(crate::shared::cookie_pairs(jar.cookies@, self.env), "; "@).len() > 0 ==> final(headers).entries@.drop_last()
                == without_key(old(headers).entries@, "cookie"@) && final(headers).entries@.last().0@
                == "cookie"@ && final(headers).entries@.last().1@ == crate::text::join_with(crate::shared::cookie_pairs(jar.cookies@, self.env), "; "@),
    {
        let value = jar.header_value_for_env(&self.env);
        if chars_of(value.as_str()).len() > 0 {
            proof {
                reveal_strlit("Cookie");
                reveal_strlit("cookie");
                assert(header_key("Cookie"@) =~= "cookie"@);
            }
            headers.insert("Cookie", value);
        }
    }
}

/// Authenticates requests under a path with a user and the password kept
/// as a secret, where the secret could be read.
#[derive(Debug)]
pub struct BasicAuthenticator {
    pub path_prefix: String,
    pub user: String,
    pub password: Option<String>,
}

impl BasicAuthenticator {
    /// The authenticator a `basic` setting describes, with the password read
    /// from its secret (none where it could not be read).
    pub fn from_proxy_auth_config(config: ProxyAuthConfig, password: Option<String>) -> (r: BasicAuthenticator)
        requires
            config.basic_user is Some,
        ensures
            r.user == config.basic_user.unwrap(),
            r.path_prefix == config.api_path,
            r.password == password,
    {
        BasicAuthenticator { user: config.basic_user.unwrap(), path_prefix: config.api_path, password }
    }

    /// Whether the authenticator acts on a request to `uri`.
    pub fn applies(&self, uri: &str) -> (r: bool)
        ensures
            r == has_prefix(uri@, self.path_prefix@),
    {
        starts_with(&chars_of(uri), &chars_of(self.path_prefix.as_str()))
    }

    /// Sets the basic `Authorization` header, where the password is known;
    /// leaves the headers alone where it is not.
    pub fn modify_headers(&self, headers: &mut RequestHeaders)
        ensures
            self.password is None ==> final(headers).entries == old(headers).entries,
            self.password matches Some(p) ==> final(headers).entries@.drop_last() == without_key(
                old(headers).entries@,
                "authorization"@,
            ) && final(headers).entries@.last().0@ == "authorization"@
                && final(headers).entries@.last().1@ == "Basic "@
                + crate::external::base64_standard(self.user@ + ":"@ + p@),
    {
        match &self.password {
            Some(p) => {
                let value = basic_authorization(self.user.as_str(), p.as_str());
                proof {
                    reveal_strlit("Authorization");
                    reveal_strlit("authorization");
                    assert(header_key("Authorization"@) =~= "authorization"@);
                }
                headers.insert("Authorization", value);
            },
            None => {},
        }
    }
}

/// The `--parameters` of a port-forwarding session to `target:target_port`
/// from local port `local_port`.
pub open spec fn forwarding_parameters(target: Seq<char>, target_port: nat, local_port: nat) -> Seq<char> {
    "{\"host\":[\""@ + target + "\"], \"portNumber\":[\""@ + decimal(target_port)
        + "\"], \"localPortNumber\":[\""@ + decimal(local_port) + "\"]}"@
}

/// The arguments of `aws` that start a port-forwarding session through
/// `bastion` with `profile` to `target:target_port`, listening on
/// `local_port`.
pub fn ssm_session_args(bastion: &str, profile: &str, target: &str, target_port: u16, local_port: u16) -> (r: Vec<String>)
    ensures
        r.len() == 10,
        r@[0]@ == "ssm"@,
        r@[1]@ == "start-session"@,
        r@[2]@ == "--target"@,
        r@[3]@ == bastion@,
        r@[4]@ == "--profile"@,
        r@[5]@ == profile@,
        r@[6]@ == "--document-name"@,
        r@[7]@ == "AWS-StartPortForwardingSessionToRemoteHost"@,
        r@[8]@ == "--parameters"@,
        r@[9]@ == forwarding_parameters(target@, target_port as nat, local_port as nat),
{
    let mut params = chars_of("{\"host\":[\"");
    append_str(&mut params, target);
    append_str(&mut params, "\"], \"portNumber\":[\"");
    push_all(&mut params, &decimal_of(target_port as u64));
    append_str(&mut params, "\"], \"localPortNumber\":[\"");
    push_all(&mut params, &decimal_of(local_port as u64));
    append_str(&mut params, "\"]}");
    let mut r: Vec<String> = Vec::new();
    r.push("ssm".to_string());
    r.push("start-session".to_string());
    r.push("--target".to_string());
    r.push(bastion.to_string());
    r.push("--profile".to_string());
    r.push(profile.to_string());
    r.push("--document-name".to_string());
    r.push("AWS-StartPortForwardingSessionToRemoteHost".to_string());
    r.push("--parameters".to_string());
    r.push(string_from(&params));
    r
}

/// The names of the files that take the output and the error output of the
/// session that listens on `local_port`.
pub fn session_log_names(local_port: u16) -> (r: (String, String))
    ensures
        r.0@ == "out-"@ + decimal(local_port as nat) + ".log"@,
        r.1@ == "err-"@ + decimal(local_port as nat) + ".log"@,
{
    let digits = decimal_of(local_port as u64);
    let mut out = chars_of("out-");
    push_all(&mut out, &digits);
    append_str(&mut out, ".log");
    let mut err = chars_of("err-");
    push_all(&mut err, &digits);
    append_str(&mut err, ".log");
    (string_from(&out), string_from(&err))
}

/// What to do while a session starts.
#[derive(Clone, Copy, Debug, PartialEq, Eq, Structural)]
pub enum StartupWait {
    /// The session listens: the proxy is up.
    Ready,
    /// Look at the output again a little later.
    KeepWaiting,
    /// The session did not come up in time: give up.
    GiveUp,
}

/// Whether the output of a starting session says it listens.
pub open spec fn session_ready(output: Seq<char>) -> bool {
    has_infix(output, "Waiting for connections..."@)
}

/// What to do after looking at the output of a session `elapsed_secs`
/// whole seconds after it was started: it is ready once the output says it
/// waits for connections; after more than 10 seconds without that, give up.
pub fn startup_wait(output: &str, elapsed_secs: u64) -> (r: StartupWait)
    ensures
        session_ready(output@) ==> r == StartupWait::Ready,
        !session_ready(output@) && elapsed_secs > 10 ==> r == StartupWait::GiveUp,
        !session_ready(output@) && elapsed_secs <= 10 ==> r == StartupWait::KeepWaiting,
{
    if contains(&chars_of(output), &chars_of("Waiting for connections...")) {
        StartupWait::Ready
    } else if elapsed_secs > 10 {
        StartupWait::GiveUp
    } else {
        StartupWait::KeepWaiting
    }
}

/// The address a local proxy forwards its requests to: the session's port
/// on this machine.
pub fn forward_address(aws_local_port: u16) -> (r: String)
    ensures
        r@ == "http://localhost:"@ + decimal(aws_local_port as nat) + "/"@,
{
    let mut text = chars_of("http://localhost:");
    push_all(&mut text, &decimal_of(aws_local_port as u64));
    append_str(&mut text, "/");
    string_from(&text)
}

/// Setting a header leaves one entry under its name: no entry that the
/// setting keeps is stored under that name.
pub proof fn law_set_header_once(es: Seq<(String, String)>, key: Seq<char>)
    ensures
        forall|i: int| 0 <= i < without_key(es, key).len() ==> (#[trigger] without_key(es, key)[i]).0@ != key,
    decreases es.len(),
{
    if es.len() > 0 {
        law_set_header_once(es.drop_last(), key);
        let prev = without_key(es.drop_last(), key);
        if es.last().0@ != key {
            assert forall|i: int| 0 <= i < without_key(es, key).len() implies (#[trigger] without_key(es, key)[i]).0@ != key by {
                if i < prev.len() {
                    assert(without_key(es, key)[i] == prev[i]);
                }
            }
        }
    }
}

} // verus!
