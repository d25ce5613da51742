//! The decisions inside the commands of the application: the cache files
//! and their schema versions, the DBeaver connection, the ports and targets
//! of the proxies, the fallback for database credentials, and the settings
//! of the application.
use vstd::prelude::*;
use crate::external::{url_encode, url_encoded};
use crate::secrets::DbSecret;
use crate::shared::{env_name, CommandError, Env};
use crate::text::{
    append_str, chars_of, decimal, decimal_of, has_infix, has_prefix, occurs_at, push_all, split_char,
    last_piece, starts_with, string_from,
};

verus! {

broadcast use vstd::string::group_string_axioms;

/// Whether a file of the application's directory is a cache of an older
/// version, removed when a session starts: its name starts with `wombat.db`
/// or `cache-`.
pub fn is_stale_cache_file(name: &str) -> (r: bool)
    ensures
        r == (has_prefix(name@, "wombat.db"@) || has_prefix(name@, "cache-"@)),
{
    let chars = chars_of(name);
    starts_with(&chars, &chars_of("wombat.db")) || starts_with(&chars, &chars_of("cache-"))
}

/// The name of the cache database of `profile`.
pub fn cache_db_file_name(profile: &str) -> (r: String)
    ensures
        r@ == "v1-cache-"@ + profile@ + ".db"@,
{
    let mut text = chars_of("v1-cache-");
    append_str(&mut text, profile);
    append_str(&mut text, ".db");
    string_from(&text)
}

/// The latest schema version of the cluster cache.
pub const CLUSTER_CACHE_VERSION: u64 = 3;

/// The latest schema version of the service cache.
pub const SERVICE_CACHE_VERSION: u64 = 2;

/// The latest schema version of the database cache.
pub const DATABASE_CACHE_VERSION: u64 = 1;

/// The schema versions a cache at `version` still has to be migrated to,
/// in order, up to `latest`.
pub fn pending_migrations(version: u64, latest: u64) -> (r: Vec<u64>)
    requires
        latest < u64::MAX,
    ensures
        version >= latest ==> r.len() == 0,
        version < latest ==> r.len() == latest - version,
        forall|k: int| 0 <= k < r.len() ==> #[trigger] r@[k] == version + 1 + k,
{
    let mut r: Vec<u64> = Vec::new();
    if version >= latest {
        return r;
    }
    let mut v: u64 = version + 1;
    while v <= latest
        invariant
            version < v <= latest + 1,
            latest < u64::MAX,
            r.len() == v - version - 1,
            forall|k: int| 0 <= k < r.len() ==> #[trigger] r@[k] == version + 1 + k,
        decreases latest + 1 - v,
    {
        r.push(v);
        v = v + 1;
    }
    r
}

/// How a new schema version is written to the `cache_versions` table.
#[derive(Clone, Copy, Debug, PartialEq, Eq, Structural)]
pub enum VersionWrite {
    /// The cache gets its first row.
    Insert,
    /// The cache's row is updated.
    Update,
}

/// The first version inserts the cache's row; later ones update it.
pub fn version_write(version: u64) -> (r: VersionWrite)
    ensures
        version == 1 ==> r == VersionWrite::Insert,
        version != 1 ==> r == VersionWrite::Update,
{
    if version == 1 {
        VersionWrite::Insert
    } else {
        VersionWrite::Update
    }
}

/// The DBeaver connection specification for database `db_name` reached at
/// `host:port` with `secret`: rotated credentials go into a JDBC URL, with
/// the password percent-encoded; the others are saved with the connection.
pub open spec fn dbeaver_spec(db_name: Seq<char>, host: Seq<char>, port: nat, secret: DbSecret) -> Seq<char> {
    let head = "driver=postgresql|id="@ + db_name + "|name="@ + db_name + "|openConsole=true|folder=wombat|"@;
    if secret.auto_rotated {
        head + "url=jdbc:postgresql://"@ + host + ":"@ + decimal(port) + "/"@ + secret.dbname@ + "?user="@
            + secret.username@ + "&password="@ + url_encoded(secret.password@)
    } else {
        head + "savePassword=true|create=true|save=true|host="@ + host + "|port="@ + decimal(port)
            + "|database="@ + secret.dbname@ + "|user="@ + secret.username@ + "|password="@
            + secret.password@
    }
}

/// The connection specification DBeaver is started with.
pub fn dbeaver_connection(db_name: &str, host: &str, port: u16, secret: &DbSecret) -> (r: String)
    ensures
        r@ == dbeaver_spec(db_name@, host@, port as nat, *secret),
{
    let mut text = chars_of("driver=postgresql|id=");
    append_str(&mut text, db_name);
    append_str(&mut text, "|name=");
    append_str(&mut text, db_name);
    append_str(&mut text, "|openConsole=true|folder=wombat|");
    if secret.auto_rotated {
        append_str(&mut text, "url=jdbc:postgresql://");
        append_str(&mut text, host);
        append_str(&mut text, ":");
        push_all(&mut text, &decimal_of(port as u64));
        append_str(&mut text, "/");
        append_str(&mut text, secret.dbname.as_str());
        append_str(&mut text, "?user=");
        append_str(&mut text, secret.username.as_str());
        append_str(&mut text, "&password=");
        let encoded = url_encode(secret.password.as_str());
        append_str(&mut text, encoded.as_str());
    } else {
        append_str(&mut text, "savePassword=true|create=true|save=true|host=");
        append_str(&mut text, host);
        append_str(&mut text, "|port=");
        push_all(&mut text, &decimal_of(port as u64));
        append_str(&mut text, "|database=");
        append_str(&mut text, secret.dbname.as_str());
        append_str(&mut text, "|user=");
        append_str(&mut text, secret.username.as_str());
        append_str(&mut text, "|password=");
        append_str(&mut text, secret.password.as_str());
    }
    string_from(&text)
}

/// The arguments DBeaver is started with to open database `db_arn` through
/// the local proxy on `port`: the connection is named after the last
/// `:`-piece of the ARN and reached on `localhost`.
pub fn dbeaver_args(db_arn: &str, port: u16, secret: &DbSecret) -> (r: Vec<String>)
    ensures
        r.len() == 2,
        r@[0]@ == "-con"@,
        r@[1]@ == dbeaver_spec(split_char(db_arn@, ':').last(), "localhost"@, port as nat, *secret),
{
    let name = string_from(&last_piece(db_arn, ':'));
    let mut r: Vec<String> = Vec::new();
    r.push("-con".to_string());
    r.push(dbeaver_connection(name.as_str(), "localhost", port, secret));
    r
}

/// The local port of the session behind a service proxy on `local_port`.
pub fn aws_local_port(local_port: u16) -> (r: u16)
    requires
        local_port + 10000 <= u16::MAX,
    ensures
        r == local_port + 10000,
{
    local_port + 10000
}

/// The host a service is reached at inside its network.
pub fn service_host(service_name: &str) -> (r: String)
    ensures
        r@ == service_name@ + ".service"@,
{
    let mut text = chars_of(service_name);
    append_str(&mut text, ".service");
    string_from(&text)
}

/// The port services listen on inside their network.
pub const SERVICE_PORT: u16 = 80;

/// The pseudo-ARN under which a proxy to lambda application `app` in `env`
/// is kept.
pub fn lambda_arn(app: &str, env: Env) -> (r: String)
    ensures
        r@ == "lambdaApp::"@ + app@ + "::"@ + env_name(env),
{
    let mut text = chars_of("lambdaApp::");
    append_str(&mut text, app);
    append_str(&mut text, "::");
    append_str(&mut text, env.name().as_str());
    string_from(&text)
}

/// How the requests of a service proxy are authenticated.
#[derive(Clone, Copy, Debug, PartialEq, Eq, Structural)]
pub enum AuthKind {
    Jepsen,
    Basic,
    Unknown,
}

/// The kind of authentication a setting names: `jepsen`, `basic`, or an
/// unknown one, which adds nothing.
pub fn auth_kind(auth_type: &str) -> (r: AuthKind)
    ensures
        auth_type@ == "jepsen"@ ==> r == AuthKind::Jepsen,
        auth_type@ == "basic"@ ==> r == AuthKind::Basic,
        auth_type@ != "jepsen"@ && auth_type@ != "basic"@ ==> r == AuthKind::Unknown,
        r == auth_kind_of(auth_type@),
{
    proof {
        reveal_strlit("jepsen");
        reveal_strlit("basic");
        assert("jepsen"@.len() != "basic"@.len());
    }
    if auth_type.to_string() == "jepsen".to_string() {
        AuthKind::Jepsen
    } else if auth_type.to_string() == "basic".to_string() {
        AuthKind::Basic
    } else {
        AuthKind::Unknown
    }
}

/// An interceptor that a service proxy runs its requests through.
#[derive(Clone, Copy, Debug, PartialEq, Eq, Structural)]
pub enum InterceptorKind {
    /// Adds the headers the user set.
    StaticHeaders,
    /// Signs in through the Jepsen authentication service.
    Jepsen,
    /// Adds basic authentication.
    Basic,
}

/// The interceptors for an authentication of kind `k`: one of its own for
/// Jepsen and basic authentication, none for an unknown kind.
pub open spec fn auth_interceptors(k: AuthKind) -> Seq<InterceptorKind> {
    match k {
        AuthKind::Jepsen => seq![InterceptorKind::Jepsen],
        AuthKind::Basic => seq![InterceptorKind::Basic],
        AuthKind::Unknown => Seq::<InterceptorKind>::empty(),
    }
}

/// The kind of authentication a setting names, as `auth_kind` reads it.
pub open spec fn auth_kind_of(auth_type: Seq<char>) -> AuthKind {
    if auth_type == "jepsen"@ {
        AuthKind::Jepsen
    } else if auth_type == "basic"@ {
        AuthKind::Basic
    } else {
        AuthKind::Unknown
    }
}

/// The interceptors of a service proxy, in the order they run: the user's
/// headers first, then the one of the authentication named `auth_type`
/// where the proxy has an authentication setting.
pub fn service_interceptors(auth_type: Option<&str>) -> (r: Vec<InterceptorKind>)
    ensures
        r@ == seq![InterceptorKind::StaticHeaders] + match auth_type {
            Some(t) => auth_interceptors(auth_kind_of(t@)),
            None => Seq::<InterceptorKind>::empty(),
        },
{
    let mut r: Vec<InterceptorKind> = Vec::new();
    r.push(InterceptorKind::StaticHeaders);
    if let Some(t) = auth_type {
        match auth_kind(t) {
            AuthKind::Jepsen => r.push(InterceptorKind::Jepsen),
            AuthKind::Basic => r.push(InterceptorKind::Basic),
            AuthKind::Unknown => {},
        }
    }
    proof {
        reveal_strlit("jepsen");
        reveal_strlit("basic");
        assert("jepsen"@.len() != "basic"@.len());
    }
    assert(r@ =~= seq![InterceptorKind::StaticHeaders] + match auth_type {
        Some(t) => auth_interceptors(auth_kind_of(t@)),
        None => Seq::<InterceptorKind>::empty(),
    });
    r
}

/// What to do with the first answer of a credentials lookup.
#[derive(Debug)]
pub enum CredentialStep {
    /// Answer with this.
    Done(Result<DbSecret, CommandError>),
    /// Look the credentials up again with the user's own profile.
    RetryWithUserProfile,
}

/// The credentials command: found credentials are the answer; where the
/// lookup failed, the user's own profile is tried when the user may use
/// it (`dev_way`), and otherwise the failure is the answer.
pub fn credentials_step(first: Result<DbSecret, CommandError>, dev_way: bool) -> (r: CredentialStep)
    ensures
        first is Ok ==> r == CredentialStep::Done(first),
        first is Err && dev_way ==> r is RetryWithUserProfile,
        first is Err && !dev_way ==> r == CredentialStep::Done(first),
{
    match first {
        Ok(s) => CredentialStep::Done(Ok(s)),
        Err(e) => if dev_way {
            CredentialStep::RetryWithUserProfile
        } else {
            CredentialStep::Done(Err(e))
        },
    }
}

/// Opening DBeaver: as `credentials_step`, but a failure without the
/// user's own profile is answered with `No secret found`.
pub fn dbeaver_secret_step(first: Result<DbSecret, CommandError>, dev_way: bool) -> (r: CredentialStep)
    ensures
        first is Ok ==> r == CredentialStep::Done(first),
        first is Err && dev_way ==> r is RetryWithUserProfile,
        first is Err && !dev_way ==> (r matches CredentialStep::Done(Err(e)) && e.command@ == "db_secret"@
            && e.message@ == "No secret found"@),
{
    match first {
        Ok(s) => CredentialStep::Done(Ok(s)),
        Err(_) => if dev_way {
            CredentialStep::RetryWithUserProfile
        } else {
            CredentialStep::Done(Err(CommandError::new("db_secret", "No secret found".to_string())))
        },
    }
}

/// The settings of the application.
#[derive(Debug)]
pub struct AppConfig {
    pub logger: String,
    pub wombat_api_url: String,
    pub wombat_api_user: String,
    pub wombat_api_password: String,
}

/// A setting read from the environment, or its placeholder where it is not
/// set.
pub open spec fn or_placeholder(value: Option<String>, placeholder: Seq<char>) -> Seq<char> {
    match value {
        Some(v) => v@,
        None => placeholder,
    }
}

fn setting(value: Option<String>, placeholder: &str) -> (r: String)
    ensures
        r@ == or_placeholder(value, placeholder@),
{
    match value {
        Some(v) => v,
        None => placeholder.to_string(),
    }
}

/// The settings of a development build, from the environment variables
/// `WOMBAT_API_URL`, `WOMBAT_API_USER`, `WOMBAT_API_PASSWORD` and `LOGGER`:
/// placeholders stand for unset back-end settings, and the logger writes to
/// the console unless set otherwise.
pub fn app_config(
    url: Option<String>,
    user: Option<String>,
    password: Option<String>,
    logger: Option<String>,
) -> (r: AppConfig)
    ensures
        r.wombat_api_url@ == or_placeholder(url, "%%WOMBAT_API_URL%%"@),
        r.wombat_api_user@ == or_placeholder(user, "%%WOMBAT_API_USER%%"@),
        r.wombat_api_password@ == or_placeholder(password, "%%WOMBAT_API_PASSWORD%%"@),
        r.logger@ == or_placeholder(logger, "console"@),
{
    AppConfig {
        wombat_api_url: setting(url, "%%WOMBAT_API_URL%%"),
        wombat_api_user: setting(user, "%%WOMBAT_API_USER%%"),
        wombat_api_password: setting(password, "%%WOMBAT_API_PASSWORD%%"),
        logger: setting(logger, "console"),
    }
}

/// The settings of a release build: the back-end settings are filled in
/// when the application is packaged, and the logger writes to a file.
pub fn release_app_config() -> (r: AppConfig)
    ensures
        r.logger@ == "file"@,
        r.wombat_api_url@ == "%%WOMBAT_API_URL%%"@,
        r.wombat_api_user@ == "%%WOMBAT_API_USER%%"@,
        r.wombat_api_password@ == "%%WOMBAT_API_PASSWORD%%"@,
{
    AppConfig {
        logger: "file".to_string(),
        wombat_api_url: "%%WOMBAT_API_URL%%".to_string(),
        wombat_api_user: "%%WOMBAT_API_USER%%".to_string(),
        wombat_api_password: "%%WOMBAT_API_PASSWORD%%".to_string(),
    }
}

/// Where a logger writes.
#[derive(Clone, Copy, Debug, PartialEq, Eq, Structural)]
pub enum LoggerKind {
    Console,
    File,
}

/// The logger a setting names: `console` or `file`; any other is refused.
pub fn logger_kind(logger: &str) -> (r: Option<LoggerKind>)
    ensures
        logger@ == "console"@ ==> r == Some(LoggerKind::Console),
        logger@ == "file"@ ==> r == Some(LoggerKind::File),
        logger@ != "console"@ && logger@ != "file"@ ==> r is None,
{
    proof {
        reveal_strlit("console");
        reveal_strlit("file");
        assert("console"@.len() != "file"@.len());
    }
    if logger.to_string() == "console".to_string() {
        Some(LoggerKind::Console)
    } else if logger.to_string() == "file".to_string() {
        Some(LoggerKind::File)
    } else {
        None
    }
}

/// Credentials that Secrets Manager rotates open a temporary connection
/// that carries them in a JDBC URL; those kept in the parameter store open
/// a connection that DBeaver saves.
pub proof fn law_rotated_credentials_connect_temporarily(
    db_name: Seq<char>,
    host: Seq<char>,
    port: nat,
    secret: DbSecret,
)
    ensures
        secret.auto_rotated ==> has_infix(
            dbeaver_spec(db_name, host, port, secret),
            "url=jdbc:postgresql://"@,
        ),
        !secret.auto_rotated ==> has_infix(
            dbeaver_spec(db_name, host, port, secret),
            "savePassword=true|create=true|save=true"@,
        ),
{
    let head = "driver=postgresql|id="@ + db_name + "|name="@ + db_name + "|openConsole=true|folder=wombat|"@;
    let s = dbeaver_spec(db_name, host, port, secret);
    if secret.auto_rotated {
        let t = "url=jdbc:postgresql://"@;
        assert(s.subrange(head.len() as int, (head.len() + t.len()) as int) =~= t);
        assert(occurs_at(s, t, head.len() as int));
    } else {
        let t = "savePassword=true|create=true|save=true"@;
        let u = "savePassword=true|create=true|save=true|host="@;
        reveal_strlit("savePassword=true|create=true|save=true");
        reveal_strlit("savePassword=true|create=true|save=true|host=");
        assert(s.subrange(head.len() as int, (head.len() + u.len()) as int) =~= u);
        assert(s.subrange(head.len() as int, (head.len() + t.len()) as int) =~= t);
        assert(occurs_at(s, t, head.len() as int));
    }
}

/// The answer to a lookup in the key-value store: the value, or the error
/// that names the missing key.
pub fn kv_answer(found: Option<String>, key: &str) -> (r: Result<String, String>)
    ensures
        found matches Some(v) ==> r == Ok::<String, String>(v),
        found is None ==> (r matches Err(m) && m@ == "Key "@ + key@ + " not found"@),
{
    match found {
        Some(v) => Ok(v),
        None => {
            let mut text = chars_of("Key ");
            append_str(&mut text, key);
            append_str(&mut text, " not found");
            Err(string_from(&text))
        },
    }
}

} // verus!
