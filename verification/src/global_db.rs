//! What the application reads from the shared settings database: feature
//! flags, saved log filters and proxy authentication settings.
use vstd::prelude::*;
use crate::text::{chars_of, seqs_of, split_char, split_on, string_from, strs_of};

verus! {

broadcast use vstd::string::group_string_axioms;

/// A saved log search filter: the filter, the services it applies to and
/// its label.
#[derive(Debug)]
pub struct LogFilter {
    pub filter: String,
    pub services: Vec<String>,
    pub label: String,
}

/// How a proxy to `to_app` authenticates its requests under `api_path`.
#[derive(Debug)]
pub struct ProxyAuthConfig {
    pub to_app: String,
    pub env: String,
    pub auth_type: String,
    pub api_path: String,
    pub jepsen_auth_api: Option<String>,
    pub jepsen_api_name: Option<String>,
    pub jepsen_client_id: Option<String>,
    pub basic_user: Option<String>,
    pub secret_name: String,
}

/// A filter from a row of the `log_filters` table: its services are kept as
/// one text separated by `;`.
pub fn log_filter_from_row(filter: String, services: &str, label: String) -> (r: LogFilter)
    ensures
        r.filter == filter,
        r.label == label,
        strs_of(r.services@) == split_char(services@, ';'),
{
    let chars = chars_of(services);
    let parts = split_on(&chars, ';');
    let mut names: Vec<String> = Vec::new();
    let mut i: usize = 0;
    while i < parts.len()
        invariant
            i <= parts.len(),
            seqs_of(parts@) == split_char(services@, ';'),
            strs_of(names@) == seqs_of(parts@).take(i as int),
        decreases parts.len() - i,
    {
        let ghost prev = names@;
        let name = string_from(&parts[i]);
        names.push(name);
        assert(strs_of(names@) =~= strs_of(prev).push(parts@[i as int]@));
        assert(seqs_of(parts@).take(i + 1) =~= seqs_of(parts@).take(i as int).push(parts@[i as int]@));
        i = i + 1;
    }
    assert(seqs_of(parts@).take(parts.len() as int) =~= seqs_of(parts@));
    LogFilter { filter, services: names, label }
}

/// Whether a feature is on, from the `enabled` column of the first row the
/// query found: on where it is 1; off where it is anything else or no row
/// was found.
pub fn feature_enabled(enabled: Option<u64>) -> (r: bool)
    ensures
        r == (enabled == Some(1u64)),
{
    match enabled {
        Some(e) => e == 1,
        None => false,
    }
}

/// Whether a feature is on for a user: never before the database was
/// synchronised, else as the query found.
pub fn user_feature_enabled(synchronized: bool, enabled: Option<u64>) -> (r: bool)
    ensures
        r == (synchronized && enabled == Some(1u64)),
{
    if !synchronized {
        return false;
    }
    feature_enabled(enabled)
}

} // verus!
