//! The health check of what the application depends on: the AWS command
//! line, the session manager plugin, the AWS profiles, the Wombat back end
//! and the `codeartifact-login` helper. The application runs the programs
//! and reads the environment; the rules for each report are here.
use vstd::prelude::*;
use crate::profiles::{InfraProfileView, SsoProfileView, WombatAwsProfile, WombatAwsProfileView};
use crate::text::{
    append_str, chars_of, decimal, decimal_of, insert_unique, no_dups, push_all, seqs_of, split_char,
    split_on, string_from, strs_of,
};

verus! {

broadcast use vstd::string::group_string_axioms;

/// The name under which the `codeartifact-login` helper is reported.
pub const CODEARTIFACT_LOGIN: &'static str = "codeartifact-login";

/// The name under which the AWS command line is reported.
pub const AWS_CLI: &'static str = "aws-cli";

/// The session manager plugin, by its program name.
pub const SESSION_MANAGER_PLUGIN: &'static str = "session-manager-plugin";

/// The name under which the Wombat back end is reported.
pub const WOMBAT_API: &'static str = "wombat-backend-api";

/// One line of the health check.
#[derive(Debug)]
pub struct Dependency {
    pub name: String,
    pub ok: bool,
    pub required: bool,
    pub version_or_error: String,
}

/// What running a program with `--version` gave: it could not be started,
/// or it ran and succeeded with this output, or failed with this error
/// output.
pub enum CommandProbe {
    NotInstalled,
    Succeeded(String),
    Failed(String),
}

/// The text a probe reports: the output, the error output, or that the
/// program is not installed.
pub open spec fn probe_text(p: CommandProbe) -> Seq<char> {
    match p {
        CommandProbe::NotInstalled => "Not installed"@,
        CommandProbe::Succeeded(out) => out@,
        CommandProbe::Failed(err) => err@,
    }
}

fn probe_report(probe: CommandProbe) -> (r: String)
    ensures
        r@ == probe_text(probe),
{
    match probe {
        CommandProbe::NotInstalled => "Not installed".to_string(),
        CommandProbe::Succeeded(out) => out,
        CommandProbe::Failed(err) => err,
    }
}

/// The report on the AWS command line: required, and fine only where
/// `aws --version` succeeded.
pub fn aws_cli_dependency(probe: CommandProbe) -> (d: Dependency)
    ensures
        d.name@ == AWS_CLI@,
        d.ok == (probe is Succeeded),
        d.required,
        d.version_or_error@ == probe_text(probe),
{
    let ok = match &probe {
        CommandProbe::Succeeded(_) => true,
        _ => false,
    };
    Dependency { name: AWS_CLI.to_string(), ok, required: true, version_or_error: probe_report(probe) }
}

/// The report on the session manager plugin: required, and reported as
/// fine whatever its probe gave; the text says what it gave.
pub fn session_manager_dependency(probe: CommandProbe) -> (d: Dependency)
    ensures
        d.name@ == SESSION_MANAGER_PLUGIN@,
        d.ok,
        d.required,
        d.version_or_error@ == probe_text(probe),
{
    Dependency {
        name: SESSION_MANAGER_PLUGIN.to_string(),
        ok: true,
        required: true,
        version_or_error: probe_report(probe),
    }
}

/// How many SSO profiles the Wombat profiles hold together.
pub open spec fn sso_total(ws: Seq<WombatAwsProfileView>) -> nat
    decreases ws.len(),
{
    if ws.len() == 0 {
        0
    } else {
        sso_total(ws.drop_last()) + ws.last().sso_profiles.len()
    }
}

/// The names of some infrastructure profiles.
pub open spec fn infra_names(is: Seq<InfraProfileView>) -> Seq<Seq<char>> {
    Seq::new(is.len(), |i: int| is[i].profile_name)
}

/// How many distinct infrastructure profile names each SSO profile of `ss`
/// has, added up.
pub open spec fn infra_in_ssos(ss: Seq<SsoProfileView>) -> nat
    decreases ss.len(),
{
    if ss.len() == 0 {
        0
    } else {
        infra_in_ssos(ss.drop_last()) + infra_names(ss.last().infra_profiles).to_set().len()
    }
}

/// `infra_in_ssos` added up over the Wombat profiles.
pub open spec fn infra_total(ws: Seq<WombatAwsProfileView>) -> nat
    decreases ws.len(),
{
    if ws.len() == 0 {
        0
    } else {
        infra_total(ws.drop_last()) + infra_in_ssos(ws.last().sso_profiles)
    }
}

/// The views of some Wombat profiles.
pub open spec fn wombat_views(ws: Seq<WombatAwsProfile>) -> Seq<WombatAwsProfileView> {
    Seq::new(ws.len(), |i: int| ws[i]@)
}

/// The text of the profile report.
pub open spec fn profiles_text(w: nat, s: nat, i: nat) -> Seq<char> {
    "wombat: "@ + decimal(w) + ", sso: "@ + decimal(s) + ", infra: "@ + decimal(i)
}

/// How many distinct names the infrastructure profiles of `sso` have.
fn distinct_infra(sso: &crate::profiles::SsoProfile) -> (n: usize)
    ensures
        n == infra_names(sso@.infra_profiles).to_set().len(),
{
    let mut names: Vec<String> = Vec::new();
    let mut i: usize = 0;
    let ghost all = infra_names(sso@.infra_profiles);
    while i < sso.infra_profiles.len()
        invariant
            i <= sso.infra_profiles.len(),
            all == infra_names(sso@.infra_profiles),
            all.len() == sso.infra_profiles.len(),
            no_dups(strs_of(names@)),
            strs_of(names@).to_set() == all.take(i as int).to_set(),
        decreases sso.infra_profiles.len() - i,
    {
        assert(all[i as int] == sso.infra_profiles@[i as int].profile_name@);
        insert_unique(&mut names, sso.infra_profiles[i].profile_name.clone());
        assert(all.take(i + 1) =~= all.take(i as int).push(all[i as int]));
        proof {
            all.take(i as int).lemma_push_to_set_commute(all[i as int]);
        }
        i = i + 1;
    }
    assert(all.take(all.len() as int) =~= all);
    proof {
        let s = strs_of(names@);
        assert(s.no_duplicates());
        s.unique_seq_to_set();
    }
    names.len()
}

/// The report on the AWS profiles: required, fine where there is at least
/// one SSO profile, and saying how many Wombat, SSO and distinct
/// infrastructure profiles there are.
pub fn profiles_dependency(profiles: &Vec<WombatAwsProfile>) -> (d: Dependency)
    requires
        sso_total(wombat_views(profiles@)) <= u64::MAX,
        infra_total(wombat_views(profiles@)) <= u64::MAX,
    ensures
        d.name@ == "aws-profiles"@,
        d.ok == (sso_total(wombat_views(profiles@)) > 0),
        d.required,
        d.version_or_error@ == profiles_text(
            profiles.len() as nat,
            sso_total(wombat_views(profiles@)),
            infra_total(wombat_views(profiles@)),
        ),
{
    let ghost views = wombat_views(profiles@);
    let mut sso: u64 = 0;
    let mut infra: u64 = 0;
    let mut i: usize = 0;
    while i < profiles.len()
        invariant
            i <= profiles.len(),
            views == wombat_views(profiles@),
            sso_total(views) <= u64::MAX,
            infra_total(views) <= u64::MAX,
            sso == sso_total(views.take(i as int)),
            infra == infra_total(views.take(i as int)),
        decreases profiles.len() - i,
    {
        let w = &profiles[i];
        assert(views.take(i + 1).drop_last() =~= views.take(i as int));
        assert(views.take(i + 1).last() == w@);
        proof {
            lemma_totals_grow(views, (i + 1) as int);
        }
        let mut j: usize = 0;
        let mut here: u64 = 0;
        while j < w.sso_profiles.len()
            invariant
                j <= w.sso_profiles.len(),
                w@.sso_profiles.len() == w.sso_profiles.len(),
                here == infra_in_ssos(w@.sso_profiles.take(j as int)),
                infra + infra_in_ssos(w@.sso_profiles) <= u64::MAX,
            decreases w.sso_profiles.len() - j,
        {
            assert(w@.sso_profiles.take(j + 1).drop_last() =~= w@.sso_profiles.take(j as int));
            assert(w@.sso_profiles.take(j + 1).last() == w.sso_profiles@[j as int]@);
            proof {
                lemma_infra_grows(w@.sso_profiles, (j + 1) as int);
            }
            let n = distinct_infra(&w.sso_profiles[j]);
            here = here + n as u64;
            j = j + 1;
        }
        assert(w@.sso_profiles.take(w.sso_profiles.len() as int) =~= w@.sso_profiles);
        sso = sso + w.sso_profiles.len() as u64;
        infra = infra + here;
        i = i + 1;
    }
    assert(views.take(profiles.len() as int) =~= views);
    let mut text = chars_of("wombat: ");
    push_all(&mut text, &decimal_of(profiles.len() as u64));
    append_str(&mut text, ", sso: ");
    push_all(&mut text, &decimal_of(sso));
    append_str(&mut text, ", infra: ");
    push_all(&mut text, &decimal_of(infra));
    Dependency {
        name: "aws-profiles".to_string(),
        ok: sso > 0,
        required: true,
        version_or_error: string_from(&text),
    }
}

/// The totals over a prefix are at most the totals over all.
pub proof fn lemma_totals_grow(ws: Seq<WombatAwsProfileView>, k: int)
    requires
        0 <= k <= ws.len(),
    ensures
        sso_total(ws.take(k)) <= sso_total(ws),
        infra_total(ws.take(k)) <= infra_total(ws),
        k > 0 ==> sso_total(ws.take(k)) == sso_total(ws.take(k - 1)) + ws[k - 1].sso_profiles.len(),
        k > 0 ==> infra_total(ws.take(k)) == infra_total(ws.take(k - 1)) + infra_in_ssos(
            ws[k - 1].sso_profiles,
        ),
    decreases ws.len() - k,
{
    if k > 0 {
        assert(ws.take(k).drop_last() =~= ws.take(k - 1));
    }
    if k < ws.len() {
        lemma_totals_grow(ws, k + 1);
        assert(ws.take(k + 1).drop_last() =~= ws.take(k));
    } else {
        assert(ws.take(k) =~= ws);
    }
}

/// The added-up counts over a prefix are at most those over all.
pub proof fn lemma_infra_grows(ss: Seq<SsoProfileView>, k: int)
    requires
        0 <= k <= ss.len(),
    ensures
        infra_in_ssos(ss.take(k)) <= infra_in_ssos(ss),
        k > 0 ==> infra_in_ssos(ss.take(k)) == infra_in_ssos(ss.take(k - 1)) + infra_names(
            ss[k - 1].infra_profiles,
        ).to_set().len(),
    decreases ss.len() - k,
{
    if k > 0 {
        assert(ss.take(k).drop_last() =~= ss.take(k - 1));
    }
    if k < ss.len() {
        lemma_infra_grows(ss, k + 1);
        assert(ss.take(k + 1).drop_last() =~= ss.take(k));
    } else {
        assert(ss.take(k) =~= ss);
    }
}

/// The report on the Wombat back end: required, fine where its status is
/// `Ok`, and saying the status.
pub fn wombat_api_dependency(status: Result<String, String>) -> (d: Dependency)
    ensures
        d.name@ == WOMBAT_API@,
        d.ok == (status is Ok),
        d.required,
        d.version_or_error@ == (match status {
            Ok(v) => v@,
            Err(v) => v@,
        }),
{
    match status {
        Ok(v) => Dependency { name: WOMBAT_API.to_string(), ok: true, required: true, version_or_error: v },
        Err(v) => Dependency { name: WOMBAT_API.to_string(), ok: false, required: true, version_or_error: v },
    }
}

/// The report on the `codeartifact-login` helper: optional, fine where it
/// is on the `PATH`.
pub fn codeartifact_dependency(in_path: bool) -> (d: Dependency)
    ensures
        d.name@ == CODEARTIFACT_LOGIN@,
        d.ok == in_path,
        !d.required,
        in_path ==> d.version_or_error@ == "Exists in PATH"@,
        !in_path ==> d.version_or_error@ == "Not in PATH"@,
{
    Dependency {
        name: CODEARTIFACT_LOGIN.to_string(),
        ok: in_path,
        required: false,
        version_or_error: if in_path {
            "Exists in PATH".to_string()
        } else {
            "Not in PATH".to_string()
        },
    }
}

/// The whole health check, in the order the application shows it: the AWS
/// command line, the session manager plugin, the profiles, the back end and
/// the `codeartifact-login` helper.
pub fn check_dependencies(
    aws: CommandProbe,
    session_manager: CommandProbe,
    profiles: &Vec<WombatAwsProfile>,
    api_status: Result<String, String>,
    codeartifact_in_path: bool,
) -> (r: Vec<Dependency>)
    requires
        sso_total(wombat_views(profiles@)) <= u64::MAX,
        infra_total(wombat_views(profiles@)) <= u64::MAX,
    ensures
        r.len() == 5,
        r@[0].name@ == AWS_CLI@ && r@[0].ok == (aws is Succeeded) && r@[0].required
            && r@[0].version_or_error@ == probe_text(aws),
        r@[1].name@ == SESSION_MANAGER_PLUGIN@ && r@[1].ok && r@[1].required
            && r@[1].version_or_error@ == probe_text(session_manager),
        r@[2].name@ == "aws-profiles"@ && r@[2].ok == (sso_total(wombat_views(profiles@)) > 0)
            && r@[2].required && r@[2].version_or_error@ == profiles_text(
            profiles.len() as nat,
            sso_total(wombat_views(profiles@)),
            infra_total(wombat_views(profiles@)),
        ),
        r@[3].name@ == WOMBAT_API@ && r@[3].ok == (api_status is Ok) && r@[3].required
            && r@[3].version_or_error@ == (match api_status {
            Ok(v) => v@,
            Err(v) => v@,
        }),
        r@[4].name@ == CODEARTIFACT_LOGIN@ && r@[4].ok == codeartifact_in_path && !r@[4].required
            && r@[4].version_or_error@ == (if codeartifact_in_path {
            "Exists in PATH"@
        } else {
            "Not in PATH"@
        }),
{
    let mut r: Vec<Dependency> = Vec::new();
    r.push(aws_cli_dependency(aws));
    r.push(session_manager_dependency(session_manager));
    r.push(profiles_dependency(profiles));
    r.push(wombat_api_dependency(api_status));
    r.push(codeartifact_dependency(codeartifact_in_path));
    r
}

/// The places where `program` would be found on the search path `path`:
/// each `:`-separated entry, a `/`, and the program's name.
pub fn path_candidates(path: &str, program: &str) -> (r: Vec<String>)
    ensures
        r.len() == split_char(path@, ':').len(),
        forall|i: int|
            0 <= i < r.len() ==> (#[trigger] r@[i])@ == split_char(path@, ':')[i] + "/"@ + program@,
{
    let chars = chars_of(path);
    let parts = split_on(&chars, ':');
    let mut r: Vec<String> = Vec::new();
    let mut i: usize = 0;
    while i < parts.len()
        invariant
            i <= parts.len(),
            seqs_of(parts@) == split_char(path@, ':'),
            r.len() == i,
            forall|j: int|
                0 <= j < i ==> (#[trigger] r@[j])@ == split_char(path@, ':')[j] + "/"@ + program@,
        decreases parts.len() - i,
    {
        let mut text = parts[i].clone();
        assert(seqs_of(parts@)[i as int] == parts@[i as int]@);
        append_str(&mut text, "/");
        append_str(&mut text, program);
        r.push(string_from(&text));
        i = i + 1;
    }
    r
}

} // verus!
