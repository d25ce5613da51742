//! The AWS profiles of the user's configuration files, grouped into the
//! profiles that Wombat offers, and the choice of profile for each request.
use vstd::prelude::*;
use crate::external::{regex_capture, regex_group};
use crate::shared::{env_from_name, env_name, same_text, Env};
use crate::text::{
    chars_of, copy_opt, ends_with, has_suffix, insert_unique, join_on, join_with, no_dups,
    opt_view, push_all, seqs_of, string_from, strs_of,
};

verus! {

broadcast use vstd::string::group_string_axioms;

/// One profile of the AWS configuration files, with the properties that the
/// resolution reads (each `None` where the profile does not set it).
#[derive(Clone, Debug)]
pub struct ProfileEntry {
    pub name: String,
    pub role_arn: Option<String>,
    pub source_profile: Option<String>,
    pub sso_start_url: Option<String>,
    pub sso_account_id: Option<String>,
    pub region: Option<String>,
}

/// The contents of a `ProfileEntry`.
pub struct ProfileEntryView {
    pub name: Seq<char>,
    pub role_arn: Option<Seq<char>>,
    pub source_profile: Option<Seq<char>>,
    pub sso_start_url: Option<Seq<char>>,
    pub sso_account_id: Option<Seq<char>>,
    pub region: Option<Seq<char>>,
}

impl View for ProfileEntry {
    type V = ProfileEntryView;

    open spec fn view(&self) -> ProfileEntryView {
        ProfileEntryView {
            name: self.name@,
            role_arn: opt_view(self.role_arn),
            source_profile: opt_view(self.source_profile),
            sso_start_url: opt_view(self.sso_start_url),
            sso_account_id: opt_view(self.sso_account_id),
            region: opt_view(self.region),
        }
    }
}

/// The views of a sequence of profile entries.
pub open spec fn entry_views(v: Seq<ProfileEntry>) -> Seq<ProfileEntryView> {
    v.map_values(|e: ProfileEntry| e@)
}

/// How well Wombat supports the AWS account of a profile (`NoSupport` is
/// what the UI receives as `None`).
#[derive(Clone, Copy, Debug, PartialEq, Eq, Structural)]
pub enum SupportLevel {
    Full,
    Partial,
    NoSupport,
}

/// A profile that assumes the infrastructure role of one application in one
/// environment.
#[derive(Clone, Debug)]
pub struct InfraProfile {
    pub source_profile: String,
    pub profile_name: String,
    pub region: Option<String>,
    pub app: String,
    pub env: Env,
}

/// The contents of an `InfraProfile`.
pub struct InfraProfileView {
    pub source_profile: Seq<char>,
    pub profile_name: Seq<char>,
    pub region: Option<Seq<char>>,
    pub app: Seq<char>,
    pub env: Env,
}

impl View for InfraProfile {
    type V = InfraProfileView;

    open spec fn view(&self) -> InfraProfileView {
        InfraProfileView {
            source_profile: self.source_profile@,
            profile_name: self.profile_name@,
            region: opt_view(self.region),
            app: self.app@,
            env: self.env,
        }
    }
}

/// The views of a sequence of infrastructure profiles.
pub open spec fn infra_views(v: Seq<InfraProfile>) -> Seq<InfraProfileView> {
    v.map_values(|p: InfraProfile| p@)
}

impl InfraProfile {
    /// A copy of the profile.
    pub fn duplicate(&self) -> (r: InfraProfile)
        ensures
            r == *self,
    {
        InfraProfile {
            source_profile: self.source_profile.clone(),
            profile_name: self.profile_name.clone(),
            region: copy_opt(&self.region),
            app: self.app.clone(),
            env: self.env,
        }
    }

    /// A copy of the profile for environment `env`.
    pub fn for_env(&self, env: Env) -> (r: InfraProfile)
        ensures
            r@ == (InfraProfileView { env, ..self@ }),
    {
        let mut r = self.duplicate();
        r.env = env;
        r
    }
}

/// The pattern that finds the application in the role of an infrastructure
/// profile (`arn:...:role/<app>-infra`).
pub open spec fn infra_role_pattern() -> Seq<char> {
    ".*/(.*)-infra"@
}

/// The environments an infrastructure profile serves: the one its name ends
/// in (`-play`, `-lab`, `-dev`, `-demo`, `-prod`), or all five.
pub open spec fn infra_envs(name: Seq<char>) -> Seq<Env> {
    let m = (if has_suffix(name, "-play"@) { seq![Env::PLAY] } else { Seq::<Env>::empty() })
        + (if has_suffix(name, "-lab"@) { seq![Env::LAB] } else { Seq::<Env>::empty() })
        + (if has_suffix(name, "-dev"@) { seq![Env::DEV] } else { Seq::<Env>::empty() })
        + (if has_suffix(name, "-demo"@) { seq![Env::DEMO] } else { Seq::<Env>::empty() })
        + (if has_suffix(name, "-prod"@) { seq![Env::PROD] } else { Seq::<Env>::empty() });
    if m.len() == 0 {
        seq![Env::PLAY, Env::LAB, Env::DEV, Env::DEMO, Env::PROD]
    } else {
        m
    }
}

proof fn lemma_suffix_last(s: Seq<char>, t: Seq<char>)
    requires
        has_suffix(s, t),
        t.len() > 0,
    ensures
        s.last() == t.last(),
{
    assert(s.skip(s.len() - t.len())[t.len() - 1] == s[s.len() - 1]);
}

/// The suffix `-<env>` of the name of an environment.
proof fn lemma_env_suffixes()
    ensures
        "-"@ + env_name(Env::PLAY) == "-play"@,
        "-"@ + env_name(Env::LAB) == "-lab"@,
        "-"@ + env_name(Env::DEV) == "-dev"@,
        "-"@ + env_name(Env::DEMO) == "-demo"@,
        "-"@ + env_name(Env::PROD) == "-prod"@,
        "-play"@.last() == 'y',
        "-lab"@.last() == 'b',
        "-dev"@.last() == 'v',
        "-demo"@.last() == 'o',
        "-prod"@.last() == 'd',
{
    reveal_strlit("-");
    reveal_strlit("play");
    reveal_strlit("lab");
    reveal_strlit("dev");
    reveal_strlit("demo");
    reveal_strlit("prod");
    reveal_strlit("-play");
    reveal_strlit("-lab");
    reveal_strlit("-dev");
    reveal_strlit("-demo");
    reveal_strlit("-prod");
    assert("-"@ + "play"@ =~= "-play"@);
    assert("-"@ + "lab"@ =~= "-lab"@);
    assert("-"@ + "dev"@ =~= "-dev"@);
    assert("-"@ + "demo"@ =~= "-demo"@);
    assert("-"@ + "prod"@ =~= "-prod"@);
}

/// An environment of infrastructure profiles: any but `DEVNULL`.
pub open spec fn is_real_env(e: Env) -> bool {
    e != Env::DEVNULL
}

/// The name of an infrastructure profile ends in `-<env>` for some
/// environment.
pub open spec fn names_an_env(name: Seq<char>) -> bool {
    exists|e: Env| is_real_env(e) && #[trigger] has_suffix(name, "-"@ + env_name(e))
}

/// The environments an infrastructure profile serves follow its name: a
/// name `<...>-<env>` serves exactly that one environment; a name that ends
/// in no environment serves all five. `DEVNULL` is never served.
pub proof fn law_infra_envs(name: Seq<char>)
    ensures
        !infra_envs(name).contains(Env::DEVNULL),
        names_an_env(name) ==> infra_envs(name).len() == 1,
        names_an_env(name) ==> forall|e: Env| #[trigger] infra_envs(name).contains(e) <==> (is_real_env(e)
            && has_suffix(name, "-"@ + env_name(e))),
        !names_an_env(name) ==> infra_envs(name) == seq![Env::PLAY, Env::LAB, Env::DEV, Env::DEMO, Env::PROD],
{
    lemma_env_suffixes();
    reveal_strlit("-play");
    reveal_strlit("-lab");
    reveal_strlit("-dev");
    reveal_strlit("-demo");
    reveal_strlit("-prod");
    let sp = has_suffix(name, "-play"@);
    let sl = has_suffix(name, "-lab"@);
    let sv = has_suffix(name, "-dev"@);
    let sm = has_suffix(name, "-demo"@);
    let sd = has_suffix(name, "-prod"@);
    if sp { lemma_suffix_last(name, "-play"@); }
    if sl { lemma_suffix_last(name, "-lab"@); }
    if sv { lemma_suffix_last(name, "-dev"@); }
    if sm { lemma_suffix_last(name, "-demo"@); }
    if sd { lemma_suffix_last(name, "-prod"@); }
    let e0 = Seq::<Env>::empty();
    let m = (if sp { seq![Env::PLAY] } else { e0 }) + (if sl { seq![Env::LAB] } else { e0 }) + (if sv {
        seq![Env::DEV]
    } else {
        e0
    }) + (if sm { seq![Env::DEMO] } else { e0 }) + (if sd { seq![Env::PROD] } else { e0 });
    assert(names_an_env(name) == (sp || sl || sv || sm || sd)) by {
        if names_an_env(name) {
            let e = choose|e: Env| is_real_env(e) && #[trigger] has_suffix(name, "-"@ + env_name(e));
            match e {
                Env::PLAY => {},
                Env::LAB => {},
                Env::DEV => {},
                Env::DEMO => {},
                Env::PROD => {},
                Env::DEVNULL => {},
            }
        }
        if sp { assert(has_suffix(name, "-"@ + env_name(Env::PLAY))); }
        if sl { assert(has_suffix(name, "-"@ + env_name(Env::LAB))); }
        if sv { assert(has_suffix(name, "-"@ + env_name(Env::DEV))); }
        if sm { assert(has_suffix(name, "-"@ + env_name(Env::DEMO))); }
        if sd { assert(has_suffix(name, "-"@ + env_name(Env::PROD))); }
    }
    let one = if sp {
        Env::PLAY
    } else if sl {
        Env::LAB
    } else if sv {
        Env::DEV
    } else if sm {
        Env::DEMO
    } else {
        Env::PROD
    };
    if sp || sl || sv || sm || sd {
        assert(m =~= seq![one]);
        assert(infra_envs(name) == seq![one]);
        assert forall|e: Env| #[trigger] infra_envs(name).contains(e) <==> (is_real_env(e) && has_suffix(
            name,
            "-"@ + env_name(e),
        )) by {
            if infra_envs(name).contains(e) {
                assert(seq![one][0] == one);
                let i = choose|i: int| 0 <= i < seq![one].len() && seq![one][i] == e;
                assert(e == one);
            }
            if is_real_env(e) && has_suffix(name, "-"@ + env_name(e)) {
                match e {
                    Env::PLAY => {},
                    Env::LAB => {},
                    Env::DEV => {},
                    Env::DEMO => {},
                    Env::PROD => {},
                    Env::DEVNULL => {},
                }
                assert(e == one);
                assert(seq![one][0] == e);
            }
        }
    } else {
        assert(m =~= e0);
        let all = seq![Env::PLAY, Env::LAB, Env::DEV, Env::DEMO, Env::PROD];
        if all.contains(Env::DEVNULL) {
            let i = choose|i: int| 0 <= i < all.len() && all[i] == Env::DEVNULL;
        }
    }
}

/// The infrastructure profiles that one profile entry yields for the
/// application `app` that the role pattern captured (`None` where it found
/// none): none without a source profile or an application; else one per
/// environment the entry serves.
pub open spec fn infra_with_app(e: ProfileEntryView, app: Option<Seq<char>>) -> Seq<InfraProfileView> {
    match (e.source_profile, app) {
        (Some(src), Some(app)) => infra_envs(e.name).map_values(
            |env: Env|
                InfraProfileView {
                    source_profile: src,
                    profile_name: e.name,
                    region: e.region,
                    app,
                    env,
                },
        ),
        _ => Seq::<InfraProfileView>::empty(),
    }
}

/// The infrastructure profiles one entry yields for a captured application
/// `app`: none without a source profile or an application; else profiles of
/// that entry, source and application, one for each environment the name
/// serves (`law_infra_envs`): the one it ends in, or all five.
pub proof fn law_infra_profiles_for_app(e: ProfileEntryView, app: Option<Seq<char>>)
    ensures
        (e.source_profile is None || app is None) ==> infra_with_app(e, app).len() == 0,
        (e.source_profile is Some && app is Some) ==> {
            let r = infra_with_app(e, app);
            &&& forall|i: int|
                0 <= i < r.len() ==> (#[trigger] r[i]).source_profile == e.source_profile->Some_0 && r[i].profile_name
                    == e.name && r[i].app == app->Some_0 && r[i].region == e.region
            &&& forall|env: Env|
                (exists|i: int| 0 <= i < r.len() && (#[trigger] r[i]).env == env) <==> (is_real_env(env) && (
                names_an_env(e.name) ==> has_suffix(e.name, "-"@ + env_name(env))))
            &&& names_an_env(e.name) ==> r.len() == 1
        },
{
    law_infra_envs(e.name);
    if e.source_profile is Some && app is Some {
        let envs = infra_envs(e.name);
        let r = infra_with_app(e, app);
        assert(r.len() == envs.len());
        assert forall|env: Env|
            (exists|i: int| 0 <= i < r.len() && (#[trigger] r[i]).env == env) <==> (is_real_env(env) && (
            names_an_env(e.name) ==> has_suffix(e.name, "-"@ + env_name(env)))) by {
            if exists|i: int| 0 <= i < r.len() && (#[trigger] r[i]).env == env {
                let i = choose|i: int| 0 <= i < r.len() && (#[trigger] r[i]).env == env;
                assert(envs[i] == env);
                assert(envs.contains(env));
            }
            if is_real_env(env) && (names_an_env(e.name) ==> has_suffix(e.name, "-"@ + env_name(env))) {
                if names_an_env(e.name) {
                    assert(envs.contains(env));
                } else {
                    let all = seq![Env::PLAY, Env::LAB, Env::DEV, Env::DEMO, Env::PROD];
                    match env {
                        Env::PLAY => { assert(all[0] == env); },
                        Env::LAB => { assert(all[1] == env); },
                        Env::DEV => { assert(all[2] == env); },
                        Env::DEMO => { assert(all[3] == env); },
                        Env::PROD => { assert(all[4] == env); },
                        Env::DEVNULL => {},
                    }
                    assert(envs.contains(env));
                }
                let i = choose|i: int| 0 <= i < envs.len() && envs[i] == env;
                assert(r[i].env == env);
            }
        }
    }
}

/// The infrastructure profiles that one profile entry yields: none unless it
/// has a source profile and a role whose application the pattern finds; then
/// one per environment it serves.
pub open spec fn infra_for_entry(e: ProfileEntryView) -> Seq<InfraProfileView> {
    match (e.source_profile, e.role_arn) {
        (Some(_), Some(role)) => infra_with_app(e, regex_group(infra_role_pattern(), role, 1)),
        _ => Seq::<InfraProfileView>::empty(),
    }
}

/// The infrastructure profiles of all entries, in order.
pub open spec fn infra_profiles_of(es: Seq<ProfileEntryView>) -> Seq<InfraProfileView>
    decreases es.len(),
{
    if es.len() == 0 {
        Seq::<InfraProfileView>::empty()
    } else {
        infra_profiles_of(es.drop_last()) + infra_for_entry(es.last())
    }
}

fn env_suffixes(name: &Vec<char>) -> (envs: Vec<Env>)
    ensures
        envs@ == infra_envs(name@),
{
    let mut m: Vec<Env> = Vec::new();
    if ends_with(name, &chars_of("-play")) {
        m.push(Env::PLAY);
    }
    let ghost m1 = m@;
    if ends_with(name, &chars_of("-lab")) {
        m.push(Env::LAB);
    }
    let ghost m2 = m@;
    if ends_with(name, &chars_of("-dev")) {
        m.push(Env::DEV);
    }
    let ghost m3 = m@;
    if ends_with(name, &chars_of("-demo")) {
        m.push(Env::DEMO);
    }
    let ghost m4 = m@;
    if ends_with(name, &chars_of("-prod")) {
        m.push(Env::PROD);
    }
    let ghost spec_m = (if has_suffix(name@, "-play"@) { seq![Env::PLAY] } else { Seq::<Env>::empty() })
        + (if has_suffix(name@, "-lab"@) { seq![Env::LAB] } else { Seq::<Env>::empty() })
        + (if has_suffix(name@, "-dev"@) { seq![Env::DEV] } else { Seq::<Env>::empty() })
        + (if has_suffix(name@, "-demo"@) { seq![Env::DEMO] } else { Seq::<Env>::empty() })
        + (if has_suffix(name@, "-prod"@) { seq![Env::PROD] } else { Seq::<Env>::empty() });
    assert(m@ =~= spec_m);
    if m.len() == 0 {
        let mut all: Vec<Env> = Vec::new();
        all.push(Env::PLAY);
        all.push(Env::LAB);
        all.push(Env::DEV);
        all.push(Env::DEMO);
        all.push(Env::PROD);
        assert(all@ =~= seq![Env::PLAY, Env::LAB, Env::DEV, Env::DEMO, Env::PROD]);
        all
    } else {
        m
    }
}

/// Appends to `r` the infrastructure profiles that the entry `p` yields for
/// the application `app` captured from its role (see `infra_with_app`).
pub fn push_infra_for_app(r: &mut Vec<InfraProfile>, p: &ProfileEntry, app: Option<String>)
    ensures
        infra_views(final(r)@) == infra_views(old(r)@) + infra_with_app(p@, opt_view(app)),
{
    let ghost before = infra_views(r@);
    let ghost expected = infra_with_app(p@, opt_view(app));
    match (&p.source_profile, app) {
        (Some(src), Some(app)) => {
            let name = chars_of(p.name.as_str());
            let envs = env_suffixes(&name);
            assert(expected.len() == envs@.len());
            let mut k: usize = 0;
            while k < envs.len()
                invariant
                    k <= envs.len(),
                    expected == infra_with_app(p@, Some(app@)),
                    expected.len() == envs@.len(),
                    envs@ == infra_envs(p.name@),
                    p.source_profile == Some(*src),
                    infra_views(r@) == before + expected.take(k as int),
                decreases envs.len() - k,
            {
                let ip = InfraProfile {
                    source_profile: src.clone(),
                    profile_name: p.name.clone(),
                    region: copy_opt(&p.region),
                    app: app.clone(),
                    env: envs[k],
                };
                assert(ip@ == expected[k as int]);
                let ghost prev = infra_views(r@);
                r.push(ip);
                assert(infra_views(r@) =~= prev.push(ip@));
                assert(expected.take(k + 1) =~= expected.take(k as int).push(expected[k as int]));
                k = k + 1;
            }
            assert(expected.take(envs.len() as int) =~= expected);
        },
        _ => {
            assert(expected =~= Seq::<InfraProfileView>::empty());
            assert(before + expected =~= before);
        },
    }
}

/// The infrastructure profiles of the configuration: for every entry with
/// a `source_profile` and a role `.../<app>-infra`, one profile per
/// environment that its name ends in, or one per environment where it ends
/// in none.
pub fn read_infra_profiles(profiles: &Vec<ProfileEntry>) -> (r: Vec<InfraProfile>)
    ensures
        infra_views(r@) == infra_profiles_of(entry_views(profiles@)),
{
    let mut r: Vec<InfraProfile> = Vec::new();
    let mut i: usize = 0;
    while i < profiles.len()
        invariant
            i <= profiles.len(),
            infra_views(r@) == infra_profiles_of(entry_views(profiles@).take(i as int)),
        decreases profiles.len() - i,
    {
        let ghost es = entry_views(profiles@);
        assert(es.take(i + 1).drop_last() =~= es.take(i as int));
        assert(es.take(i + 1).last() == profiles@[i as int]@);
        let ghost before = infra_views(r@);
        let p = &profiles[i];
        match (&p.source_profile, &p.role_arn) {
            (Some(_), Some(role)) => {
                let app = regex_capture(".*/(.*)-infra", role.as_str(), 1);
                push_infra_for_app(&mut r, p, app);
            },
            _ => {
                assert(infra_for_entry(p@) =~= Seq::<InfraProfileView>::empty());
                assert(before + infra_for_entry(p@) =~= before);
            },
        }
        i = i + 1;
    }
    assert(entry_views(profiles@).take(profiles.len() as int) =~= entry_views(profiles@));
    r
}


/// A profile signed in through AWS SSO, for one environment, with the
/// infrastructure profiles that use it as their source.
#[derive(Clone, Debug)]
pub struct SsoProfile {
    pub profile_name: String,
    pub region: Option<String>,
    pub infra_profiles: Vec<InfraProfile>,
    pub sso_account_id: String,
    pub support_level: SupportLevel,
    pub env: Env,
}

/// The contents of an `SsoProfile`.
pub struct SsoProfileView {
    pub profile_name: Seq<char>,
    pub region: Option<Seq<char>>,
    pub infra_profiles: Seq<InfraProfileView>,
    pub sso_account_id: Seq<char>,
    pub support_level: SupportLevel,
    pub env: Env,
}

impl View for SsoProfile {
    type V = SsoProfileView;

    open spec fn view(&self) -> SsoProfileView {
        SsoProfileView {
            profile_name: self.profile_name@,
            region: opt_view(self.region),
            infra_profiles: infra_views(self.infra_profiles@),
            sso_account_id: self.sso_account_id@,
            support_level: self.support_level,
            env: self.env,
        }
    }
}

/// The views of a sequence of SSO profiles.
pub open spec fn sso_views(v: Seq<SsoProfile>) -> Seq<SsoProfileView> {
    v.map_values(|p: SsoProfile| p@)
}

/// The infrastructure profiles of `ps` that serve environment `env`.
pub open spec fn infra_in_env(ps: Seq<InfraProfileView>, env: Env) -> Seq<InfraProfileView>
    decreases ps.len(),
{
    if ps.len() == 0 {
        ps
    } else if ps.last().env == env {
        infra_in_env(ps.drop_last(), env).push(ps.last())
    } else {
        infra_in_env(ps.drop_last(), env)
    }
}

/// The infrastructure profiles of `ps` whose source profile is `name`.
pub open spec fn infra_from_source(ps: Seq<InfraProfileView>, name: Seq<char>) -> Seq<InfraProfileView>
    decreases ps.len(),
{
    if ps.len() == 0 {
        ps
    } else if ps.last().source_profile == name {
        infra_from_source(ps.drop_last(), name).push(ps.last())
    } else {
        infra_from_source(ps.drop_last(), name)
    }
}

/// An SSO profile narrowed to environment `env`: its environment set and
/// only the infrastructure profiles of that environment kept.
pub open spec fn sso_for_env(s: SsoProfileView, env: Env) -> SsoProfileView {
    SsoProfileView { env, infra_profiles: infra_in_env(s.infra_profiles, env), ..s }
}

/// Copies of the infrastructure profiles of `ps` that serve `env`.
fn infra_in_env_exec(ps: &Vec<InfraProfile>, env: Env) -> (r: Vec<InfraProfile>)
    ensures
        infra_views(r@) == infra_in_env(infra_views(ps@), env),
{
    let mut r: Vec<InfraProfile> = Vec::new();
    let mut i: usize = 0;
    while i < ps.len()
        invariant
            i <= ps.len(),
            infra_views(r@) == infra_in_env(infra_views(ps@).take(i as int), env),
        decreases ps.len() - i,
    {
        let ghost all = infra_views(ps@);
        assert(all.take(i + 1).drop_last() =~= all.take(i as int));
        assert(all.take(i + 1).last() == ps@[i as int]@);
        if ps[i].env == env {
            let ghost prev = infra_views(r@);
            r.push(ps[i].duplicate());
            assert(infra_views(r@) =~= prev.push(ps@[i as int]@));
        }
        i = i + 1;
    }
    assert(infra_views(ps@).take(ps.len() as int) =~= infra_views(ps@));
    r
}

/// Copies of the infrastructure profiles of `ps` whose source is `name`.
fn infra_from_source_exec(ps: &Vec<InfraProfile>, name: &str) -> (r: Vec<InfraProfile>)
    ensures
        infra_views(r@) == infra_from_source(infra_views(ps@), name@),
{
    let mut r: Vec<InfraProfile> = Vec::new();
    let mut i: usize = 0;
    while i < ps.len()
        invariant
            i <= ps.len(),
            infra_views(r@) == infra_from_source(infra_views(ps@).take(i as int), name@),
        decreases ps.len() - i,
    {
        let ghost all = infra_views(ps@);
        assert(all.take(i + 1).drop_last() =~= all.take(i as int));
        assert(all.take(i + 1).last() == ps@[i as int]@);
        if same_text(ps[i].source_profile.as_str(), name) {
            let ghost prev = infra_views(r@);
            r.push(ps[i].duplicate());
            assert(infra_views(r@) =~= prev.push(ps@[i as int]@));
        }
        i = i + 1;
    }
    assert(infra_views(ps@).take(ps.len() as int) =~= infra_views(ps@));
    r
}

impl SsoProfile {
    /// A copy of the profile for environment `env`, keeping only the
    /// infrastructure profiles of that environment.
    pub fn for_env(&self, env: Env) -> (r: SsoProfile)
        ensures
            r@ == sso_for_env(self@, env),
    {
        SsoProfile {
            profile_name: self.profile_name.clone(),
            region: copy_opt(&self.region),
            infra_profiles: infra_in_env_exec(&self.infra_profiles, env),
            sso_account_id: self.sso_account_id.clone(),
            support_level: self.support_level,
            env,
        }
    }

    /// A copy of the profile.
    pub fn duplicate(&self) -> (r: SsoProfile)
        ensures
            r@ == self@,
    {
        let mut infra: Vec<InfraProfile> = Vec::new();
        let mut i: usize = 0;
        while i < self.infra_profiles.len()
            invariant
                i <= self.infra_profiles.len(),
                infra_views(infra@) == infra_views(self.infra_profiles@).take(i as int),
            decreases self.infra_profiles.len() - i,
        {
            let ghost prev = infra_views(infra@);
            infra.push(self.infra_profiles[i].duplicate());
            assert(infra_views(infra@) =~= prev.push(self.infra_profiles@[i as int]@));
            assert(infra_views(self.infra_profiles@).take(i + 1) =~= infra_views(
                self.infra_profiles@,
            ).take(i as int).push(self.infra_profiles@[i as int]@));
            i = i + 1;
        }
        assert(infra_views(self.infra_profiles@).take(i as int) =~= infra_views(self.infra_profiles@));
        SsoProfile {
            profile_name: self.profile_name.clone(),
            region: copy_opt(&self.region),
            infra_profiles: infra,
            sso_account_id: self.sso_account_id.clone(),
            support_level: self.support_level,
            env: self.env,
        }
    }
}


/// A profile as Wombat offers it: one SSO profile per environment (at most
/// one for each), grouped under the name of their common base profile.
#[derive(Clone, Debug)]
pub struct WombatAwsProfile {
    pub name: String,
    pub profile_base_name: String,
    pub sso_profiles: Vec<SsoProfile>,
    pub support_level: SupportLevel,
    pub single_source_profile: bool,
}

/// The contents of a `WombatAwsProfile`.
pub struct WombatAwsProfileView {
    pub name: Seq<char>,
    pub profile_base_name: Seq<char>,
    pub sso_profiles: Seq<SsoProfileView>,
    pub support_level: SupportLevel,
    pub single_source_profile: bool,
}

impl View for WombatAwsProfile {
    type V = WombatAwsProfileView;

    open spec fn view(&self) -> WombatAwsProfileView {
        WombatAwsProfileView {
            name: self.name@,
            profile_base_name: self.profile_base_name@,
            sso_profiles: sso_views(self.sso_profiles@),
            support_level: self.support_level,
            single_source_profile: self.single_source_profile,
        }
    }
}

/// The views of a sequence of Wombat profiles.
pub open spec fn wombat_views(v: Seq<WombatAwsProfile>) -> Seq<WombatAwsProfileView> {
    v.map_values(|p: WombatAwsProfile| p@)
}

/// The position of the first SSO profile of environment `e`, or -1.
pub open spec fn env_slot(ssos: Seq<SsoProfileView>, e: Env) -> int
    decreases ssos.len(),
{
    if ssos.len() == 0 {
        -1
    } else {
        let k = env_slot(ssos.drop_last(), e);
        if k >= 0 {
            k
        } else if ssos.last().env == e {
            ssos.len() - 1
        } else {
            -1
        }
    }
}

proof fn lemma_env_slot(ssos: Seq<SsoProfileView>, e: Env)
    ensures
        -1 <= env_slot(ssos, e) < ssos.len(),
        env_slot(ssos, e) >= 0 ==> ssos[env_slot(ssos, e)].env == e,
        forall|i: int| 0 <= i < ssos.len() && (env_slot(ssos, e) < 0 || i < env_slot(ssos, e)) ==> ssos[i].env != e,
    decreases ssos.len(),
{
    if ssos.len() > 0 {
        lemma_env_slot(ssos.drop_last(), e);
        let k = env_slot(ssos.drop_last(), e);
        if k >= 0 {
            assert(ssos[k] == ssos.drop_last()[k]);
        }
        assert forall|i: int| 0 <= i < ssos.len() && (env_slot(ssos, e) < 0 || i < env_slot(ssos, e)) implies ssos[i].env != e by {
            if i < ssos.len() - 1 {
                assert(ssos[i] == ssos.drop_last()[i]);
            }
        }
    }
}

/// The SSO profiles with `s` put in: in place of the one of its
/// environment, or added at the end.
pub open spec fn put_sso(ssos: Seq<SsoProfileView>, s: SsoProfileView) -> Seq<SsoProfileView> {
    let k = env_slot(ssos, s.env);
    if k >= 0 {
        ssos.update(k, s)
    } else {
        ssos.push(s)
    }
}

/// Every environment, in the order in which they compare.
pub open spec fn all_envs() -> Seq<Env> {
    seq![Env::DEVNULL, Env::PLAY, Env::LAB, Env::DEV, Env::DEMO, Env::PROD]
}

/// The names of the environments of `envs` that some profile of `ssos`
/// has, in the order of `envs`.
pub open spec fn present_env_names(envs: Seq<Env>, ssos: Seq<SsoProfileView>) -> Seq<Seq<char>>
    decreases envs.len(),
{
    if envs.len() == 0 {
        Seq::<Seq<char>>::empty()
    } else if env_slot(ssos, envs.last()) >= 0 {
        present_env_names(envs.drop_last(), ssos).push(env_name(envs.last()))
    } else {
        present_env_names(envs.drop_last(), ssos)
    }
}

/// The environments of the profiles, sorted and joined with `|`.
pub open spec fn env_label(ssos: Seq<SsoProfileView>) -> Seq<char> {
    join_with(present_env_names(all_envs(), ssos), "|"@)
}

/// How many of the profiles have full support.
pub open spec fn full_count(ssos: Seq<SsoProfileView>) -> nat
    decreases ssos.len(),
{
    if ssos.len() == 0 {
        0
    } else {
        full_count(ssos.drop_last()) + if ssos.last().support_level == SupportLevel::Full {
            1nat
        } else {
            0nat
        }
    }
}

/// Full support when every profile has it, none when no profile has it,
/// partial otherwise.
pub open spec fn combined_support(ssos: Seq<SsoProfileView>) -> SupportLevel {
    if full_count(ssos) == ssos.len() {
        SupportLevel::Full
    } else if full_count(ssos) == 0 {
        SupportLevel::NoSupport
    } else {
        SupportLevel::Partial
    }
}

/// A Wombat profile with the SSO profile `s` added: `s` takes the place of
/// the profile of its environment, the name lists the environments
/// (`base-(dev|prod)`), the support level combines those of the profiles,
/// and the profile has a single source when every SSO profile is `s`'s.
pub open spec fn extend_view(w: WombatAwsProfileView, s: SsoProfileView) -> WombatAwsProfileView {
    let ssos = put_sso(w.sso_profiles, s);
    WombatAwsProfileView {
        name: w.profile_base_name + "-("@ + env_label(ssos) + ")"@,
        profile_base_name: w.profile_base_name,
        sso_profiles: ssos,
        support_level: combined_support(ssos),
        single_source_profile: forall|i: int|
            0 <= i < ssos.len() ==> #[trigger] ssos[i].profile_name == s.profile_name,
    }
}

fn find_env_slot(ssos: &Vec<SsoProfile>, e: Env) -> (k: Option<usize>)
    ensures
        match k {
            Some(k) => k < ssos.len() && k as int == env_slot(sso_views(ssos@), e),
            None => env_slot(sso_views(ssos@), e) < 0,
        },
{
    proof {
        lemma_env_slot(sso_views(ssos@), e);
    }
    let mut i: usize = 0;
    while i < ssos.len()
        invariant
            i <= ssos.len(),
            forall|j: int| 0 <= j < i ==> ssos@[j].env != e,
            -1 <= env_slot(sso_views(ssos@), e) < ssos.len(),
            env_slot(sso_views(ssos@), e) >= 0 ==> sso_views(ssos@)[env_slot(sso_views(ssos@), e)].env == e,
            forall|j: int| 0 <= j < ssos.len() && (env_slot(sso_views(ssos@), e) < 0 || j < env_slot(sso_views(ssos@), e)) ==> sso_views(ssos@)[j].env != e,
        decreases ssos.len() - i,
    {
        if ssos[i].env == e {
            assert(sso_views(ssos@)[i as int].env == e);
            return Some(i);
        }
        i = i + 1;
    }
    None
}

fn env_label_exec(ssos: &Vec<SsoProfile>) -> (r: Vec<char>)
    ensures
        r@ == env_label(sso_views(ssos@)),
{
    let mut envs: Vec<Env> = Vec::new();
    envs.push(Env::DEVNULL);
    envs.push(Env::PLAY);
    envs.push(Env::LAB);
    envs.push(Env::DEV);
    envs.push(Env::DEMO);
    envs.push(Env::PROD);
    assert(envs@ =~= all_envs());
    let mut names: Vec<Vec<char>> = Vec::new();
    let mut i: usize = 0;
    while i < envs.len()
        invariant
            i <= envs.len(),
            envs@ == all_envs(),
            seqs_of(names@) == present_env_names(envs@.take(i as int), sso_views(ssos@)),
        decreases envs.len() - i,
    {
        assert(envs@.take(i + 1).drop_last() =~= envs@.take(i as int));
        assert(envs@.take(i + 1).last() == envs@[i as int]);
        if find_env_slot(ssos, envs[i]).is_some() {
            let n = envs[i].name();
            let ghost prev = seqs_of(names@);
            names.push(chars_of(n.as_str()));
            assert(seqs_of(names@) =~= prev.push(env_name(envs@[i as int])));
        }
        i = i + 1;
    }
    assert(envs@.take(6) =~= envs@);
    join_on(&names, &chars_of("|"))
}

impl WombatAwsProfile {
    /// Adds the SSO profile `sso_profile` (see `extend_view`).
    pub fn extend(&mut self, sso_profile: SsoProfile)
        ensures
            final(self)@ == extend_view(old(self)@, sso_profile@),
    {
        let ghost s = sso_profile@;
        let ghost old_ssos = sso_views(self.sso_profiles@);
        let new_sso_profile = sso_profile.profile_name.clone();
        match find_env_slot(&self.sso_profiles, sso_profile.env) {
            Some(k) => {
                self.sso_profiles.set(k, sso_profile);
                assert(sso_views(self.sso_profiles@) =~= old_ssos.update(k as int, s));
            },
            None => {
                self.sso_profiles.push(sso_profile);
                assert(sso_views(self.sso_profiles@) =~= old_ssos.push(s));
            },
        }
        let ghost ssos = sso_views(self.sso_profiles@);
        assert(ssos == put_sso(old_ssos, s));
        let label = env_label_exec(&self.sso_profiles);
        let mut single = true;
        let mut full: usize = 0;
        let mut i: usize = 0;
        while i < self.sso_profiles.len()
            invariant
                i <= self.sso_profiles.len(),
                ssos == sso_views(self.sso_profiles@),
                new_sso_profile@ == s.profile_name,
                single == (forall|j: int| 0 <= j < i ==> #[trigger] ssos[j].profile_name == s.profile_name),
                full == full_count(ssos.take(i as int)),
                full <= i,
            decreases self.sso_profiles.len() - i,
        {
            assert(ssos.take(i + 1).drop_last() =~= ssos.take(i as int));
            assert(ssos.take(i + 1).last() == ssos[i as int]);
            assert(ssos[i as int].profile_name == self.sso_profiles@[i as int].profile_name@);
            if !same_text(self.sso_profiles[i].profile_name.as_str(), new_sso_profile.as_str()) {
                single = false;
            }
            if self.sso_profiles[i].support_level == SupportLevel::Full {
                full = full + 1;
            }
            i = i + 1;
        }
        assert(ssos.take(ssos.len() as int) =~= ssos);
        self.single_source_profile = single;
        self.support_level = if full == self.sso_profiles.len() {
            SupportLevel::Full
        } else if full == 0 {
            SupportLevel::NoSupport
        } else {
            SupportLevel::Partial
        };
        let mut name = chars_of(self.profile_base_name.as_str());
        push_all(&mut name, &chars_of("-("));
        push_all(&mut name, &label);
        push_all(&mut name, &chars_of(")"));
        self.name = string_from(&name);
    }
}


/// Whether an entry is an SSO profile that Wombat offers: it has an
/// `sso_start_url`, and its role, if any, is not an infrastructure role.
pub open spec fn valid_sso_entry(e: ProfileEntryView) -> bool {
    let is_sso = e.sso_start_url is Some;
    match e.role_arn {
        Some(role) => !has_suffix(role, "-infra"@) && is_sso,
        None => is_sso,
    }
}

/// The support Wombat gives an AWS account.
pub open spec fn account_support(account: Seq<char>) -> SupportLevel {
    if account == "835811189142"@ {
        SupportLevel::Full
    } else if account == "590184069535"@ || account == "275464048518"@ {
        SupportLevel::Partial
    } else {
        SupportLevel::NoSupport
    }
}

/// The SSO profile an entry stands for, before it is given an
/// environment: the infrastructure profiles sourced from it, its account
/// (`0` where unset) and the support of that account.
pub open spec fn sso_base(e: ProfileEntryView, infra: Seq<InfraProfileView>) -> SsoProfileView {
    let account = match e.sso_account_id {
        Some(a) => a,
        None => "0"@,
    };
    SsoProfileView {
        profile_name: e.name,
        region: e.region,
        infra_profiles: infra_from_source(infra, e.name),
        sso_account_id: account,
        support_level: account_support(account),
        env: Env::DEVNULL,
    }
}

/// The pattern that splits a profile name into base name and environment.
pub open spec fn profile_env_pattern() -> Seq<char> {
    "^(.*)-(play|lab|dev|demo|prod)$"@
}

/// The position of the first Wombat profile with base name `key`, or -1.
pub open spec fn base_slot(ws: Seq<WombatAwsProfileView>, key: Seq<char>) -> int
    decreases ws.len(),
{
    if ws.len() == 0 {
        -1
    } else {
        let k = base_slot(ws.drop_last(), key);
        if k >= 0 {
            k
        } else if ws.last().profile_base_name == key {
            ws.len() - 1
        } else {
            -1
        }
    }
}

proof fn lemma_base_slot(ws: Seq<WombatAwsProfileView>, key: Seq<char>)
    ensures
        -1 <= base_slot(ws, key) < ws.len(),
        base_slot(ws, key) >= 0 ==> ws[base_slot(ws, key)].profile_base_name == key,
        base_slot(ws, key) < 0 ==> forall|i: int| 0 <= i < ws.len() ==> ws[i].profile_base_name != key,
        forall|i: int| 0 <= i < base_slot(ws, key) ==> ws[i].profile_base_name != key,
    decreases ws.len(),
{
    if ws.len() > 0 {
        lemma_base_slot(ws.drop_last(), key);
        let k = base_slot(ws.drop_last(), key);
        if k >= 0 {
            assert(ws[k] == ws.drop_last()[k]);
        }
        assert forall|i: int| 0 <= i < ws.len() && (base_slot(ws, key) < 0 || i < base_slot(ws, key)) implies ws[i].profile_base_name != key by {
            if i < ws.len() - 1 {
                assert(ws[i] == ws.drop_last()[i]);
            }
        }
    }
}

/// A new Wombat profile named after its base.
pub open spec fn new_wombat(key: Seq<char>, ssos: Seq<SsoProfileView>, level: SupportLevel) -> WombatAwsProfileView {
    WombatAwsProfileView {
        name: key,
        profile_base_name: key,
        sso_profiles: ssos,
        support_level: level,
        single_source_profile: true,
    }
}

/// The Wombat profiles after taking in one more entry. An entry named
/// `<base>-<env>` adds its SSO profile for that environment to the profile
/// of `<base>` (created where missing); any other SSO entry becomes a profile
/// of its own, serving dev, demo and prod (replacing one of the same name).
pub open spec fn load_step(
    ws: Seq<WombatAwsProfileView>,
    infra: Seq<InfraProfileView>,
    e: ProfileEntryView,
) -> Seq<WombatAwsProfileView> {
    load_step_with(
        ws,
        infra,
        e,
        regex_group(profile_env_pattern(), e.name, 1),
        regex_group(profile_env_pattern(), e.name, 2),
    )
}

/// The Wombat profiles after taking in one more entry, given what
/// `profile_env_pattern` captured of its name: the base `base` and the
/// environment `env_text` (each `None` where it captured nothing).
pub open spec fn load_step_with(
    ws: Seq<WombatAwsProfileView>,
    infra: Seq<InfraProfileView>,
    e: ProfileEntryView,
    base: Option<Seq<char>>,
    env_text: Option<Seq<char>>,
) -> Seq<WombatAwsProfileView> {
    if !valid_sso_entry(e) {
        ws
    } else {
        let sso = sso_base(e, infra);
        match (base, env_text) {
            (Some(base), Some(env_text)) => {
                let s = sso_for_env(sso, env_from_name(env_text));
                let k = base_slot(ws, base);
                if k >= 0 {
                    ws.update(k, extend_view(ws[k], s))
                } else {
                    ws.push(new_wombat(base, seq![s], s.support_level))
                }
            },
            _ => {
                let w = new_wombat(
                    e.name,
                    seq![
                        sso_for_env(sso, Env::DEV),
                        sso_for_env(sso, Env::DEMO),
                        sso_for_env(sso, Env::PROD),
                    ],
                    sso.support_level,
                );
                let k = base_slot(ws, e.name);
                if k >= 0 {
                    ws.update(k, w)
                } else {
                    ws.push(w)
                }
            },
        }
    }
}

/// The Wombat profiles after taking in the entries `es` in order.
pub open spec fn wombats_after(es: Seq<ProfileEntryView>, infra: Seq<InfraProfileView>) -> Seq<
    WombatAwsProfileView,
>
    decreases es.len(),
{
    if es.len() == 0 {
        Seq::<WombatAwsProfileView>::empty()
    } else {
        load_step(wombats_after(es.drop_last(), infra), infra, es.last())
    }
}

/// The profiles of `ws` that hold some SSO profile.
pub open spec fn with_sso(ws: Seq<WombatAwsProfileView>) -> Seq<WombatAwsProfileView>
    decreases ws.len(),
{
    if ws.len() == 0 {
        ws
    } else if ws.last().sso_profiles.len() > 0 {
        with_sso(ws.drop_last()).push(ws.last())
    } else {
        with_sso(ws.drop_last())
    }
}

/// The Wombat profiles of a configuration, in the order their base names
/// first appear.
pub open spec fn wombat_profiles_of(es: Seq<ProfileEntryView>) -> Seq<WombatAwsProfileView> {
    with_sso(wombats_after(es, infra_profiles_of(es)))
}

fn find_base(ws: &Vec<WombatAwsProfile>, key: &str) -> (k: Option<usize>)
    ensures
        match k {
            Some(k) => k < ws.len() && k as int == base_slot(wombat_views(ws@), key@),
            None => base_slot(wombat_views(ws@), key@) < 0,
        },
{
    let ghost v = wombat_views(ws@);
    proof {
        lemma_base_slot(v, key@);
    }
    let mut i: usize = 0;
    while i < ws.len()
        invariant
            i <= ws.len(),
            v == wombat_views(ws@),
            forall|j: int| 0 <= j < i ==> v[j].profile_base_name != key@,
            -1 <= base_slot(v, key@) < ws.len(),
            base_slot(v, key@) >= 0 ==> v[base_slot(v, key@)].profile_base_name == key@,
            base_slot(v, key@) < 0 ==> forall|j: int| 0 <= j < ws.len() ==> v[j].profile_base_name != key@,
            forall|j: int| 0 <= j < base_slot(v, key@) ==> v[j].profile_base_name != key@,
        decreases ws.len() - i,
    {
        assert(v[i as int].profile_base_name == ws@[i as int].profile_base_name@);
        if same_text(ws[i].profile_base_name.as_str(), key) {
            proof {
                if base_slot(v, key@) != i {
                    assert(base_slot(v, key@) >= 0);
                }
            }
            return Some(i);
        }
        i = i + 1;
    }
    None
}

fn account_support_exec(account: &str) -> (l: SupportLevel)
    ensures
        l == account_support(account@),
{
    if same_text(account, "835811189142") {
        SupportLevel::Full
    } else if same_text(account, "590184069535") || same_text(account, "275464048518") {
        SupportLevel::Partial
    } else {
        SupportLevel::NoSupport
    }
}

fn sso_base_exec(e: &ProfileEntry, infra: &Vec<InfraProfile>) -> (s: SsoProfile)
    ensures
        s@ == sso_base(e@, infra_views(infra@)),
{
    let account = match &e.sso_account_id {
        Some(a) => a.clone(),
        None => "0".to_string(),
    };
    let level = account_support_exec(account.as_str());
    SsoProfile {
        profile_name: e.name.clone(),
        region: copy_opt(&e.region),
        infra_profiles: infra_from_source_exec(infra, e.name.as_str()),
        sso_account_id: account,
        support_level: level,
        env: Env::DEVNULL,
    }
}

fn valid_sso_entry_exec(e: &ProfileEntry) -> (b: bool)
    ensures
        b == valid_sso_entry(e@),
{
    let is_sso = e.sso_start_url.is_some();
    match &e.role_arn {
        Some(role) => !ends_with(&chars_of(role.as_str()), &chars_of("-infra")) && is_sso,
        None => is_sso,
    }
}

impl WombatAwsProfile {
    /// A copy of the profile.
    pub fn duplicate(&self) -> (r: WombatAwsProfile)
        ensures
            r@ == self@,
    {
        let mut ssos: Vec<SsoProfile> = Vec::new();
        let mut i: usize = 0;
        while i < self.sso_profiles.len()
            invariant
                i <= self.sso_profiles.len(),
                sso_views(ssos@) == sso_views(self.sso_profiles@).take(i as int),
            decreases self.sso_profiles.len() - i,
        {
            let ghost prev = sso_views(ssos@);
            ssos.push(self.sso_profiles[i].duplicate());
            assert(sso_views(ssos@) =~= prev.push(self.sso_profiles@[i as int]@));
            assert(sso_views(self.sso_profiles@).take(i + 1) =~= sso_views(self.sso_profiles@).take(
                i as int,
            ).push(self.sso_profiles@[i as int]@));
            i = i + 1;
        }
        assert(sso_views(self.sso_profiles@).take(i as int) =~= sso_views(self.sso_profiles@));
        WombatAwsProfile {
            name: self.name.clone(),
            profile_base_name: self.profile_base_name.clone(),
            sso_profiles: ssos,
            support_level: self.support_level,
            single_source_profile: self.single_source_profile,
        }
    }
}

fn wombat_with_sso(ws: &Vec<WombatAwsProfile>) -> (r: Vec<WombatAwsProfile>)
    ensures
        wombat_views(r@) == with_sso(wombat_views(ws@)),
{
    let ghost all = wombat_views(ws@);
    let mut r: Vec<WombatAwsProfile> = Vec::new();
    let mut i: usize = 0;
    while i < ws.len()
        invariant
            i <= ws.len(),
            all == wombat_views(ws@),
            wombat_views(r@) == with_sso(all.take(i as int)),
        decreases ws.len() - i,
    {
        assert(all.take(i + 1).drop_last() =~= all.take(i as int));
        assert(all.take(i + 1).last() == ws@[i as int]@);
        if ws[i].sso_profiles.len() > 0 {
            let ghost prev = wombat_views(r@);
            r.push(ws[i].duplicate());
            assert(wombat_views(r@) =~= prev.push(ws@[i as int]@));
        }
        i = i + 1;
    }
    assert(all.take(ws.len() as int) =~= all);
    r
}

/// Takes in the profile entry `p` (see `load_step_with`), given what
/// `profile_env_pattern` captured of its name: the base `base` and the
/// environment `env_text`.
pub fn take_profile_entry(
    ws: &mut Vec<WombatAwsProfile>,
    infra: &Vec<InfraProfile>,
    p: &ProfileEntry,
    base: Option<String>,
    env_text: Option<String>,
)
    ensures
        wombat_views(final(ws)@) == load_step_with(
            wombat_views(old(ws)@),
            infra_views(infra@),
            p@,
            opt_view(base),
            opt_view(env_text),
        ),
{
    let ghost before = wombat_views(ws@);
    if valid_sso_entry_exec(p) {
        let sso = sso_base_exec(p, infra);
        match (base, env_text) {
            (Some(base), Some(env_text)) => {
                let env = Env::from_exact(env_text.as_str());
                let s = sso.for_env(env);
                let ghost sv = s@;
                let level = s.support_level;
                match find_base(&*ws, base.as_str()) {
                    Some(k) => {
                        let mut w = ws.remove(k);
                        w.extend(s);
                        ws.insert(k, w);
                        assert(wombat_views(ws@) =~= before.update(k as int, extend_view(before[k as int], sv)));
                    },
                    None => {
                        let mut ssos: Vec<SsoProfile> = Vec::new();
                        ssos.push(s);
                        assert(sso_views(ssos@) =~= seq![sv]);
                        let w = WombatAwsProfile {
                            name: base.clone(),
                            profile_base_name: base,
                            sso_profiles: ssos,
                            support_level: level,
                            single_source_profile: true,
                        };
                        ws.push(w);
                        assert(wombat_views(ws@) =~= before.push(w@));
                    },
                }
            },
            _ => {
                let level = sso.support_level;
                let mut ssos: Vec<SsoProfile> = Vec::new();
                ssos.push(sso.for_env(Env::DEV));
                ssos.push(sso.for_env(Env::DEMO));
                ssos.push(sso.for_env(Env::PROD));
                assert(sso_views(ssos@) =~= seq![
                    sso_for_env(sso@, Env::DEV),
                    sso_for_env(sso@, Env::DEMO),
                    sso_for_env(sso@, Env::PROD),
                ]);
                let w = WombatAwsProfile {
                    name: p.name.clone(),
                    profile_base_name: p.name.clone(),
                    sso_profiles: ssos,
                    support_level: level,
                    single_source_profile: true,
                };
                match find_base(&*ws, p.name.as_str()) {
                    Some(k) => {
                        ws.set(k, w);
                        assert(wombat_views(ws@) =~= before.update(k as int, w@));
                    },
                    None => {
                        ws.push(w);
                        assert(wombat_views(ws@) =~= before.push(w@));
                    },
                }
            },
        }
    }
}

/// The Wombat profiles of a configuration (see `wombat_profiles_of`).
pub fn load_aws_profile_configuration(profiles: &Vec<ProfileEntry>) -> (r: Vec<WombatAwsProfile>)
    ensures
        wombat_views(r@) == wombat_profiles_of(entry_views(profiles@)),
{
    let infra = read_infra_profiles(profiles);
    let ghost es = entry_views(profiles@);
    let ghost iv = infra_views(infra@);
    let mut ws: Vec<WombatAwsProfile> = Vec::new();
    let mut i: usize = 0;
    while i < profiles.len()
        invariant
            i <= profiles.len(),
            es == entry_views(profiles@),
            iv == infra_views(infra@),
            iv == infra_profiles_of(es),
            wombat_views(ws@) == wombats_after(es.take(i as int), iv),
        decreases profiles.len() - i,
    {
        assert(es.take(i + 1).drop_last() =~= es.take(i as int));
        assert(es.take(i + 1).last() == profiles@[i as int]@);
        let p = &profiles[i];
        if valid_sso_entry_exec(p) {
            let base = regex_capture("^(.*)-(play|lab|dev|demo|prod)$", p.name.as_str(), 1);
            let env_text = regex_capture("^(.*)-(play|lab|dev|demo|prod)$", p.name.as_str(), 2);
            take_profile_entry(&mut ws, &infra, p, base, env_text);
        }
        i = i + 1;
    }
    assert(es.take(profiles.len() as int) =~= es);
    wombat_with_sso(&ws)
}


/// The AWS side of the application: the profiles of the configuration
/// files, the Wombat profiles made of them, the one the user signed in with,
/// and whether the user works the developer's way (with SSO profiles where an
/// application has no infrastructure profile).
pub struct AwsConfigProvider {
    pub dev_way: bool,
    pub profile_set: Vec<ProfileEntry>,
    pub wombat_profiles: Vec<WombatAwsProfile>,
    pub active_wombat_profile: WombatAwsProfile,
}

/// The profile that is active before the user signs in.
pub open spec fn default_wombat() -> WombatAwsProfileView {
    WombatAwsProfileView {
        name: "default"@,
        profile_base_name: "default"@,
        sso_profiles: Seq::<SsoProfileView>::empty(),
        support_level: SupportLevel::NoSupport,
        single_source_profile: true,
    }
}

/// The position of the first Wombat profile named `name`, or -1.
pub open spec fn name_slot(ws: Seq<WombatAwsProfileView>, name: Seq<char>) -> int
    decreases ws.len(),
{
    if ws.len() == 0 {
        -1
    } else {
        let k = name_slot(ws.drop_last(), name);
        if k >= 0 {
            k
        } else if ws.last().name == name {
            ws.len() - 1
        } else {
            -1
        }
    }
}

proof fn lemma_name_slot(ws: Seq<WombatAwsProfileView>, name: Seq<char>)
    ensures
        -1 <= name_slot(ws, name) < ws.len(),
        name_slot(ws, name) >= 0 ==> ws[name_slot(ws, name)].name == name,
        forall|i: int| 0 <= i < ws.len() && (name_slot(ws, name) < 0 || i < name_slot(ws, name)) ==> ws[i].name != name,
    decreases ws.len(),
{
    if ws.len() > 0 {
        lemma_name_slot(ws.drop_last(), name);
        let k = name_slot(ws.drop_last(), name);
        if k >= 0 {
            assert(ws[k] == ws.drop_last()[k]);
        }
        assert forall|i: int| 0 <= i < ws.len() && (name_slot(ws, name) < 0 || i < name_slot(ws, name)) implies ws[i].name != name by {
            if i < ws.len() - 1 {
                assert(ws[i] == ws.drop_last()[i]);
            }
        }
    }
}

/// The position of the first infrastructure profile of application `app`
/// in environment `env`, or -1.
pub open spec fn app_slot(ps: Seq<InfraProfileView>, app: Seq<char>, env: Env) -> int
    decreases ps.len(),
{
    if ps.len() == 0 {
        -1
    } else {
        let k = app_slot(ps.drop_last(), app, env);
        if k >= 0 {
            k
        } else if ps.last().env == env && ps.last().app == app {
            ps.len() - 1
        } else {
            -1
        }
    }
}

proof fn lemma_app_slot(ps: Seq<InfraProfileView>, app: Seq<char>, env: Env)
    ensures
        -1 <= app_slot(ps, app, env) < ps.len(),
        app_slot(ps, app, env) >= 0 ==> ps[app_slot(ps, app, env)].env == env
            && ps[app_slot(ps, app, env)].app == app,
        forall|i: int| 0 <= i < ps.len() && (app_slot(ps, app, env) < 0 || i < app_slot(ps, app, env)) ==> !(ps[i].env == env && ps[i].app == app),
    decreases ps.len(),
{
    if ps.len() > 0 {
        lemma_app_slot(ps.drop_last(), app, env);
        let k = app_slot(ps.drop_last(), app, env);
        if k >= 0 {
            assert(ps[k] == ps.drop_last()[k]);
        }
        assert forall|i: int| 0 <= i < ps.len() && (app_slot(ps, app, env) < 0 || i < app_slot(ps, app, env)) implies !(ps[i].env == env && ps[i].app == app) by {
            if i < ps.len() - 1 {
                assert(ps[i] == ps.drop_last()[i]);
            }
        }
    }
}

/// The profile of the infrastructure role of `app` in `env`: the first
/// such infrastructure profile of the SSO profile of `env`, if any.
pub open spec fn app_profile(w: WombatAwsProfileView, app: Seq<char>, env: Env) -> Option<Seq<char>> {
    let k = env_slot(w.sso_profiles, env);
    if k < 0 {
        None
    } else {
        let ps = w.sso_profiles[k].infra_profiles;
        let j = app_slot(ps, app, env);
        if j < 0 {
            None
        } else {
            Some(ps[j].profile_name)
        }
    }
}

/// The environments of a Wombat profile's SSO profiles.
pub open spec fn envs_of(w: WombatAwsProfileView) -> Seq<Env> {
    w.sso_profiles.map_values(|s: SsoProfileView| s.env)
}

fn find_name(ws: &Vec<WombatAwsProfile>, name: &str) -> (k: usize)
    requires
        name_slot(wombat_views(ws@), name@) >= 0,
    ensures
        k < ws.len(),
        k as int == name_slot(wombat_views(ws@), name@),
{
    let ghost v = wombat_views(ws@);
    proof {
        lemma_name_slot(v, name@);
    }
    let mut i: usize = 0;
    while i < ws.len()
        invariant
            i <= ws.len(),
            v == wombat_views(ws@),
            0 <= name_slot(v, name@) < v.len(),
            v[name_slot(v, name@)].name == name@,
            forall|j: int| 0 <= j < i ==> v[j].name != name@,
            forall|j: int| 0 <= j < name_slot(v, name@) ==> v[j].name != name@,
        decreases ws.len() - i,
    {
        assert(v[i as int].name == ws@[i as int].name@);
        if same_text(ws[i].name.as_str(), name) {
            return i;
        }
        i = i + 1;
    }
    assert(v[name_slot(v, name@)].name == name@);
    i
}

impl AwsConfigProvider {
    /// The provider for a configuration: its Wombat profiles loaded, the
    /// default profile active, the developer's way off.
    pub fn new(profile_set: Vec<ProfileEntry>) -> (p: AwsConfigProvider)
        ensures
            !p.dev_way,
            entry_views(p.profile_set@) == entry_views(profile_set@),
            wombat_views(p.wombat_profiles@) == wombat_profiles_of(entry_views(profile_set@)),
            p.active_wombat_profile@ == default_wombat(),
    {
        let wombat_profiles = load_aws_profile_configuration(&profile_set);
        let active = WombatAwsProfile {
            name: "default".to_string(),
            profile_base_name: "default".to_string(),
            sso_profiles: Vec::new(),
            support_level: SupportLevel::NoSupport,
            single_source_profile: true,
        };
        assert(sso_views(active.sso_profiles@) =~= Seq::<SsoProfileView>::empty());
        AwsConfigProvider {
            dev_way: false,
            profile_set,
            wombat_profiles,
            active_wombat_profile: active,
        }
    }

    /// Signs in with the Wombat profile named `profile_name`.
    pub fn login(&mut self, profile_name: &str, dev_way: bool)
        requires
            name_slot(wombat_views(old(self).wombat_profiles@), profile_name@) >= 0,
        ensures
            final(self).dev_way == dev_way,
            final(self).active_wombat_profile@ == wombat_views(old(self).wombat_profiles@)[name_slot(
                wombat_views(old(self).wombat_profiles@),
                profile_name@,
            )],
            wombat_views(final(self).wombat_profiles@) == wombat_views(old(self).wombat_profiles@),
            entry_views(final(self).profile_set@) == entry_views(old(self).profile_set@),
    {
        let k = find_name(&self.wombat_profiles, profile_name);
        self.dev_way = dev_way;
        self.active_wombat_profile = self.wombat_profiles[k].duplicate();
    }

    /// The environments the active profile serves.
    pub fn configured_envs(&self) -> (envs: Vec<Env>)
        ensures
            envs@ == envs_of(self.active_wombat_profile@),
    {
        let ssos = &self.active_wombat_profile.sso_profiles;
        let mut envs: Vec<Env> = Vec::new();
        let mut i: usize = 0;
        while i < ssos.len()
            invariant
                i <= ssos.len(),
                envs@ == envs_of(self.active_wombat_profile@).take(i as int),
                ssos == &self.active_wombat_profile.sso_profiles,
            decreases ssos.len() - i,
        {
            envs.push(ssos[i].env);
            assert(envs@ =~= envs_of(self.active_wombat_profile@).take(i + 1));
            i = i + 1;
        }
        assert(envs@ =~= envs_of(self.active_wombat_profile@));
        envs
    }

    /// The SSO profile of the active profile for `env`; the application stops
    /// when the active profile does not serve `env`.
    pub fn sso_config(&self, env: &Env) -> (name: String)
        requires
            env_slot(self.active_wombat_profile@.sso_profiles, *env) >= 0,
        ensures
            name@ == self.active_wombat_profile@.sso_profiles[env_slot(
                self.active_wombat_profile@.sso_profiles,
                *env,
            )].profile_name,
    {
        let k = find_env_slot(&self.active_wombat_profile.sso_profiles, *env).unwrap();
        self.active_wombat_profile.sso_profiles[k].profile_name.clone()
    }

    /// The profile that assumes the infrastructure role of `app` in `env`,
    /// if the active profile has one.
    pub fn get_or_create_app_config(&self, app: &str, env: &Env) -> (name: Option<String>)
        ensures
            opt_view(name) == app_profile(self.active_wombat_profile@, app@, *env),
    {
        match find_env_slot(&self.active_wombat_profile.sso_profiles, *env) {
            None => None,
            Some(k) => {
                let ps = &self.active_wombat_profile.sso_profiles[k].infra_profiles;
                let ghost pv = infra_views(ps@);
                assert(pv == self.active_wombat_profile@.sso_profiles[k as int].infra_profiles);
                proof {
                    lemma_app_slot(pv, app@, *env);
                }
                let mut j: usize = 0;
                while j < ps.len()
                    invariant
                        j <= ps.len(),
                        pv == infra_views(ps@),
                        pv == self.active_wombat_profile@.sso_profiles[k as int].infra_profiles,
                        k as int == env_slot(self.active_wombat_profile@.sso_profiles, *env),
                        -1 <= app_slot(pv, app@, *env) < pv.len(),
                        app_slot(pv, app@, *env) >= 0 ==> pv[app_slot(pv, app@, *env)].env == *env
                            && pv[app_slot(pv, app@, *env)].app == app@,
                        forall|i: int| 0 <= i < pv.len() && (app_slot(pv, app@, *env) < 0 || i < app_slot(pv, app@, *env)) ==> !(pv[i].env == *env && pv[i].app == app@),
                        forall|i: int| 0 <= i < j ==> !(pv[i].env == *env && pv[i].app == app@),
                    decreases ps.len() - j,
                {
                    assert(pv[j as int] == ps@[j as int]@);
                    if ps[j].env == *env && same_text(ps[j].app.as_str(), app) {
                        assert(pv[j as int].env == *env && pv[j as int].app == app@);
                        assert(app_slot(pv, app@, *env) == j);
                        return Some(ps[j].profile_name.clone());
                    }
                    j = j + 1;
                }
                None
            },
        }
    }

    /// The profile of an infrastructure profile.
    pub fn for_infra(&self, infra_profile: &InfraProfile) -> (name: Option<String>)
        ensures
            name == Some(infra_profile.profile_name),
    {
        Some(infra_profile.profile_name.clone())
    }

    /// The profile for a service proxy: the infrastructure profile where one
    /// is given, else, the developer's way, the SSO profile where one is
    /// given, else none.
    pub fn with_dev_way_check(
        &self,
        infra_profile: &Option<InfraProfile>,
        sso_profile: &Option<SsoProfile>,
    ) -> (name: Option<String>)
        ensures
            name == (match infra_profile {
                Some(i) => Some(i.profile_name),
                None => if self.dev_way && sso_profile is Some {
                    Some(sso_profile->0.profile_name)
                } else {
                    None
                },
            }),
    {
        if let Some(infra_profile) = infra_profile {
            let infra_config = self.for_infra(infra_profile);
            if infra_config.is_some() {
                return infra_config;
            }
        }
        if self.dev_way {
            if let Some(sso_profile) = sso_profile {
                return Some(sso_profile.profile_name.clone());
            }
        }
        None
    }

    /// The profile for application `app` in `env`: its infrastructure
    /// profile, else, the developer's way, the SSO profile of `env`. The
    /// developer's way needs `env` among the configured environments.
    pub fn app_config(&self, app: &str, env: &Env) -> (name: Option<String>)
        requires
            self.dev_way ==> env_slot(self.active_wombat_profile@.sso_profiles, *env) >= 0,
        ensures
            opt_view(name) == (match app_profile(self.active_wombat_profile@, app@, *env) {
                Some(p) => Some(p),
                None => if self.dev_way {
                    Some(self.active_wombat_profile@.sso_profiles[env_slot(
                        self.active_wombat_profile@.sso_profiles,
                        *env,
                    )].profile_name)
                } else {
                    None
                },
            }),
    {
        let app_config = self.get_or_create_app_config(app, env);
        if self.dev_way {
            let user_config = self.sso_config(env);
            match app_config {
                Some(c) => Some(c),
                None => Some(user_config),
            }
        } else {
            app_config
        }
    }

    /// The profile for application `app` in `env`, falling back to the SSO
    /// profile of `env`, which must be configured.
    pub fn app_config_with_fallback(&self, app: &str, env: &Env) -> (name: Option<String>)
        requires
            env_slot(self.active_wombat_profile@.sso_profiles, *env) >= 0,
        ensures
            opt_view(name) == Some(match app_profile(self.active_wombat_profile@, app@, *env) {
                Some(p) => p,
                None => self.active_wombat_profile@.sso_profiles[env_slot(
                    self.active_wombat_profile@.sso_profiles,
                    *env,
                )].profile_name,
            }),
    {
        let app_config = self.app_config(app, env);
        let user_config = self.sso_config(env);
        match app_config {
            Some(c) => Some(c),
            None => Some(user_config),
        }
    }
}


/// No two SSO profiles of `ssos` share an environment.
pub open spec fn envs_unique(ssos: Seq<SsoProfileView>) -> bool {
    forall|i: int, j: int| 0 <= i < j < ssos.len() ==> ssos[i].env != ssos[j].env
}

/// Every infrastructure profile of an SSO profile serves the SSO profile's
/// environment.
pub open spec fn infra_match_env(ssos: Seq<SsoProfileView>) -> bool {
    forall|i: int, j: int|
        0 <= i < ssos.len() && 0 <= j < ssos[i].infra_profiles.len() ==> #[trigger] ssos[i].infra_profiles[j].env
            == ssos[i].env
}

proof fn lemma_infra_in_env(ps: Seq<InfraProfileView>, env: Env)
    ensures
        forall|j: int| 0 <= j < infra_in_env(ps, env).len() ==> #[trigger] infra_in_env(ps, env)[j].env == env,
    decreases ps.len(),
{
    if ps.len() > 0 {
        lemma_infra_in_env(ps.drop_last(), env);
    }
}

proof fn lemma_put_sso(ssos: Seq<SsoProfileView>, s: SsoProfileView)
    requires
        envs_unique(ssos),
        infra_match_env(ssos),
        forall|j: int| 0 <= j < s.infra_profiles.len() ==> #[trigger] s.infra_profiles[j].env == s.env,
    ensures
        envs_unique(put_sso(ssos, s)),
        infra_match_env(put_sso(ssos, s)),
        env_slot(put_sso(ssos, s), s.env) >= 0,
{
    lemma_env_slot(ssos, s.env);
    let r = put_sso(ssos, s);
    let k = env_slot(ssos, s.env);
    if k >= 0 {
        assert forall|i: int, j: int| 0 <= i < j < r.len() implies r[i].env != r[j].env by {
            if i != k && j != k {
                assert(r[i] == ssos[i] && r[j] == ssos[j]);
            }
        }
        assert forall|i: int, j: int| 0 <= i < r.len() && 0 <= j < r[i].infra_profiles.len() implies #[trigger] r[i].infra_profiles[j].env == r[i].env by {
            if i != k {
                assert(r[i] == ssos[i]);
            }
        }
        lemma_env_slot(r, s.env);
        if env_slot(r, s.env) < 0 {
            assert(r[k].env == s.env);
        }
    } else {
        assert forall|i: int, j: int| 0 <= i < r.len() && 0 <= j < r[i].infra_profiles.len() implies #[trigger] r[i].infra_profiles[j].env == r[i].env by {
            if i < ssos.len() {
                assert(r[i] == ssos[i]);
            }
        }
        lemma_env_slot(r, s.env);
        if env_slot(r, s.env) < 0 {
            assert(r[ssos.len() as int].env == s.env);
        }
    }
}

/// A Wombat profile is well formed: its SSO profiles serve distinct
/// environments, and each holds only infrastructure profiles of its own
/// environment.
pub open spec fn wombat_well_formed(w: WombatAwsProfileView) -> bool {
    envs_unique(w.sso_profiles) && infra_match_env(w.sso_profiles)
}

proof fn lemma_load_step(ws: Seq<WombatAwsProfileView>, infra: Seq<InfraProfileView>, e: ProfileEntryView)
    requires
        forall|i: int| 0 <= i < ws.len() ==> #[trigger] wombat_well_formed(ws[i]),
    ensures
        forall|i: int| 0 <= i < load_step(ws, infra, e).len() ==> #[trigger] wombat_well_formed(
            load_step(ws, infra, e)[i],
        ),
{
    if valid_sso_entry(e) {
        let sso = sso_base(e, infra);
        lemma_infra_in_env(sso.infra_profiles, Env::DEV);
        lemma_infra_in_env(sso.infra_profiles, Env::DEMO);
        lemma_infra_in_env(sso.infra_profiles, Env::PROD);
        match (
            regex_group(profile_env_pattern(), e.name, 1),
            regex_group(profile_env_pattern(), e.name, 2),
        ) {
            (Some(base), Some(env_text)) => {
                let s = sso_for_env(sso, env_from_name(env_text));
                lemma_infra_in_env(sso.infra_profiles, env_from_name(env_text));
                let k = base_slot(ws, base);
                lemma_base_slot(ws, base);
                if k >= 0 {
                    assert(wombat_well_formed(ws[k]));
                    lemma_put_sso(ws[k].sso_profiles, s);
                    let r = ws.update(k, extend_view(ws[k], s));
                    assert forall|i: int| 0 <= i < r.len() implies #[trigger] wombat_well_formed(r[i]) by {
                        if i != k {
                            assert(r[i] == ws[i]);
                        }
                    }
                } else {
                    let r = ws.push(new_wombat(base, seq![s], s.support_level));
                    assert forall|i: int| 0 <= i < r.len() implies #[trigger] wombat_well_formed(r[i]) by {
                        if i < ws.len() {
                            assert(r[i] == ws[i]);
                        }
                    }
                }
            },
            _ => {
                let w = new_wombat(
                    e.name,
                    seq![
                        sso_for_env(sso, Env::DEV),
                        sso_for_env(sso, Env::DEMO),
                        sso_for_env(sso, Env::PROD),
                    ],
                    sso.support_level,
                );
                assert(wombat_well_formed(w));
                let k = base_slot(ws, e.name);
                lemma_base_slot(ws, e.name);
                let r = if k >= 0 {
                    ws.update(k, w)
                } else {
                    ws.push(w)
                };
                assert(load_step(ws, infra, e) == r);
                assert forall|i: int| 0 <= i < r.len() implies #[trigger] wombat_well_formed(r[i]) by {
                    if (k >= 0 && i != k) || (k < 0 && i < ws.len()) {
                        assert(r[i] == ws[i]);
                    }
                }
            },
        }
    }
}

proof fn lemma_wombats_after(es: Seq<ProfileEntryView>, infra: Seq<InfraProfileView>)
    ensures
        forall|i: int| 0 <= i < wombats_after(es, infra).len() ==> #[trigger] wombat_well_formed(
            wombats_after(es, infra)[i],
        ),
    decreases es.len(),
{
    if es.len() > 0 {
        lemma_wombats_after(es.drop_last(), infra);
        lemma_load_step(wombats_after(es.drop_last(), infra), infra, es.last());
    }
}

proof fn lemma_with_sso(ws: Seq<WombatAwsProfileView>)
    requires
        forall|i: int| 0 <= i < ws.len() ==> #[trigger] wombat_well_formed(ws[i]),
    ensures
        forall|i: int| 0 <= i < with_sso(ws).len() ==> #[trigger] wombat_well_formed(with_sso(ws)[i]),
        forall|i: int| 0 <= i < with_sso(ws).len() ==> #[trigger] with_sso(ws)[i].sso_profiles.len() > 0,
    decreases ws.len(),
{
    if ws.len() > 0 {
        assert forall|i: int| 0 <= i < ws.drop_last().len() implies #[trigger] wombat_well_formed(ws.drop_last()[i]) by {
            assert(ws.drop_last()[i] == ws[i]);
        }
        lemma_with_sso(ws.drop_last());
        assert(wombat_well_formed(ws[ws.len() - 1]));
    }
}

/// Every Wombat profile of a configuration holds at least one SSO profile,
/// at most one per environment, and each SSO profile holds only
/// infrastructure profiles of its own environment.
pub proof fn law_profiles_well_formed(es: Seq<ProfileEntryView>)
    ensures
        forall|i: int| 0 <= i < wombat_profiles_of(es).len() ==> #[trigger] wombat_well_formed(
            wombat_profiles_of(es)[i],
        ),
        forall|i: int| 0 <= i < wombat_profiles_of(es).len() ==> #[trigger] wombat_profiles_of(es)[i].sso_profiles.len() > 0,
{
    lemma_wombats_after(es, infra_profiles_of(es));
    lemma_with_sso(wombats_after(es, infra_profiles_of(es)));
}

/// Adding an SSO profile keeps a Wombat profile well formed, and the
/// profile then serves the added profile's environment.
pub proof fn law_extend_keeps_well_formed(w: WombatAwsProfileView, s: SsoProfileView)
    requires
        wombat_well_formed(w),
        forall|j: int| 0 <= j < s.infra_profiles.len() ==> #[trigger] s.infra_profiles[j].env == s.env,
    ensures
        wombat_well_formed(extend_view(w, s)),
        env_slot(extend_view(w, s).sso_profiles, s.env) >= 0,
{
    lemma_put_sso(w.sso_profiles, s);
}


/// The position of the first entry named `name`, or -1.
pub open spec fn entry_slot(es: Seq<ProfileEntryView>, name: Seq<char>) -> int
    decreases es.len(),
{
    if es.len() == 0 {
        -1
    } else {
        let k = entry_slot(es.drop_last(), name);
        if k >= 0 {
            k
        } else if es.last().name == name {
            es.len() - 1
        } else {
            -1
        }
    }
}

proof fn lemma_entry_slot(es: Seq<ProfileEntryView>, name: Seq<char>)
    ensures
        -1 <= entry_slot(es, name) < es.len(),
        entry_slot(es, name) >= 0 ==> es[entry_slot(es, name)].name == name,
        forall|i: int| 0 <= i < es.len() && (entry_slot(es, name) < 0 || i < entry_slot(es, name)) ==> es[i].name != name,
    decreases es.len(),
{
    if es.len() > 0 {
        lemma_entry_slot(es.drop_last(), name);
        let k = entry_slot(es.drop_last(), name);
        if k >= 0 {
            assert(es[k] == es.drop_last()[k]);
        }
        assert forall|i: int| 0 <= i < es.len() && (entry_slot(es, name) < 0 || i < entry_slot(es, name)) implies es[i].name != name by {
            if i < es.len() - 1 {
                assert(es[i] == es.drop_last()[i]);
            }
        }
    }
}

/// The infrastructure profiles of all SSO profiles, in order.
pub open spec fn all_infra(ssos: Seq<SsoProfileView>) -> Seq<InfraProfileView>
    decreases ssos.len(),
{
    if ssos.len() == 0 {
        Seq::<InfraProfileView>::empty()
    } else {
        all_infra(ssos.drop_last()) + ssos.last().infra_profiles
    }
}

impl AwsConfigProvider {
    /// The region that the profile named `profile` sets in the
    /// configuration files, if any.
    pub fn region_from_profile(&self, profile: &str) -> (region: Option<String>)
        ensures
            ({
                let es = entry_views(self.profile_set@);
                let k = entry_slot(es, profile@);
                opt_view(region) == if k >= 0 {
                    es[k].region
                } else {
                    None
                }
            }),
    {
        let ghost es = entry_views(self.profile_set@);
        proof {
            lemma_entry_slot(es, profile@);
        }
        let mut i: usize = 0;
        while i < self.profile_set.len()
            invariant
                i <= self.profile_set.len(),
                es == entry_views(self.profile_set@),
                -1 <= entry_slot(es, profile@) < es.len(),
                entry_slot(es, profile@) >= 0 ==> es[entry_slot(es, profile@)].name == profile@,
                forall|j: int| 0 <= j < es.len() && (entry_slot(es, profile@) < 0 || j < entry_slot(es, profile@)) ==> es[j].name != profile@,
                forall|j: int| 0 <= j < i ==> es[j].name != profile@,
            decreases self.profile_set.len() - i,
        {
            assert(es[i as int] == self.profile_set@[i as int]@);
            if same_text(self.profile_set[i].name.as_str(), profile) {
                assert(entry_slot(es, profile@) == i);
                return copy_opt(&self.profile_set[i].region);
            }
            i = i + 1;
        }
        None
    }

    /// Copies of the infrastructure profiles of the active profile.
    pub fn available_infra_profiles(&self) -> (r: Vec<InfraProfile>)
        ensures
            infra_views(r@) == all_infra(self.active_wombat_profile@.sso_profiles),
    {
        let ssos = &self.active_wombat_profile.sso_profiles;
        let ghost sv = sso_views(ssos@);
        let mut r: Vec<InfraProfile> = Vec::new();
        let mut i: usize = 0;
        while i < ssos.len()
            invariant
                i <= ssos.len(),
                sv == sso_views(ssos@),
                sv == self.active_wombat_profile@.sso_profiles,
                infra_views(r@) == all_infra(sv.take(i as int)),
            decreases ssos.len() - i,
        {
            assert(sv.take(i + 1).drop_last() =~= sv.take(i as int));
            let ps = &ssos[i];
            let ghost base = infra_views(r@);
            let mut j: usize = 0;
            while j < ps.infra_profiles.len()
                invariant
                    j <= ps.infra_profiles.len(),
                    infra_views(r@) == base + infra_views(ps.infra_profiles@).take(j as int),
                decreases ps.infra_profiles.len() - j,
            {
                let ghost prev = infra_views(r@);
                r.push(ps.infra_profiles[j].duplicate());
                assert(infra_views(r@) =~= prev.push(ps.infra_profiles@[j as int]@));
                assert(infra_views(ps.infra_profiles@).take(j + 1) =~= infra_views(
                    ps.infra_profiles@,
                ).take(j as int).push(ps.infra_profiles@[j as int]@));
                j = j + 1;
            }
            assert(infra_views(ps.infra_profiles@).take(j as int) =~= infra_views(ps.infra_profiles@));
            assert(sv.take(i + 1).last() == ps@);
            i = i + 1;
        }
        assert(sv.take(ssos.len() as int) =~= sv);
        r
    }

    /// Copies of the SSO profiles of the active profile.
    pub fn available_sso_profiles(&self) -> (r: Vec<SsoProfile>)
        ensures
            sso_views(r@) == self.active_wombat_profile@.sso_profiles,
    {
        self.active_wombat_profile.duplicate().sso_profiles
    }

    /// The applications that the active profile has infrastructure profiles
    /// for, each once.
    pub fn tracked_apps(&self) -> (apps: Vec<String>)
        ensures
            no_dups(strs_of(apps@)),
            strs_of(apps@).to_set() == all_infra(self.active_wombat_profile@.sso_profiles).map_values(
                |p: InfraProfileView| p.app,
            ).to_set(),
    {
        let infra = self.available_infra_profiles();
        let ghost iv = infra_views(infra@);
        let mut apps: Vec<String> = Vec::new();
        let mut i: usize = 0;
        assert(strs_of(apps@).to_set() =~= iv.take(0).map_values(|p: InfraProfileView| p.app).to_set());
        while i < infra.len()
            invariant
                i <= infra.len(),
                iv == infra_views(infra@),
                no_dups(strs_of(apps@)),
                strs_of(apps@).to_set() == iv.take(i as int).map_values(|p: InfraProfileView| p.app).to_set(),
            decreases infra.len() - i,
        {
            let ghost before = iv.take(i as int).map_values(|p: InfraProfileView| p.app);
            assert(iv.take(i + 1).map_values(|p: InfraProfileView| p.app) =~= before.push(
                infra@[i as int].app@,
            ));
            proof {
                before.lemma_push_to_set_commute(infra@[i as int].app@);
            }
            insert_unique(&mut apps, infra[i].app.clone());
            i = i + 1;
        }
        assert(iv.take(infra.len() as int) =~= iv);
        apps
    }
}

} // verus!
