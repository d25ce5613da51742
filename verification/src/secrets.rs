//! Where the credentials of a database are looked for, and what a lookup
//! makes of the answers of Secrets Manager and of the SSM parameter store.
//! The calls themselves are made by the application; the lookup decides,
//! answer by answer, what to ask next and when it is done.
use vstd::prelude::*;
use crate::resources::normalized;
use crate::shared::{env_name, CommandError, Env};
use crate::text::{append_str, chars_of, contains, has_infix, push_all, replace_chars, string_from, strs_of};

verus! {

broadcast use vstd::string::group_string_axioms;

/// The credentials record that Secrets Manager holds for a database.
#[allow(non_snake_case)]
pub struct DbSecretDTO {
    pub dbInstanceIdentifier: String,
    pub dbname: String,
    pub engine: String,
    pub host: String,
    pub password: String,
    pub port: u16,
    pub username: String,
}

/// Credentials of a database; `auto_rotated` where they came from Secrets
/// Manager, whose secrets are rotated.
#[derive(Debug)]
pub struct DbSecret {
    pub dbname: String,
    pub password: String,
    pub username: String,
    pub auto_rotated: bool,
}

/// The three secret names kept for `base` in `env` in Secrets Manager.
pub open spec fn managed_names_for(base: Seq<char>, env: Env) -> Seq<Seq<char>> {
    let stem = base + "-"@ + env_name(env);
    seq![stem + "/db-credentials"@, stem + "/spring-datasource-password"@, stem + "/datasource-password"@]
}

/// The three parameter names kept for `base` in `env` in the parameter store.
pub open spec fn parameter_names_for(base: Seq<char>, env: Env) -> Seq<Seq<char>> {
    let stem = "/config/"@ + base + "_"@ + env_name(env);
    seq![stem + "/db-credentials"@, stem + "/spring-datasource-password"@, stem + "/datasource-password"@]
}

/// The Secrets Manager names tried for database `name`, in order: for a
/// migrated database first those of its name without `-migrated`.
pub open spec fn managed_candidates(name: Seq<char>, env: Env) -> Seq<Seq<char>> {
    if has_infix(name, "-migrated"@) {
        managed_names_for(normalized(name), env) + managed_names_for(name, env)
    } else {
        managed_names_for(name, env)
    }
}

/// The parameter names tried for database `name`, in order, as for
/// `managed_candidates`.
pub open spec fn parameter_candidates(name: Seq<char>, env: Env) -> Seq<Seq<char>> {
    if has_infix(name, "-migrated"@) {
        parameter_names_for(normalized(name), env) + parameter_names_for(name, env)
    } else {
        parameter_names_for(name, env)
    }
}

/// A database has three to six names of each kind.
pub proof fn lemma_candidate_counts(name: Seq<char>, env: Env)
    ensures
        3 <= managed_candidates(name, env).len() <= 6,
        3 <= parameter_candidates(name, env).len() <= 6,
{
}

/// `stem` followed by each of the three credential suffixes.
fn with_suffixes(stem: &Vec<char>, out: &mut Vec<String>)
    ensures
        strs_of(final(out)@) == strs_of(old(out)@) + seq![
            stem@ + "/db-credentials"@,
            stem@ + "/spring-datasource-password"@,
            stem@ + "/datasource-password"@,
        ],
{
    let ghost start = strs_of(out@);
    let mut a = stem.clone();
    append_str(&mut a, "/db-credentials");
    out.push(string_from(&a));
    let mut b = stem.clone();
    append_str(&mut b, "/spring-datasource-password");
    out.push(string_from(&b));
    let mut c = stem.clone();
    append_str(&mut c, "/datasource-password");
    out.push(string_from(&c));
    assert(strs_of(out@) =~= start + seq![
        stem@ + "/db-credentials"@,
        stem@ + "/spring-datasource-password"@,
        stem@ + "/datasource-password"@,
    ]);
}

/// The text of `name` without its `-migrated` marks, and whether it had any.
fn migrated_base(name: &str) -> (r: (Vec<char>, bool))
    ensures
        r.0@ == normalized(name@),
        r.1 == has_infix(name@, "-migrated"@),
{
    let chars = chars_of(name);
    let marker = chars_of("-migrated");
    proof {
        reveal_strlit("-migrated");
    }
    let empty: Vec<char> = Vec::new();
    (replace_chars(&chars, &marker, &empty), contains(&chars, &marker))
}

/// The Secrets Manager names under which the credentials of database `name`
/// in `env` are looked for, in the order they are tried.
pub fn managed_secret_names(name: &str, env: Env) -> (r: Vec<String>)
    ensures
        strs_of(r@) == managed_candidates(name@, env),
{
    let (base, migrated) = migrated_base(name);
    let env_text = env.name();
    let mut r: Vec<String> = Vec::new();
    if migrated {
        let mut stem = base.clone();
        append_str(&mut stem, "-");
        append_str(&mut stem, env_text.as_str());
        with_suffixes(&stem, &mut r);
    }
    let mut stem = chars_of(name);
    append_str(&mut stem, "-");
    append_str(&mut stem, env_text.as_str());
    with_suffixes(&stem, &mut r);
    assert(strs_of(r@) =~= managed_candidates(name@, env));
    r
}

/// The parameter names under which the credentials of database `name` in
/// `env` are looked for, in the order they are tried.
pub fn parameter_secret_names(name: &str, env: Env) -> (r: Vec<String>)
    ensures
        strs_of(r@) == parameter_candidates(name@, env),
{
    let (base, migrated) = migrated_base(name);
    let env_text = env.name();
    let mut r: Vec<String> = Vec::new();
    if migrated {
        let mut stem = chars_of("/config/");
        push_all(&mut stem, &base);
        append_str(&mut stem, "_");
        append_str(&mut stem, env_text.as_str());
        with_suffixes(&stem, &mut r);
    }
    let mut stem = chars_of("/config/");
    append_str(&mut stem, name);
    append_str(&mut stem, "_");
    append_str(&mut stem, env_text.as_str());
    with_suffixes(&stem, &mut r);
    assert(strs_of(r@) =~= parameter_candidates(name@, env));
    r
}

/// Where a lookup stands: waiting for the listing of the `i`-th Secrets
/// Manager name, for the value of the secret found under it, for the `j`-th
/// parameter, or done.
#[derive(Clone, Copy, Debug, PartialEq, Eq, Structural)]
pub enum LookupStage {
    Listing(usize),
    Reading(usize),
    Parameters(usize),
    Done,
}

/// What the application is to do next for a lookup.
#[derive(Debug)]
pub enum LookupAction {
    /// List the secrets with this name.
    ListSecrets(String),
    /// Read the value of the secret with this ARN.
    ReadSecret(String),
    /// Read the (decrypted) parameter with this name.
    ReadParameter(String),
    /// The lookup is over, with this answer.
    Finish(Result<DbSecret, CommandError>),
}

/// An answer the application hands back to a lookup.
pub enum LookupEvent {
    /// The ARNs of the secrets listed under the name, or the error.
    Listed(Result<Vec<Option<String>>, String>),
    /// The credentials record read from the secret, or the error.
    SecretRead(Result<DbSecretDTO, String>),
    /// The value of the parameter, where it exists and could be read.
    ParameterRead(Option<String>),
}

/// The search for the credentials of one database.
pub struct SecretLookup {
    pub name: String,
    pub env: Env,
    pub managed: Vec<String>,
    pub parameters: Vec<String>,
    pub stage: LookupStage,
}

/// The event is an answer to what the lookup waits for, and a listing that
/// found exactly one secret carries its ARN.
pub open spec fn event_fits(stage: LookupStage, event: LookupEvent) -> bool {
    match stage {
        LookupStage::Listing(_) => match event {
            LookupEvent::Listed(Ok(arns)) => arns.len() == 1 ==> arns@[0] is Some,
            LookupEvent::Listed(Err(_)) => true,
            _ => false,
        },
        LookupStage::Reading(_) => event is SecretRead,
        LookupStage::Parameters(_) => event is ParameterRead,
        LookupStage::Done => false,
    }
}

/// An action that ends the lookup with the error `message`.
pub open spec fn fails_with(a: LookupAction, message: Seq<char>) -> bool {
    a matches LookupAction::Finish(Err(e)) && e.command@ == "db_secret"@ && e.message@ == message
}

impl SecretLookup {
    /// The lists of names are those of the database, and the stage points
    /// into them.
    pub open spec fn wf(&self) -> bool {
        &&& strs_of(self.managed@) == managed_candidates(self.name@, self.env)
        &&& strs_of(self.parameters@) == parameter_candidates(self.name@, self.env)
        &&& 3 <= self.managed.len() <= 6
        &&& 3 <= self.parameters.len() <= 6
        &&& match self.stage {
            LookupStage::Listing(i) => i < self.managed.len(),
            LookupStage::Reading(i) => i < self.managed.len(),
            LookupStage::Parameters(j) => j < self.parameters.len(),
            LookupStage::Done => true,
        }
    }

    /// The lookup went on to candidate `k` of all candidates (the Secrets
    /// Manager names, then the parameter names) and asks for it.
    pub open spec fn asks_candidate(&self, k: int, a: LookupAction) -> bool {
        if k < self.managed.len() {
            self.stage == LookupStage::Listing(k as usize)
                && (a matches LookupAction::ListSecrets(n) && n@ == self.managed@[k]@)
        } else if k - self.managed.len() < self.parameters.len() {
            self.stage == LookupStage::Parameters((k - self.managed.len()) as usize)
                && (a matches LookupAction::ReadParameter(n)
                && n@ == self.parameters@[k - self.managed.len()]@)
        } else {
            self.stage == LookupStage::Done && fails_with(a, "No secret found"@)
        }
    }

    /// Starts the lookup of the credentials of database `name` in `env`: it
    /// first lists the secrets under the first Secrets Manager name.
    pub fn start(name: &str, env: Env) -> (r: (SecretLookup, LookupAction))
        ensures
            r.0.wf(),
            r.0.name@ == name@,
            r.0.env == env,
            r.0.asks_candidate(0, r.1),
    {
        let managed = managed_secret_names(name, env);
        let parameters = parameter_secret_names(name, env);
        proof {
            lemma_candidate_counts(name@, env);
            assert(strs_of(managed@).len() == managed.len());
            assert(strs_of(parameters@).len() == parameters.len());
        }
        let first = managed[0].clone();
        (
            SecretLookup {
                name: name.to_string(),
                env,
                managed,
                parameters,
                stage: LookupStage::Listing(0),
            },
            LookupAction::ListSecrets(first),
        )
    }

    fn ask(&mut self, k: usize) -> (a: LookupAction)
        requires
            old(self).wf(),
            k <= old(self).managed.len() + old(self).parameters.len(),
        ensures
            final(self).wf(),
            final(self).name == old(self).name,
            final(self).env == old(self).env,
            final(self).managed == old(self).managed,
            final(self).parameters == old(self).parameters,
            final(self).asks_candidate(k as int, a),
    {
        if k < self.managed.len() {
            self.stage = LookupStage::Listing(k);
            LookupAction::ListSecrets(self.managed[k].clone())
        } else if k - self.managed.len() < self.parameters.len() {
            let j = k - self.managed.len();
            self.stage = LookupStage::Parameters(j);
            LookupAction::ReadParameter(self.parameters[j].clone())
        } else {
            self.stage = LookupStage::Done;
            LookupAction::Finish(Err(CommandError::new("db_secret", "No secret found".to_string())))
        }
    }

    /// Takes the answer to what the lookup asked and says what comes next.
    /// A failed listing ends it (`Auth error?`); a listing with exactly one
    /// secret leads to reading that secret, any other to the next name; a
    /// failed read ends it (`Access denied`); a read record ends it with its
    /// credentials. The parameters come after all Secrets Manager names; the
    /// first that exists gives the database's name as database and user,
    /// and when none does the lookup ends with `No secret found`.
    pub fn step(&mut self, event: LookupEvent) -> (a: LookupAction)
        requires
            old(self).wf(),
            event_fits(old(self).stage, event),
        ensures
            final(self).wf(),
            final(self).name == old(self).name,
            final(self).env == old(self).env,
            final(self).managed == old(self).managed,
            final(self).parameters == old(self).parameters,
            old(self).stage matches LookupStage::Listing(i) ==> match event {
                LookupEvent::Listed(Err(_)) => final(self).stage == LookupStage::Done
                    && fails_with(a, "Auth error?"@),
                LookupEvent::Listed(Ok(arns)) => if arns.len() == 1 {
                    final(self).stage == LookupStage::Reading(i)
                        && (a matches LookupAction::ReadSecret(arn) && arn@ == arns@[0].unwrap()@)
                } else {
                    final(self).asks_candidate(i + 1, a)
                },
                _ => true,
            },
            old(self).stage matches LookupStage::Reading(_) ==> final(self).stage == LookupStage::Done
                && match event {
                LookupEvent::SecretRead(Err(_)) => fails_with(a, "Access denied"@),
                LookupEvent::SecretRead(Ok(dto)) => a matches LookupAction::Finish(Ok(s))
                    && s.dbname == dto.dbname && s.password == dto.password
                    && s.username == dto.username && s.auto_rotated,
                _ => true,
            },
            old(self).stage matches LookupStage::Parameters(j) ==> match event {
                LookupEvent::ParameterRead(Some(v)) => final(self).stage == LookupStage::Done
                    && (a matches LookupAction::Finish(Ok(s)) && s.dbname@ == old(self).name@
                    && s.username@ == old(self).name@ && s.password == v && !s.auto_rotated),
                LookupEvent::ParameterRead(None) => final(self).asks_candidate(
                    old(self).managed.len() + j + 1,
                    a,
                ),
                _ => true,
            },
    {
        match self.stage {
            LookupStage::Listing(i) => match event {
                LookupEvent::Listed(Err(_)) => {
                    self.stage = LookupStage::Done;
                    LookupAction::Finish(Err(CommandError::new("db_secret", "Auth error?".to_string())))
                },
                LookupEvent::Listed(Ok(arns)) => {
                    if arns.len() == 1 {
                        let arn = match &arns[0] {
                            Some(a) => a.clone(),
                            None => String::new(),
                        };
                        self.stage = LookupStage::Reading(i);
                        LookupAction::ReadSecret(arn)
                    } else {
                        self.ask(i + 1)
                    }
                },
                _ => LookupAction::Finish(Err(CommandError::new("db_secret", String::new()))),
            },
            LookupStage::Reading(_) => {
                self.stage = LookupStage::Done;
                match event {
                    LookupEvent::SecretRead(Err(_)) => LookupAction::Finish(
                        Err(CommandError::new("db_secret", "Access denied".to_string())),
                    ),
                    LookupEvent::SecretRead(Ok(dto)) => LookupAction::Finish(
                        Ok(
                            DbSecret {
                                dbname: dto.dbname,
                                password: dto.password,
                                username: dto.username,
                                auto_rotated: true,
                            },
                        ),
                    ),
                    _ => LookupAction::Finish(Err(CommandError::new("db_secret", String::new()))),
                }
            },
            LookupStage::Parameters(j) => match event {
                LookupEvent::ParameterRead(Some(v)) => {
                    self.stage = LookupStage::Done;
                    LookupAction::Finish(
                        Ok(
                            DbSecret {
                                dbname: self.name.clone(),
                                password: v,
                                username: self.name.clone(),
                                auto_rotated: false,
                            },
                        ),
                    )
                },
                LookupEvent::ParameterRead(None) => self.ask(self.managed.len() + j + 1),
                _ => LookupAction::Finish(Err(CommandError::new("db_secret", String::new()))),
            },
            LookupStage::Done => LookupAction::Finish(Err(CommandError::new("db_secret", String::new()))),
        }
    }
}

/// What a read of a single secret parameter gives: its value, or the error
/// `Secret not found` where the parameter does not exist or could not be
/// read.
pub fn secret_from_parameter(value: Option<String>) -> (r: Result<String, CommandError>)
    ensures
        value matches Some(v) ==> r == Ok::<String, CommandError>(v),
        value is None ==> (r matches Err(e) && e.command@ == "secret"@ && e.message@
            == "Secret not found"@),
{
    match value {
        Some(v) => Ok(v),
        None => Err(CommandError::new("secret", "Secret not found".to_string())),
    }
}

} // verus!
