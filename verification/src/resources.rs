//! AWS resources as the application sees them: bastion hosts, ECS clusters
//! and services, and RDS instances, built from what the AWS APIs report.
use vstd::prelude::*;
use crate::external::{regex_capture, regex_group};
use crate::shared::{ecs_name, env_from_name, env_from_text, same_text, Env};
use crate::text::{
    append_str, chars_of, last_piece, replace_all, replace_chars, seqs_of,
    opt_view, sorts_stably, split_char, stable_order, string_from, is_permutation,
};

verus! {

broadcast use vstd::string::group_string_axioms;

/// A key/value tag as AWS reports it; either part may be missing.
pub struct Tag {
    pub key: Option<String>,
    pub value: Option<String>,
}

/// The key of a tag, `unknown` where it has none.
pub open spec fn key_or_unknown(t: Tag) -> Seq<char> {
    match t.key {
        Some(k) => k@,
        None => "unknown"@,
    }
}

/// The value of a tag, empty where it has none.
pub open spec fn value_or_empty(t: Tag) -> Seq<char> {
    match t.value {
        Some(v) => v@,
        None => Seq::<char>::empty(),
    }
}

/// The value of the first tag keyed `Environment`, empty where none is.
pub open spec fn first_environment_tag(tags: Seq<Tag>) -> Seq<char>
    decreases tags.len(),
{
    if tags.len() == 0 {
        Seq::<char>::empty()
    } else if key_or_unknown(tags[0]) == "Environment"@ {
        value_or_empty(tags[0])
    } else {
        first_environment_tag(tags.skip(1))
    }
}

/// An EC2 instance as `describe_instances` reports it.
pub struct Ec2Instance {
    pub instance_id: Option<String>,
    pub tags: Vec<Tag>,
}

/// A bastion host through which the proxies reach a private network.
#[derive(Debug)]
pub struct Bastion {
    pub instance_id: String,
    pub env: Env,
}

/// The value of the first `Environment` tag of `tags`.
fn environment_tag_of(tags: &Vec<Tag>) -> (r: Vec<char>)
    ensures
        r@ == first_environment_tag(tags@),
{
    let mut i: usize = 0;
    assert(tags@.skip(0) =~= tags@);
    while i < tags.len()
        invariant
            i <= tags.len(),
            first_environment_tag(tags@) == first_environment_tag(tags@.skip(i as int)),
        decreases tags.len() - i,
    {
        let t = &tags[i];
        let is_env = match &t.key {
            Some(k) => same_text(k.as_str(), "Environment"),
            None => same_text("unknown", "Environment"),
        };
        assert(tags@.skip(i as int)[0] == tags@[i as int]);
        if is_env {
            return match &t.value {
                Some(v) => chars_of(v.as_str()),
                None => Vec::new(),
            };
        }
        assert(tags@.skip(i as int).skip(1) =~= tags@.skip(i + 1));
        i = i + 1;
    }
    Vec::new()
}

/// The bastion an instance stands for: its id, and the environment named
/// by its first `Environment` tag.
pub fn bastion_from_instance(instance: &Ec2Instance) -> (b: Bastion)
    requires
        instance.instance_id is Some,
    ensures
        b.instance_id@ == instance.instance_id.unwrap()@,
        b.env == env_from_name(first_environment_tag(instance.tags@)),
{
    let env_text = environment_tag_of(&instance.tags);
    let env_str = string_from(&env_text);
    let id = match &instance.instance_id {
        Some(id) => id.clone(),
        None => String::new(),
    };
    Bastion { instance_id: id, env: Env::from_exact(env_str.as_str()) }
}

/// The bastions among the instances that the bastion filter found, in order.
pub fn bastions(instances: &Vec<Ec2Instance>) -> (r: Vec<Bastion>)
    requires
        forall|i: int| 0 <= i < instances.len() ==> (#[trigger] instances@[i]).instance_id is Some,
    ensures
        r.len() == instances.len(),
        forall|i: int|
            0 <= i < r.len() ==> (#[trigger] r@[i]).instance_id@ == instances@[i].instance_id.unwrap()@
                && r@[i].env == env_from_name(first_environment_tag(instances@[i].tags@)),
{
    let mut r: Vec<Bastion> = Vec::new();
    let mut i: usize = 0;
    while i < instances.len()
        invariant
            i <= instances.len(),
            r.len() == i,
            forall|j: int| 0 <= j < instances.len() ==> (#[trigger] instances@[j]).instance_id is Some,
            forall|j: int|
                0 <= j < i ==> (#[trigger] r@[j]).instance_id@ == instances@[j].instance_id.unwrap()@
                    && r@[j].env == env_from_name(first_environment_tag(instances@[j].tags@)),
        decreases instances.len() - i,
    {
        let b = bastion_from_instance(&instances[i]);
        r.push(b);
        i = i + 1;
    }
    r
}

/// The instance id of the first bastion in `env`, if there is one.
pub fn bastion_instance_for(bastions: &Vec<Bastion>, env: Env) -> (r: Option<String>)
    ensures
        r is None <==> forall|i: int| 0 <= i < bastions.len() ==> (#[trigger] bastions@[i]).env != env,
        r is Some ==> exists|i: int|
            0 <= i < bastions.len() && (#[trigger] bastions@[i]).env == env
                && r.unwrap()@ == bastions@[i].instance_id@
                && forall|j: int| 0 <= j < i ==> (#[trigger] bastions@[j]).env != env,
{
    let mut i: usize = 0;
    while i < bastions.len()
        invariant
            i <= bastions.len(),
            forall|j: int| 0 <= j < i ==> (#[trigger] bastions@[j]).env != env,
        decreases bastions.len() - i,
    {
        if bastions[i].env == env {
            return Some(bastions[i].instance_id.clone());
        }
        i = i + 1;
    }
    None
}

/// An ECS cluster.
#[derive(Debug)]
pub struct Cluster {
    pub name: String,
    pub arn: String,
    pub env: Env,
}

/// The clusters that `list_clusters` named, in order: each named after the
/// last `/` piece of its ARN, in the environment its ARN mentions.
pub fn clusters_from_arns(arns: &Vec<String>) -> (r: Vec<Cluster>)
    ensures
        r.len() == arns.len(),
        forall|i: int|
            0 <= i < r.len() ==> (#[trigger] r@[i]).arn@ == arns@[i]@ && r@[i].name@ == ecs_name(
                arns@[i]@,
            ) && r@[i].env == env_from_text(arns@[i]@),
{
    let mut r: Vec<Cluster> = Vec::new();
    let mut i: usize = 0;
    while i < arns.len()
        invariant
            i <= arns.len(),
            r.len() == i,
            forall|j: int|
                0 <= j < i ==> (#[trigger] r@[j]).arn@ == arns@[j]@ && r@[j].name@ == ecs_name(
                    arns@[j]@,
                ) && r@[j].env == env_from_text(arns@[j]@),
        decreases arns.len() - i,
    {
        let arn = &arns[i];
        let name = string_from(&last_piece(arn.as_str(), '/'));
        r.push(Cluster { name, arn: arn.clone(), env: Env::from_any(arn.as_str()) });
        i = i + 1;
    }
    r
}

/// An ECS service of a cluster.
#[derive(Debug)]
pub struct EcsService {
    pub arn: String,
    pub name: String,
    pub cluster_arn: String,
    pub env: Env,
}

impl EcsService {
    /// A copy of the service.
    pub fn duplicate(&self) -> (r: EcsService)
        ensures
            r == *self,
    {
        EcsService {
            arn: self.arn.clone(),
            name: self.name.clone(),
            cluster_arn: self.cluster_arn.clone(),
            env: self.env,
        }
    }
}

/// The names (last `/` pieces) of service ARNs.
pub open spec fn service_names(arns: Seq<String>) -> Seq<Seq<char>> {
    Seq::new(arns.len(), |i: int| ecs_name(arns[i]@))
}

/// The services of `cluster` that `list_services` named, sorted by name
/// (stably): each carries the cluster's ARN and environment.
pub fn services_from_arns(arns: &Vec<String>, cluster: &Cluster) -> (r: Vec<EcsService>)
    ensures
        r.len() == arns.len(),
        exists|order: Seq<usize>|
            is_permutation(order, arns.len() as int) && sorts_stably(service_names(arns@), order)
                && forall|j: int|
                0 <= j < r.len() ==> (#[trigger] r@[j]).arn@ == arns@[order[j] as int]@
                    && r@[j].name@ == ecs_name(arns@[order[j] as int]@)
                    && r@[j].cluster_arn@ == cluster.arn@ && r@[j].env == cluster.env,
{
    let mut names: Vec<Vec<char>> = Vec::new();
    let mut i: usize = 0;
    while i < arns.len()
        invariant
            i <= arns.len(),
            names.len() == i,
            forall|j: int| 0 <= j < i ==> (#[trigger] names@[j])@ == ecs_name(arns@[j]@),
        decreases arns.len() - i,
    {
        names.push(last_piece(arns[i].as_str(), '/'));
        i = i + 1;
    }
    assert(seqs_of(names@) =~= service_names(arns@));
    let order = stable_order(&names);
    let mut r: Vec<EcsService> = Vec::new();
    let mut k: usize = 0;
    while k < order.len()
        invariant
            k <= order.len(),
            order.len() == arns.len(),
            names.len() == arns.len(),
            r.len() == k,
            forall|q: int| 0 <= q < order.len() ==> #[trigger] order@[q] < arns.len(),
            forall|j: int| 0 <= j < arns.len() ==> (#[trigger] names@[j])@ == ecs_name(arns@[j]@),
            forall|j: int|
                0 <= j < k ==> (#[trigger] r@[j]).arn@ == arns@[order@[j] as int]@
                    && r@[j].name@ == ecs_name(arns@[order@[j] as int]@)
                    && r@[j].cluster_arn@ == cluster.arn@ && r@[j].env == cluster.env,
        decreases order.len() - k,
    {
        let at = order[k];
        r.push(
            EcsService {
                arn: arns[at].clone(),
                name: string_from(&names[at]),
                cluster_arn: cluster.arn.clone(),
                env: cluster.env,
            },
        );
        k = k + 1;
    }
    r
}

/// A database endpoint.
#[derive(Debug)]
pub struct Endpoint {
    pub address: String,
    pub port: u16,
}

/// The endpoint of a database instance as RDS reports it.
pub struct ReportedEndpoint {
    pub address: Option<String>,
    pub port: Option<i32>,
}

/// A database instance as `describe_db_instances` reports it.
pub struct DbInstanceData {
    pub arn: Option<String>,
    pub has_db_name: bool,
    pub endpoint: Option<ReportedEndpoint>,
    pub engine: Option<String>,
    pub engine_version: Option<String>,
    pub tags: Vec<Tag>,
}

/// An RDS database instance.
#[derive(Debug)]
pub struct RdsInstance {
    pub arn: String,
    pub name: String,
    pub normalized_name: String,
    pub engine: String,
    pub engine_version: String,
    pub endpoint: Endpoint,
    pub environment_tag: String,
    pub env: Env,
    pub appname_tag: String,
}

impl RdsInstance {
    /// A copy of the instance.
    pub fn duplicate(&self) -> (r: RdsInstance)
        ensures
            r == *self,
    {
        RdsInstance {
            arn: self.arn.clone(),
            name: self.name.clone(),
            normalized_name: self.normalized_name.clone(),
            engine: self.engine.clone(),
            engine_version: self.engine_version.clone(),
            endpoint: Endpoint { address: self.endpoint.address.clone(), port: self.endpoint.port },
            environment_tag: self.environment_tag.clone(),
            env: self.env,
            appname_tag: self.appname_tag.clone(),
        }
    }
}

/// The pattern that finds a database's name after its environment in its ARN.
pub open spec fn db_name_pattern() -> Seq<char> {
    ".*(play|lab|dev|demo|prod)-(.*)"@
}

/// The name of a database instance given what `db_name_pattern` captured
/// after its environment (`None` where it found nothing): that text, or
/// else the part of the ARN after its last `:`.
pub open spec fn db_name_or_last(arn: Seq<char>, captured: Option<Seq<char>>) -> Seq<char> {
    match captured {
        Some(g) => g,
        None => split_char(arn, ':').last(),
    }
}

/// The name of a database instance: what follows its environment in the
/// ARN, or else the part of the ARN after its last `:`.
pub open spec fn db_display_name(arn: Seq<char>) -> Seq<char> {
    db_name_or_last(arn, regex_group(db_name_pattern(), arn, 2))
}

/// The name of the database with ARN `arn`, given what `db_name_pattern`
/// captured of it (see `db_name_or_last`).
pub fn db_name_from(arn: &str, captured: Option<String>) -> (name: String)
    ensures
        name@ == db_name_or_last(arn@, opt_view(captured)),
{
    match captured {
        Some(g) => g,
        None => string_from(&last_piece(arn, ':')),
    }
}

/// A name without its `-migrated` marks.
pub open spec fn normalized(name: Seq<char>) -> Seq<char> {
    replace_all(name, "-migrated"@, Seq::<char>::empty())
}

/// The value of the last tag keyed `key`, empty where none is.
pub open spec fn last_tag_value(tags: Seq<Tag>, key: Seq<char>) -> Seq<char>
    decreases tags.len(),
{
    if tags.len() == 0 {
        Seq::<char>::empty()
    } else if key_or_unknown(tags.last()) == key {
        value_or_empty(tags.last())
    } else {
        last_tag_value(tags.drop_last(), key)
    }
}

/// A reported database instance can be read without failing: where it has a
/// database name, it has an ARN, an endpoint with an address and a port
/// that fits `u16`, every tag has a key, and every `AppName` or
/// `Environment` tag has a value.
pub open spec fn db_instance_readable(d: DbInstanceData) -> bool {
    d.has_db_name ==> {
        &&& d.arn is Some
        &&& d.endpoint is Some
        &&& d.endpoint.unwrap().address is Some
        &&& d.endpoint.unwrap().port is Some
        &&& 0 <= d.endpoint.unwrap().port.unwrap() <= 65535
        &&& forall|i: int| 0 <= i < d.tags.len() ==> (#[trigger] d.tags@[i]).key is Some
        &&& forall|i: int|
            0 <= i < d.tags.len() && (key_or_unknown(#[trigger] d.tags@[i]) == "AppName"@
                || key_or_unknown(d.tags@[i]) == "Environment"@) ==> d.tags@[i].value is Some
    }
}

/// `r` is the instance that the report `d` describes.
pub open spec fn describes(d: DbInstanceData, r: RdsInstance) -> bool {
    let arn = d.arn.unwrap()@;
    &&& r.arn@ == arn
    &&& r.name@ == db_display_name(arn)
    &&& r.normalized_name@ == normalized(db_display_name(arn))
    &&& r.engine@ == (match d.engine {
        Some(e) => e@,
        None => "??"@,
    })
    &&& r.engine_version@ == "v"@ + (match d.engine_version {
        Some(v) => v@,
        None => "??"@,
    })
    &&& r.endpoint.address@ == d.endpoint.unwrap().address.unwrap()@
    &&& r.endpoint.port == d.endpoint.unwrap().port.unwrap()
    &&& r.appname_tag@ == last_tag_value(d.tags@, "AppName"@)
    &&& r.environment_tag@ == last_tag_value(d.tags@, "Environment"@)
    &&& r.env == env_from_name(last_tag_value(d.tags@, "Environment"@))
}

/// The `AppName` and `Environment` tag values of `tags`, as the last tag of
/// each key gives them.
fn app_and_environment_tags(tags: &Vec<Tag>) -> (r: (Vec<char>, Vec<char>))
    requires
        forall|i: int| 0 <= i < tags.len() ==> (#[trigger] tags@[i]).key is Some,
        forall|i: int|
            0 <= i < tags.len() && (key_or_unknown(#[trigger] tags@[i]) == "AppName"@
                || key_or_unknown(tags@[i]) == "Environment"@) ==> tags@[i].value is Some,
    ensures
        r.0@ == last_tag_value(tags@, "AppName"@),
        r.1@ == last_tag_value(tags@, "Environment"@),
{
    let mut app: Vec<char> = Vec::new();
    let mut environment: Vec<char> = Vec::new();
    let mut i: usize = 0;
    while i < tags.len()
        invariant
            i <= tags.len(),
            forall|j: int| 0 <= j < tags.len() ==> (#[trigger] tags@[j]).key is Some,
            forall|j: int|
                0 <= j < tags.len() && (key_or_unknown(#[trigger] tags@[j]) == "AppName"@
                    || key_or_unknown(tags@[j]) == "Environment"@) ==> tags@[j].value is Some,
            app@ == last_tag_value(tags@.take(i as int), "AppName"@),
            environment@ == last_tag_value(tags@.take(i as int), "Environment"@),
        decreases tags.len() - i,
    {
        let t = &tags[i];
        let ghost pre = tags@.take(i as int);
        let ghost next = tags@.take(i + 1);
        assert(next.drop_last() =~= pre);
        assert(next.last() == tags@[i as int]);
        let key = match &t.key {
            Some(k) => k.as_str(),
            None => "",
        };
        if same_text(key, "AppName") {
            app = match &t.value {
                Some(v) => chars_of(v.as_str()),
                None => Vec::new(),
            };
        }
        if same_text(key, "Environment") {
            environment = match &t.value {
                Some(v) => chars_of(v.as_str()),
                None => Vec::new(),
            };
        }
        i = i + 1;
    }
    assert(tags@.take(tags.len() as int) =~= tags@);
    (app, environment)
}

/// The instance that a report with a database name describes.
pub fn rds_instance_from(d: &DbInstanceData) -> (r: RdsInstance)
    requires
        d.has_db_name,
        db_instance_readable(*d),
    ensures
        describes(*d, r),
{
    let arn = match &d.arn {
        Some(a) => a.clone(),
        None => String::new(),
    };
    let captured = regex_capture(".*(play|lab|dev|demo|prod)-(.*)", arn.as_str(), 2);
    let name = db_name_from(arn.as_str(), captured);
    let (app, environment) = app_and_environment_tags(&d.tags);
    let (address, port) = match &d.endpoint {
        Some(e) => {
            let address = match &e.address {
                Some(a) => a.clone(),
                None => String::new(),
            };
            let port: u16 = match e.port {
                Some(p) => p as u16,
                None => 0,
            };
            (address, port)
        },
        None => (String::new(), 0),
    };
    let engine = match &d.engine {
        Some(e) => e.clone(),
        None => "??".to_string(),
    };
    let mut version: Vec<char> = Vec::new();
    version.push('v');
    match &d.engine_version {
        Some(v) => append_str(&mut version, v.as_str()),
        None => append_str(&mut version, "??"),
    }
    proof {
        reveal_strlit("v");
        assert(seq!['v'] =~= "v"@);
    }
    let name_chars = chars_of(name.as_str());
    let marker = chars_of("-migrated");
    proof {
        reveal_strlit("-migrated");
    }
    let empty: Vec<char> = Vec::new();
    let normalized_name = string_from(&replace_chars(&name_chars, &marker, &empty));
    let environment_tag = string_from(&environment);
    let env = Env::from_exact(environment_tag.as_str());
    RdsInstance {
        arn,
        name,
        normalized_name,
        engine,
        engine_version: string_from(&version),
        endpoint: Endpoint { address, port },
        environment_tag,
        env,
        appname_tag: string_from(&app),
    }
}

/// Whether another page of database instances is to be fetched: the page
/// was full (100 instances) and RDS handed back a marker.
pub fn more_database_pages(count: usize, marker: &Option<String>) -> (r: bool)
    ensures
        r == (count == 100 && marker is Some),
{
    count == 100 && marker.is_some()
}

/// The reports that have a database name, in order.
pub open spec fn with_db_name(ds: Seq<DbInstanceData>) -> Seq<DbInstanceData>
    decreases ds.len(),
{
    if ds.len() == 0 {
        ds
    } else if ds.last().has_db_name {
        with_db_name(ds.drop_last()).push(ds.last())
    } else {
        with_db_name(ds.drop_last())
    }
}

/// The display names of the reports `ds`.
pub open spec fn db_names(ds: Seq<DbInstanceData>) -> Seq<Seq<char>> {
    Seq::new(ds.len(), |i: int| db_display_name(ds[i].arn.unwrap()@))
}

/// The instances of all fetched reports: those with a database name, each
/// as its report describes it, sorted by name (stably).
pub fn collect_databases(reports: &Vec<DbInstanceData>) -> (r: Vec<RdsInstance>)
    requires
        forall|i: int| 0 <= i < reports.len() ==> db_instance_readable(#[trigger] reports@[i]),
    ensures
        r.len() == with_db_name(reports@).len(),
        exists|order: Seq<usize>|
            is_permutation(order, r.len() as int) && sorts_stably(db_names(with_db_name(reports@)), order)
                && forall|j: int|
                0 <= j < r.len() ==> describes(
                    with_db_name(reports@)[order[j] as int],
                    #[trigger] r@[j],
                ),
{
    let mut all: Vec<RdsInstance> = Vec::new();
    let mut names: Vec<Vec<char>> = Vec::new();
    let mut i: usize = 0;
    while i < reports.len()
        invariant
            i <= reports.len(),
            forall|j: int| 0 <= j < reports.len() ==> db_instance_readable(#[trigger] reports@[j]),
            all.len() == with_db_name(reports@.take(i as int)).len(),
            names.len() == all.len(),
            forall|j: int| 0 <= j < all.len() ==> describes(
                with_db_name(reports@.take(i as int))[j],
                #[trigger] all@[j],
            ),
            forall|j: int| 0 <= j < all.len() ==> (#[trigger] names@[j])@ == all@[j].name@,
        decreases reports.len() - i,
    {
        let ghost pre = reports@.take(i as int);
        let ghost next = reports@.take(i + 1);
        assert(next.drop_last() =~= pre);
        assert(next.last() == reports@[i as int]);
        if reports[i].has_db_name {
            let db = rds_instance_from(&reports[i]);
            names.push(chars_of(db.name.as_str()));
            all.push(db);
        }
        i = i + 1;
    }
    assert(reports@.take(reports.len() as int) =~= reports@);
    let ghost kept = with_db_name(reports@);
    assert(seqs_of(names@) =~= db_names(kept));
    let order = stable_order(&names);
    let mut r: Vec<RdsInstance> = Vec::new();
    let mut k: usize = 0;
    while k < order.len()
        invariant
            k <= order.len(),
            order.len() == all.len(),
            r.len() == k,
            all.len() == kept.len(),
            forall|q: int| 0 <= q < order.len() ==> #[trigger] order@[q] < all.len(),
            forall|j: int| 0 <= j < all.len() ==> describes(kept[j], #[trigger] all@[j]),
            forall|j: int| 0 <= j < k ==> describes(kept[order@[j] as int], #[trigger] r@[j]),
        decreases order.len() - k,
    {
        let at = order[k];
        r.push(all[at].duplicate());
        k = k + 1;
    }
    r
}

/// The environments the AWS request handler service reports bastions in.
#[derive(Clone, Copy, Debug, PartialEq, Eq, Structural)]
pub enum ArhEnvironment {
    Dev,
    Demo,
    Prod,
    Other,
}

/// The environment of the application that an environment of the request
/// handler stands for; any other than dev, demo and prod is `DEVNULL`.
pub open spec fn arh_env(e: ArhEnvironment) -> Env {
    match e {
        ArhEnvironment::Dev => Env::DEV,
        ArhEnvironment::Demo => Env::DEMO,
        ArhEnvironment::Prod => Env::PROD,
        ArhEnvironment::Other => Env::DEVNULL,
    }
}

/// Finds bastions through the AWS request handler service.
pub struct ArhAwsResolver {}

impl ArhAwsResolver {
    /// A resolver.
    pub fn new() -> (r: ArhAwsResolver) {
        ArhAwsResolver {}
    }

    /// The environment of a bastion the service reported.
    pub fn env_of(e: ArhEnvironment) -> (r: Env)
        ensures
            r == arh_env(e),
    {
        match e {
            ArhEnvironment::Dev => Env::DEV,
            ArhEnvironment::Demo => Env::DEMO,
            ArhEnvironment::Prod => Env::PROD,
            ArhEnvironment::Other => Env::DEVNULL,
        }
    }

    /// The bastions the service reported, in order.
    pub fn bastions(&self, results: Vec<(String, ArhEnvironment)>) -> (r: Vec<Bastion>)
        ensures
            r.len() == results.len(),
            forall|i: int|
                0 <= i < r.len() ==> (#[trigger] r@[i]).instance_id == results@[i].0 && r@[i].env == arh_env(
                    results@[i].1,
                ),
    {
        let mut r: Vec<Bastion> = Vec::new();
        let mut i: usize = 0;
        while i < results.len()
            invariant
                i <= results.len(),
                r.len() == i,
                forall|j: int|
                    0 <= j < i ==> (#[trigger] r@[j]).instance_id == results@[j].0 && r@[j].env == arh_env(
                        results@[j].1,
                    ),
            decreases results.len() - i,
        {
            let id = results[i].0.clone();
            r.push(Bastion { instance_id: id, env: Self::env_of(results[i].1) });
            i = i + 1;
        }
        r
    }
}

/// Finds bastions with the EC2 API.
pub struct SdkAwsResolver {}

impl SdkAwsResolver {
    /// A resolver.
    pub fn new() -> (r: SdkAwsResolver) {
        SdkAwsResolver {}
    }

    /// The bastions among the instances that the bastion filter found.
    pub fn bastions(&self, instances: &Vec<Ec2Instance>) -> (r: Vec<Bastion>)
        requires
            forall|i: int| 0 <= i < instances.len() ==> (#[trigger] instances@[i]).instance_id is Some,
        ensures
            r.len() == instances.len(),
            forall|i: int|
                0 <= i < r.len() ==> (#[trigger] r@[i]).instance_id@ == instances@[i].instance_id.unwrap()@
                    && r@[i].env == env_from_name(first_environment_tag(instances@[i].tags@)),
    {
        bastions(instances)
    }
}

/// The name of a database without its `-migrated` marks, under which its
/// application's profiles are looked up.
pub fn normalize_name(name: &str) -> (r: String)
    ensures
        r@ == normalized(name@),
{
    let chars = chars_of(name);
    let marker = chars_of("-migrated");
    proof {
        reveal_strlit("-migrated");
    }
    let empty: Vec<char> = Vec::new();
    string_from(&replace_chars(&chars, &marker, &empty))
}

} // verus!
