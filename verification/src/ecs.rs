//! What the application makes of the answers of ECS: restarts and the
//! course of a deployment, the details of services, and the retries of
//! the services whose details could not be read.
use vstd::prelude::*;
use crate::resources::EcsService;
use crate::shared::{arn_to_name, env_from_text, tracked_name, CommandError, Env};
use crate::text::{append_str, chars_of, last_piece, split_char, split_on, string_from, seqs_of};

verus! {

broadcast use vstd::string::group_string_axioms;

/// The error text of a failed restart of `service` in `cluster`.
pub open spec fn restart_failure(service: Seq<char>, cluster: Seq<char>, reason: Seq<char>) -> Seq<char> {
    "failed to restart service "@ + service + ", cluster: "@ + cluster + ". Reason: "@ + reason
}

/// What a forced new deployment of a service answers: the id of the first
/// deployment of the updated service, or the error. `result` holds the
/// deployment ids of the updated service (none where ECS reported no
/// deployments) or the text of the error.
pub fn restart_outcome(
    result: Result<Option<Vec<Option<String>>>, String>,
    service_name: &str,
    cluster_arn: &str,
) -> (r: Result<String, CommandError>)
    ensures
        result matches Err(reason) ==> (r matches Err(e) && e.command@ == "restart_service"@
            && e.message@ == restart_failure(service_name@, cluster_arn@, reason@)),
        result matches Ok(ids) ==> match ids {
            Some(ids) if ids.len() > 0 && ids@[0] is Some => r matches Ok(id) && id@ == ids@[0].unwrap()@,
            _ => r matches Err(e) && e.command@ == "restart_service"@ && e.message@
                == "missing deployment id"@,
        },
{
    match result {
        Ok(ids) => {
            let first = match &ids {
                Some(ids) => if ids.len() > 0 {
                    match &ids[0] {
                        Some(id) => Some(id.clone()),
                        None => None,
                    }
                } else {
                    None
                },
                None => None,
            };
            match first {
                Some(id) => Ok(id),
                None => Err(CommandError::new("restart_service", "missing deployment id".to_string())),
            }
        },
        Err(reason) => {
            let mut text = chars_of("failed to restart service ");
            append_str(&mut text, service_name);
            append_str(&mut text, ", cluster: ");
            append_str(&mut text, cluster_arn);
            append_str(&mut text, ". Reason: ");
            append_str(&mut text, reason.as_str());
            Err(CommandError::new("restart_service", string_from(&text)))
        },
    }
}

/// The rollout state of a deployment; `Other` carries how ECS wrote a state
/// not listed here.
#[derive(Debug)]
pub enum RolloutState {
    Completed,
    Failed,
    InProgress,
    Other(String),
}

impl RolloutState {
    /// A copy of the state.
    pub fn duplicate(&self) -> (r: RolloutState)
        ensures
            r == *self,
    {
        match self {
            RolloutState::Completed => RolloutState::Completed,
            RolloutState::Failed => RolloutState::Failed,
            RolloutState::InProgress => RolloutState::InProgress,
            RolloutState::Other(s) => RolloutState::Other(s.clone()),
        }
    }
}

/// A deployment of a service as `describe_services` reports it.
pub struct DeploymentInfo {
    pub id: Option<String>,
    pub rollout_state: Option<RolloutState>,
}

/// A service as `describe_services` reports it, with its deployments.
pub struct ServiceDeployments {
    pub service_name: Option<String>,
    pub deployments: Vec<DeploymentInfo>,
}

/// A text, or `default` where there is none.
pub open spec fn text_or(o: Option<String>, default: Seq<char>) -> Seq<char> {
    match o {
        Some(s) => s@,
        None => default,
    }
}

/// The first service named `name` (a service without a name counts as
/// named with the empty text).
pub open spec fn find_service(ss: Seq<ServiceDeployments>, name: Seq<char>) -> Option<ServiceDeployments>
    decreases ss.len(),
{
    if ss.len() == 0 {
        None
    } else if text_or(ss[0].service_name, Seq::<char>::empty()) == name {
        Some(ss[0])
    } else {
        find_service(ss.skip(1), name)
    }
}

/// The first deployment with id `id` (one without an id counts as `-`).
pub open spec fn find_deployment(ds: Seq<DeploymentInfo>, id: Seq<char>) -> Option<DeploymentInfo>
    decreases ds.len(),
{
    if ds.len() == 0 {
        None
    } else if text_or(ds[0].id, "-"@) == id {
        Some(ds[0])
    } else {
        find_deployment(ds.skip(1), id)
    }
}

/// The rollout state of deployment `id` of service `name` among `services`.
pub open spec fn rollout_of(
    services: Option<Seq<ServiceDeployments>>,
    name: Seq<char>,
    id: Seq<char>,
) -> Option<RolloutState> {
    match services {
        None => None,
        Some(ss) => match find_service(ss, name) {
            None => None,
            Some(s) => match find_deployment(s.deployments@, id) {
                None => None,
                Some(d) => d.rollout_state,
            },
        },
    }
}

/// The views of the services of a report.
pub open spec fn services_view(o: Option<Vec<ServiceDeployments>>) -> Option<Seq<ServiceDeployments>> {
    match o {
        Some(v) => Some(v@),
        None => None,
    }
}

fn find_service_index(ss: &Vec<ServiceDeployments>, name: &str) -> (r: Option<usize>)
    ensures
        r is None <==> find_service(ss@, name@) is None,
        r matches Some(i) ==> i < ss.len() && find_service(ss@, name@) == Some(ss@[i as int]),
{
    let mut i: usize = 0;
    assert(ss@.skip(0) =~= ss@);
    while i < ss.len()
        invariant
            i <= ss.len(),
            find_service(ss@, name@) == find_service(ss@.skip(i as int), name@),
        decreases ss.len() - i,
    {
        assert(ss@.skip(i as int)[0] == ss@[i as int]);
        let matches = match &ss[i].service_name {
            Some(n) => n.as_str().to_string() == name.to_string(),
            None => String::new() == name.to_string(),
        };
        if matches {
            return Some(i);
        }
        assert(ss@.skip(i as int).skip(1) =~= ss@.skip(i + 1));
        i = i + 1;
    }
    None
}

fn find_deployment_index(ds: &Vec<DeploymentInfo>, id: &str) -> (r: Option<usize>)
    ensures
        r is None <==> find_deployment(ds@, id@) is None,
        r matches Some(i) ==> i < ds.len() && find_deployment(ds@, id@) == Some(ds@[i as int]),
{
    let mut i: usize = 0;
    assert(ds@.skip(0) =~= ds@);
    while i < ds.len()
        invariant
            i <= ds.len(),
            find_deployment(ds@, id@) == find_deployment(ds@.skip(i as int), id@),
        decreases ds.len() - i,
    {
        assert(ds@.skip(i as int)[0] == ds@[i as int]);
        let matches = match &ds[i].id {
            Some(n) => n.as_str().to_string() == id.to_string(),
            None => "-".to_string() == id.to_string(),
        };
        if matches {
            return Some(i);
        }
        assert(ds@.skip(i as int).skip(1) =~= ds@.skip(i + 1));
        i = i + 1;
    }
    None
}

/// The rollout state of deployment `deployment_id` of service
/// `service_name`, from what `describe_services` answered: its error, or
/// the services it described.
pub fn deployment_status(
    result: Result<Option<Vec<ServiceDeployments>>, String>,
    service_name: &str,
    deployment_id: &str,
) -> (r: Result<RolloutState, CommandError>)
    ensures
        result matches Err(m) ==> (r matches Err(e) && e.command@ == "deployment_status"@
            && e.message == m),
        result matches Ok(services) ==> match rollout_of(services_view(services), service_name@, deployment_id@) {
            Some(state) => r == Ok::<RolloutState, CommandError>(state),
            None => r matches Err(e) && e.command@ == "deployment_status"@ && e.message@
                == "missing deployment"@,
        },
{
    match result {
        Err(m) => Err(CommandError::new("deployment_status", m)),
        Ok(services) => {
            let state = match &services {
                None => None,
                Some(ss) => match find_service_index(ss, service_name) {
                    None => None,
                    Some(i) => match find_deployment_index(&ss[i].deployments, deployment_id) {
                        None => None,
                        Some(j) => match &ss[i].deployments[j].rollout_state {
                            Some(st) => Some(st.duplicate()),
                            None => None,
                        },
                    },
                },
            };
            match state {
                Some(st) => Ok(st),
                None => Err(CommandError::new("deployment_status", "missing deployment".to_string())),
            }
        },
    }
}

/// The watch over a deployment: how many checks failed so far, and when
/// the deployment counts as failed (15 minutes after it started).
pub struct DeploymentWatch {
    pub error_count: u32,
    pub deadline: i64,
}

/// What one check of a deployment reports.
#[derive(Debug)]
pub struct DeploymentReport {
    pub rollout_status: String,
    pub error_message: Option<String>,
    pub keep_checking: bool,
}

/// How many failed checks end a watch.
pub const MAX_CHECK_ERRORS: u32 = 5;

/// Milliseconds a deployment may take before it counts as failed.
pub const DEPLOYMENT_TIMEOUT_MS: i64 = 900000;

impl DeploymentWatch {
    /// A watch over a deployment started at `started` (milliseconds).
    pub fn new(started: i64) -> (w: DeploymentWatch)
        requires
            started <= i64::MAX - DEPLOYMENT_TIMEOUT_MS,
        ensures
            w.error_count == 0,
            w.deadline == started + DEPLOYMENT_TIMEOUT_MS,
    {
        DeploymentWatch { error_count: 0, deadline: started + DEPLOYMENT_TIMEOUT_MS }
    }

    /// Takes the state one check found at time `now` and reports it:
    /// completed, failed and in-progress deployments as such; an unknown
    /// state or a failed check counts as an error and reports `Unknown`. The
    /// fifth error, or a check after the deadline, reports `Failed`.
    /// Checking goes on while the report is `In Progress` or `Unknown`.
    pub fn observe(&mut self, status: Result<RolloutState, CommandError>, now: i64) -> (r: DeploymentReport)
        requires
            old(self).error_count < MAX_CHECK_ERRORS,
        ensures
            final(self).deadline == old(self).deadline,
            final(self).error_count == old(self).error_count + (match status {
                Ok(RolloutState::Other(_)) => 1int,
                Err(_) => 1,
                _ => 0,
            }),
            r.keep_checking == (r.rollout_status@ == "In Progress"@ || r.rollout_status@ == "Unknown"@),
            r.keep_checking ==> final(self).error_count < MAX_CHECK_ERRORS,
            now > old(self).deadline ==> r.rollout_status@ == "Failed"@ && (r.error_message matches Some(
                m,
            ) && m@ == "Timed out after 15m. Check in AWS console"@),
            now <= old(self).deadline && final(self).error_count == MAX_CHECK_ERRORS ==> r.rollout_status@
                == "Failed"@ && (r.error_message matches Some(m) && m@ == "Exceeded error count"@),
            now <= old(self).deadline && final(self).error_count < MAX_CHECK_ERRORS ==> match status {
                Ok(RolloutState::Completed) => r.rollout_status@ == "Completed"@ && r.error_message is None,
                Ok(RolloutState::Failed) => r.rollout_status@ == "Failed"@ && r.error_message is None,
                Ok(RolloutState::InProgress) => r.rollout_status@ == "In Progress"@
                    && r.error_message is None,
                Ok(RolloutState::Other(s)) => r.rollout_status@ == "Unknown"@ && (r.error_message matches Some(
                    m,
                ) && m@ == "Unknown status: "@ + s@),
                Err(e) => r.rollout_status@ == "Unknown"@ && r.error_message == Some(e.message),
            },
    {
        let mut status_str = "Unknown";
        let mut error_message: Option<String> = None;
        match status {
            Ok(RolloutState::Completed) => {
                status_str = "Completed";
            },
            Ok(RolloutState::Failed) => {
                status_str = "Failed";
            },
            Ok(RolloutState::InProgress) => {
                status_str = "In Progress";
            },
            Ok(RolloutState::Other(s)) => {
                self.error_count = self.error_count + 1;
                let mut text = chars_of("Unknown status: ");
                append_str(&mut text, s.as_str());
                error_message = Some(string_from(&text));
            },
            Err(e) => {
                self.error_count = self.error_count + 1;
                error_message = Some(e.message);
            },
        }
        if self.error_count == MAX_CHECK_ERRORS {
            status_str = "Failed";
            error_message = Some("Exceeded error count".to_string());
        }
        if now > self.deadline {
            status_str = "Failed";
            error_message = Some("Timed out after 15m. Check in AWS console".to_string());
        }
        proof {
            reveal_strlit("Failed");
            reveal_strlit("In Progress");
            reveal_strlit("Unknown");
            reveal_strlit("Completed");
        }
        assert("Failed"@.len() == 6 && "In Progress"@.len() == 11 && "Unknown"@.len() == 7);
        let keep_checking = same(status_str, "In Progress") || same(status_str, "Unknown");
        DeploymentReport { rollout_status: status_str.to_string(), error_message, keep_checking }
    }
}

fn same(a: &str, b: &str) -> (r: bool)
    ensures
        r == (a@ == b@),
{
    a.to_string() == b.to_string()
}

/// The details of an ECS service.
#[derive(Debug)]
pub struct ServiceDetails {
    pub timestamp: i64,
    pub arn: String,
    pub name: String,
    pub version: String,
    pub cluster_arn: String,
    pub env: Env,
    pub task_registered_at: Option<i64>,
}

/// A service whose details could not be read, and why.
#[derive(Debug)]
pub struct ServiceDetailsMissing {
    pub timestamp: i64,
    pub arn: String,
    pub name: String,
    pub error: String,
    pub env: Env,
}

impl ServiceDetails {
    /// A copy of the details.
    pub fn duplicate(&self) -> (r: ServiceDetails)
        ensures
            r == *self,
    {
        ServiceDetails {
            timestamp: self.timestamp,
            arn: self.arn.clone(),
            name: self.name.clone(),
            version: self.version.clone(),
            cluster_arn: self.cluster_arn.clone(),
            env: self.env,
            task_registered_at: self.task_registered_at,
        }
    }
}

impl ServiceDetailsMissing {
    /// A copy of the record.
    pub fn duplicate(&self) -> (r: ServiceDetailsMissing)
        ensures
            r == *self,
    {
        ServiceDetailsMissing {
            timestamp: self.timestamp,
            arn: self.arn.clone(),
            name: self.name.clone(),
            error: self.error.clone(),
            env: self.env,
        }
    }
}

/// The cluster segment of a service ARN: the piece after its first `/`.
pub fn service_cluster(service_arn: &str) -> (r: String)
    requires
        split_char(service_arn@, '/').len() >= 2,
    ensures
        r@ == split_char(service_arn@, '/')[1],
{
    let chars = chars_of(service_arn);
    let parts = split_on(&chars, '/');
    assert(seqs_of(parts@)[1] == parts@[1]@);
    string_from(&parts[1])
}

/// At which call reading the details of a service failed.
#[derive(Clone, Copy, Debug, PartialEq, Eq, Structural)]
pub enum DetailFailure {
    DescribeService,
    TaskDefinition,
}

/// The text that says at which call reading the details failed.
pub open spec fn failure_text(f: DetailFailure) -> Seq<char> {
    match f {
        DetailFailure::DescribeService => "Failed to describe service"@,
        DetailFailure::TaskDefinition => "Failed to fetch task definition"@,
    }
}

/// The record of a service whose details could not be read at `now`.
pub fn missing_details(service_arn: String, failure: DetailFailure, now: i64) -> (r: ServiceDetailsMissing)
    ensures
        r.arn == service_arn,
        r.name@ == tracked_name(service_arn@),
        r.env == env_from_text(service_arn@),
        r.error@ == failure_text(failure),
        r.timestamp == now,
{
    let error = match failure {
        DetailFailure::DescribeService => "Failed to describe service".to_string(),
        DetailFailure::TaskDefinition => "Failed to fetch task definition".to_string(),
    };
    ServiceDetailsMissing {
        name: arn_to_name(service_arn.as_str()),
        timestamp: now,
        env: Env::from_any(service_arn.as_str()),
        error,
        arn: service_arn,
    }
}

/// The details of a service read at `now`: its version is the tag of the
/// image of its task's first container (the part after the last `:`).
pub fn found_details(
    service_arn: String,
    cluster_arn: String,
    image: &str,
    task_registered_at: Option<i64>,
    now: i64,
) -> (r: ServiceDetails)
    ensures
        r.arn == service_arn,
        r.name@ == tracked_name(service_arn@),
        r.env == env_from_text(service_arn@),
        r.cluster_arn == cluster_arn,
        r.version@ == split_char(image@, ':').last(),
        r.task_registered_at == task_registered_at,
        r.timestamp == now,
{
    ServiceDetails {
        name: arn_to_name(service_arn.as_str()),
        timestamp: now,
        env: Env::from_any(service_arn.as_str()),
        version: string_from(&last_piece(image, ':')),
        cluster_arn,
        task_registered_at,
        arn: service_arn,
    }
}

/// The ARN a details result is about.
pub open spec fn result_arn(r: Result<ServiceDetails, ServiceDetailsMissing>) -> Seq<char> {
    match r {
        Ok(d) => d.arn@,
        Err(m) => m.arn@,
    }
}

/// The first result of `rs` about `arn`.
pub open spec fn first_about(rs: Seq<Result<ServiceDetails, ServiceDetailsMissing>>, arn: Seq<char>) -> Option<
    Result<ServiceDetails, ServiceDetailsMissing>,
>
    decreases rs.len(),
{
    if rs.len() == 0 {
        None
    } else if result_arn(rs[0]) == arn {
        Some(rs[0])
    } else {
        first_about(rs.skip(1), arn)
    }
}

/// Whether some of the results are failures.
pub fn any_missing(results: &Vec<Result<ServiceDetails, ServiceDetailsMissing>>) -> (r: bool)
    ensures
        r == exists|i: int| 0 <= i < results.len() && (#[trigger] results@[i]) is Err,
{
    let mut i: usize = 0;
    while i < results.len()
        invariant
            i <= results.len(),
            forall|j: int| 0 <= j < i ==> (#[trigger] results@[j]) is Ok,
        decreases results.len() - i,
    {
        if results[i].is_err() {
            return true;
        }
        i = i + 1;
    }
    false
}

/// Some result of `results` is a failure about `arn`.
pub open spec fn failed_for(results: Seq<Result<ServiceDetails, ServiceDetailsMissing>>, arn: Seq<char>) -> bool {
    exists|k: int| 0 <= k < results.len() && (#[trigger] results[k]) is Err && result_arn(results[k]) == arn
}

/// The services of `services` that some failure of `results` is about, in
/// order.
pub open spec fn retry_list(
    services: Seq<EcsService>,
    results: Seq<Result<ServiceDetails, ServiceDetailsMissing>>,
) -> Seq<EcsService>
    decreases services.len(),
{
    if services.len() == 0 {
        services
    } else if failed_for(results, services.last().arn@) {
        retry_list(services.drop_last(), results).push(services.last())
    } else {
        retry_list(services.drop_last(), results)
    }
}

fn has_failed(results: &Vec<Result<ServiceDetails, ServiceDetailsMissing>>, arn: &str) -> (r: bool)
    ensures
        r == failed_for(results@, arn@),
{
    let mut k: usize = 0;
    while k < results.len()
        invariant
            k <= results.len(),
            forall|p: int| 0 <= p < k ==> !((#[trigger] results@[p]) is Err && result_arn(results@[p]) == arn@),
        decreases results.len() - k,
    {
        match &results[k] {
            Err(m) => {
                if same(m.arn.as_str(), arn) {
                    return true;
                }
            },
            Ok(_) => {},
        }
        k = k + 1;
    }
    false
}

/// The services whose details are to be read again: those that a failure
/// among `results` is about, in the order of `services`.
pub fn services_to_retry(
    services: &Vec<EcsService>,
    results: &Vec<Result<ServiceDetails, ServiceDetailsMissing>>,
) -> (r: Vec<EcsService>)
    ensures
        r@ == retry_list(services@, results@),
{
    let mut r: Vec<EcsService> = Vec::new();
    let mut i: usize = 0;
    while i < services.len()
        invariant
            i <= services.len(),
            r@ == retry_list(services@.take(i as int), results@),
        decreases services.len() - i,
    {
        let ghost pre = services@.take(i as int);
        let ghost next = services@.take(i + 1);
        assert(next.drop_last() =~= pre);
        assert(next.last() == services@[i as int]);
        if has_failed(results, services[i].arn.as_str()) {
            r.push(services[i].duplicate());
        }
        i = i + 1;
    }
    assert(services@.take(services.len() as int) =~= services@);
    r
}

/// A copy of a details result.
pub fn duplicate_result(r: &Result<ServiceDetails, ServiceDetailsMissing>) -> (c: Result<
    ServiceDetails,
    ServiceDetailsMissing,
>)
    ensures
        c == *r,
{
    match r {
        Ok(d) => Ok(d.duplicate()),
        Err(m) => Err(m.duplicate()),
    }
}

/// The position of the first result of `rs` about `arn`.
fn first_about_index(rs: &Vec<Result<ServiceDetails, ServiceDetailsMissing>>, arn: &str) -> (r: Option<usize>)
    ensures
        r is None <==> first_about(rs@, arn@) is None,
        r matches Some(k) ==> k < rs.len() && first_about(rs@, arn@) == Some(rs@[k as int]),
{
    let mut k: usize = 0;
    assert(rs@.skip(0) =~= rs@);
    while k < rs.len()
        invariant
            k <= rs.len(),
            first_about(rs@, arn@) == first_about(rs@.skip(k as int), arn@),
        decreases rs.len() - k,
    {
        assert(rs@.skip(k as int)[0] == rs@[k as int]);
        let about = match &rs[k] {
            Ok(d) => same(d.arn.as_str(), arn),
            Err(e) => same(e.arn.as_str(), arn),
        };
        if about {
            return Some(k);
        }
        assert(rs@.skip(k as int).skip(1) =~= rs@.skip(k + 1));
        k = k + 1;
    }
    None
}

/// The results after a retry: each failure replaced by the first result of
/// the retry about the same service; the others kept.
pub fn merge_retried(
    results: Vec<Result<ServiceDetails, ServiceDetailsMissing>>,
    retried: &Vec<Result<ServiceDetails, ServiceDetailsMissing>>,
) -> (r: Vec<Result<ServiceDetails, ServiceDetailsMissing>>)
    requires
        forall|i: int|
            0 <= i < results.len() && (#[trigger] results@[i]) is Err ==> first_about(
                retried@,
                result_arn(results@[i]),
            ) is Some,
    ensures
        r.len() == results.len(),
        forall|i: int|
            0 <= i < r.len() ==> (#[trigger] r@[i]) == (if results@[i] is Ok {
                results@[i]
            } else {
                first_about(retried@, result_arn(results@[i])).unwrap()
            }),
{
    let mut r: Vec<Result<ServiceDetails, ServiceDetailsMissing>> = Vec::new();
    let mut i: usize = 0;
    while i < results.len()
        invariant
            i <= results.len(),
            r.len() == i,
            forall|k: int|
                0 <= k < results.len() && (#[trigger] results@[k]) is Err ==> first_about(
                    retried@,
                    result_arn(results@[k]),
                ) is Some,
            forall|k: int|
                0 <= k < i ==> (#[trigger] r@[k]) == (if results@[k] is Ok {
                    results@[k]
                } else {
                    first_about(retried@, result_arn(results@[k])).unwrap()
                }),
        decreases results.len() - i,
    {
        match &results[i] {
            Ok(_) => {
                r.push(duplicate_result(&results[i]));
            },
            Err(m) => {
                match first_about_index(retried, m.arn.as_str()) {
                    Some(k) => r.push(duplicate_result(&retried[k])),
                    None => r.push(duplicate_result(&results[i])),
                }
            },
        }
        i = i + 1;
    }
    r
}

/// Whether the retry answered about every service that failed, as
/// `merge_retried` needs.
pub fn retry_covers(
    results: &Vec<Result<ServiceDetails, ServiceDetailsMissing>>,
    retried: &Vec<Result<ServiceDetails, ServiceDetailsMissing>>,
) -> (r: bool)
    ensures
        r == forall|i: int|
            0 <= i < results.len() && (#[trigger] results@[i]) is Err ==> first_about(
                retried@,
                result_arn(results@[i]),
            ) is Some,
{
    let mut i: usize = 0;
    while i < results.len()
        invariant
            i <= results.len(),
            forall|k: int|
                0 <= k < i && (#[trigger] results@[k]) is Err ==> first_about(
                    retried@,
                    result_arn(results@[k]),
                ) is Some,
        decreases results.len() - i,
    {
        if let Err(m) = &results[i] {
            if first_about_index(retried, m.arn.as_str()).is_none() {
                return false;
            }
        }
        i = i + 1;
    }
    true
}

/// How many times the details of failed services are fetched again.
pub const SERVICE_DETAILS_RETRIES: u32 = 3;

/// Whether to fetch the failed services again: some failed, and retries
/// are left; each retry uses one up.
pub fn retry_again(results: &Vec<Result<ServiceDetails, ServiceDetailsMissing>>, retries_left: &mut u32) -> (r: bool)
    ensures
        r == (old(retries_left) > 0 && exists|i: int| 0 <= i < results.len() && (#[trigger] results@[i]) is Err),
        r ==> *final(retries_left) == *old(retries_left) - 1,
        !r ==> *final(retries_left) == *old(retries_left),
{
    if *retries_left > 0 && any_missing(results) {
        *retries_left = *retries_left - 1;
        true
    } else {
        false
    }
}

} // verus!
