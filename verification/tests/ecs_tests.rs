use wombat::ecs::{
    any_missing, deployment_status, retry_again, retry_covers, SERVICE_DETAILS_RETRIES, found_details, merge_retried, missing_details, restart_outcome,
    service_cluster, services_to_retry, DeploymentInfo, DeploymentWatch, DetailFailure, RolloutState,
    ServiceDeployments, ServiceDetails, ServiceDetailsMissing,
};
use wombat::resources::EcsService;
use wombat::shared::{CommandError, Env};

#[test]
fn restart_answers_first_deployment() {
    let r = restart_outcome(Ok(Some(vec![Some("dep-1".to_string()), Some("dep-0".to_string())])), "users", "arn:c");
    assert_eq!(r.unwrap(), "dep-1");
}

#[test]
fn restart_without_deployment_id() {
    for ids in [None, Some(vec![]), Some(vec![None])] {
        let e = restart_outcome(Ok(ids), "users", "arn:c").unwrap_err();
        assert_eq!(e.command, "restart_service");
        assert_eq!(e.message, "missing deployment id");
    }
}

#[test]
fn restart_failure_message() {
    let e = restart_outcome(Err("AccessDenied".to_string()), "users", "arn:c").unwrap_err();
    assert_eq!(e.message, "failed to restart service users, cluster: arn:c. Reason: AccessDenied");
}

fn svc(name: Option<&str>, deps: Vec<(Option<&str>, Option<RolloutState>)>) -> ServiceDeployments {
    ServiceDeployments {
        service_name: name.map(|s| s.to_string()),
        deployments: deps
            .into_iter()
            .map(|(id, st)| DeploymentInfo { id: id.map(|s| s.to_string()), rollout_state: st })
            .collect(),
    }
}

#[test]
fn deployment_state_found() {
    let services = vec![
        svc(Some("other"), vec![(Some("d1"), Some(RolloutState::Failed))]),
        svc(Some("users"), vec![(Some("d0"), Some(RolloutState::Completed)), (Some("d1"), Some(RolloutState::InProgress))]),
    ];
    let r = deployment_status(Ok(Some(services)), "users", "d1");
    assert!(matches!(r, Ok(RolloutState::InProgress)));
}

#[test]
fn deployment_state_missing() {
    let services = vec![svc(Some("users"), vec![(Some("d0"), Some(RolloutState::Completed)), (Some("d1"), None)])];
    let e = deployment_status(Ok(Some(services)), "users", "d1").unwrap_err();
    assert_eq!(e.command, "deployment_status");
    assert_eq!(e.message, "missing deployment");
    let e = deployment_status(Ok(None), "users", "d1").unwrap_err();
    assert_eq!(e.message, "missing deployment");
    let services = vec![svc(None, vec![(None, Some(RolloutState::Completed))])];
    assert!(matches!(deployment_status(Ok(Some(services)), "", "-"), Ok(RolloutState::Completed)));
    let e = deployment_status(Err("throttled".to_string()), "users", "d1").unwrap_err();
    assert_eq!(e.message, "throttled");
}

#[test]
fn deployment_watch_reports() {
    let mut w = DeploymentWatch::new(0);
    assert_eq!(w.deadline, 900_000);
    let r = w.observe(Ok(RolloutState::InProgress), 1000);
    assert_eq!(r.rollout_status, "In Progress");
    assert!(r.keep_checking);
    let r = w.observe(Ok(RolloutState::Other("Weird".to_string())), 2000);
    assert_eq!(r.rollout_status, "Unknown");
    assert_eq!(r.error_message, Some("Unknown status: Weird".to_string()));
    assert!(r.keep_checking);
    assert_eq!(w.error_count, 1);
    let r = w.observe(Ok(RolloutState::Completed), 3000);
    assert_eq!(r.rollout_status, "Completed");
    assert!(!r.keep_checking);
}

#[test]
fn deployment_watch_gives_up_after_five_errors() {
    let mut w = DeploymentWatch::new(0);
    for _ in 0..4 {
        let r = w.observe(Err(CommandError::new("deployment_status", "x".to_string())), 10);
        assert_eq!(r.rollout_status, "Unknown");
        assert_eq!(r.error_message, Some("x".to_string()));
        assert!(r.keep_checking);
    }
    let r = w.observe(Err(CommandError::new("deployment_status", "x".to_string())), 10);
    assert_eq!(r.rollout_status, "Failed");
    assert_eq!(r.error_message, Some("Exceeded error count".to_string()));
    assert!(!r.keep_checking);
}

#[test]
fn deployment_watch_times_out() {
    let mut w = DeploymentWatch::new(0);
    let r = w.observe(Ok(RolloutState::InProgress), 900_001);
    assert_eq!(r.rollout_status, "Failed");
    assert_eq!(r.error_message, Some("Timed out after 15m. Check in AWS console".to_string()));
    assert!(!r.keep_checking);
}

const ARN: &str = "arn:aws:ecs:eu-west-1:123:service/dsi-dev/users";

#[test]
fn service_detail_records() {
    assert_eq!(service_cluster(ARN), "dsi-dev");
    let d = found_details(ARN.to_string(), "arn:cluster".to_string(), "repo/users:1.2.3", Some(77), 5);
    assert_eq!(d.version, "1.2.3");
    assert_eq!(d.name, "users");
    assert_eq!(d.env, Env::DEV);
    assert_eq!(d.task_registered_at, Some(77));
    assert_eq!(d.timestamp, 5);
    assert_eq!(found_details(ARN.to_string(), "c".to_string(), "plainimage", None, 0).version, "plainimage");
    let m = missing_details(ARN.to_string(), DetailFailure::DescribeService, 9);
    assert_eq!(m.error, "Failed to describe service");
    assert_eq!(m.name, "users");
    assert_eq!(missing_details(ARN.to_string(), DetailFailure::TaskDefinition, 9).error, "Failed to fetch task definition");
}

fn service(arn: &str) -> EcsService {
    EcsService { arn: arn.to_string(), name: "users".to_string(), cluster_arn: "c".to_string(), env: Env::DEV }
}

fn ok(arn: &str, version: &str) -> Result<ServiceDetails, ServiceDetailsMissing> {
    Ok(found_details(arn.to_string(), "c".to_string(), version, None, 0))
}

fn missing(arn: &str) -> Result<ServiceDetails, ServiceDetailsMissing> {
    Err(missing_details(arn.to_string(), DetailFailure::DescribeService, 0))
}

#[test]
fn retries_replace_failures() {
    let services = vec![service("a"), service("b"), service("c")];
    let results = vec![ok("a", "x:1"), missing("b"), missing("c")];
    assert!(any_missing(&results));
    let retry = services_to_retry(&services, &results);
    assert_eq!(retry.iter().map(|s| s.arn.as_str()).collect::<Vec<_>>(), vec!["b", "c"]);
    let refetched = vec![missing("c"), ok("b", "x:2")];
    let merged = merge_retried(results, &refetched);
    assert_eq!(merged.len(), 3);
    assert_eq!(merged[0].as_ref().unwrap().version, "1");
    assert_eq!(merged[1].as_ref().unwrap().version, "2");
    assert!(merged[2].is_err());
    assert!(any_missing(&merged));
    assert!(!any_missing(&vec![ok("a", "x:1")]));
}

#[test]
fn retry_coverage_and_rounds() {
    let results = vec![ok("a", "x:1"), missing("b"), missing("c")];
    assert!(retry_covers(&results, &vec![missing("c"), ok("b", "x:2")]));
    assert!(!retry_covers(&results, &vec![ok("b", "x:2")]));
    assert!(retry_covers(&vec![ok("a", "x:1")], &vec![]));
    let mut left = SERVICE_DETAILS_RETRIES;
    let mut rounds = 0;
    while retry_again(&results, &mut left) {
        rounds += 1;
    }
    assert_eq!(rounds, 3);
    assert_eq!(left, 0);
    let mut left = 3;
    assert!(!retry_again(&vec![ok("a", "x:1")], &mut left));
    assert_eq!(left, 3);
}
