use wombat::deps::{
    aws_cli_dependency, check_dependencies, codeartifact_dependency, path_candidates,
    profiles_dependency, session_manager_dependency, wombat_api_dependency, CommandProbe,
};
use wombat::profiles::{InfraProfile, SsoProfile, SupportLevel, WombatAwsProfile};
use wombat::shared::Env;

fn infra(name: &str, env: Env) -> InfraProfile {
    InfraProfile {
        source_profile: "acme".to_string(),
        profile_name: name.to_string(),
        region: None,
        app: "users".to_string(),
        env,
    }
}

fn sso(env: Env, infra_profiles: Vec<InfraProfile>) -> SsoProfile {
    SsoProfile {
        profile_name: "acme".to_string(),
        region: None,
        infra_profiles,
        sso_account_id: "1".to_string(),
        support_level: SupportLevel::Full,
        env,
    }
}

fn wombat(ssos: Vec<SsoProfile>) -> WombatAwsProfile {
    WombatAwsProfile {
        name: "acme".to_string(),
        profile_base_name: "acme".to_string(),
        sso_profiles: ssos,
        support_level: SupportLevel::Full,
        single_source_profile: true,
    }
}

#[test]
fn aws_cli_reports() {
    let d = aws_cli_dependency(CommandProbe::Succeeded("aws-cli/2.0".to_string()));
    assert!(d.ok && d.required);
    assert_eq!(d.name, "aws-cli");
    assert_eq!(d.version_or_error, "aws-cli/2.0");
    let d = aws_cli_dependency(CommandProbe::Failed("bad".to_string()));
    assert!(!d.ok);
    assert_eq!(d.version_or_error, "bad");
    let d = aws_cli_dependency(CommandProbe::NotInstalled);
    assert!(!d.ok);
    assert_eq!(d.version_or_error, "Not installed");
}

#[test]
fn session_manager_always_reported_fine() {
    let d = session_manager_dependency(CommandProbe::NotInstalled);
    assert!(d.ok);
    assert_eq!(d.name, "session-manager-plugin");
    assert_eq!(d.version_or_error, "Not installed");
    assert!(session_manager_dependency(CommandProbe::Failed("x".to_string())).ok);
}

#[test]
fn profile_counts() {
    let profiles = vec![
        wombat(vec![
            sso(Env::DEV, vec![infra("users-dev", Env::DEV), infra("users-dev", Env::DEV), infra("orders-dev", Env::DEV)]),
            sso(Env::PROD, vec![]),
        ]),
        wombat(vec![sso(Env::DEMO, vec![infra("x", Env::DEMO)])]),
    ];
    let d = profiles_dependency(&profiles);
    assert_eq!(d.name, "aws-profiles");
    assert!(d.ok);
    assert_eq!(d.version_or_error, "wombat: 2, sso: 3, infra: 3");
    let none = profiles_dependency(&vec![]);
    assert!(!none.ok);
    assert_eq!(none.version_or_error, "wombat: 0, sso: 0, infra: 0");
}

#[test]
fn api_and_codeartifact() {
    let d = wombat_api_dependency(Ok("Connected".to_string()));
    assert!(d.ok);
    assert_eq!(d.name, "wombat-backend-api");
    let d = wombat_api_dependency(Err("Not connected".to_string()));
    assert!(!d.ok);
    assert_eq!(d.version_or_error, "Not connected");
    let d = codeartifact_dependency(true);
    assert!(d.ok && !d.required);
    assert_eq!(d.version_or_error, "Exists in PATH");
    assert_eq!(codeartifact_dependency(false).version_or_error, "Not in PATH");
}

#[test]
fn whole_check_in_order() {
    let r = check_dependencies(
        CommandProbe::Succeeded("v".to_string()),
        CommandProbe::NotInstalled,
        &vec![],
        Err("Not authenticated".to_string()),
        false,
    );
    let names: Vec<&str> = r.iter().map(|d| d.name.as_str()).collect();
    assert_eq!(names, vec!["aws-cli", "session-manager-plugin", "aws-profiles", "wombat-backend-api", "codeartifact-login"]);
    assert_eq!(r.iter().map(|d| d.ok).collect::<Vec<_>>(), vec![true, true, false, false, false]);
}

#[test]
fn search_path_candidates() {
    assert_eq!(path_candidates("/usr/bin:/bin", "aws"), vec!["/usr/bin/aws", "/bin/aws"]);
    assert_eq!(path_candidates("", "aws"), vec!["/aws"]);
}
