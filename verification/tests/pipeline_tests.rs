//! The pipeline's fixed decisions: which stages run, how the external
//! compiler's exit status is read, and the tool's constants.

use cargo_devcade::build_plan::{
    build_outcome, cross_config_name, dockerfile_name, target_triple, BuildError,
};
use cargo_devcade::cli::{plan_stages, upload_url, Action, Args};

#[test]
fn build_alone_skips_packaging_and_publishing() {
    let plan = plan_stages(&Args::new(None, Action::Build));
    assert!(!plan.run_package);
    assert!(!plan.run_publish);
}

#[test]
fn package_implies_build_only() {
    let plan = plan_stages(&Args::new(None, Action::Package));
    assert!(plan.run_package);
    assert!(!plan.run_publish);
}

#[test]
fn publish_implies_everything() {
    let plan = plan_stages(&Args::new(Some("asteroids".to_string()), Action::Publish));
    assert!(plan.run_package);
    assert!(plan.run_publish);
}

#[test]
fn only_a_clean_exit_lets_packaging_proceed() {
    assert!(build_outcome(Some(0)).is_ok());
    assert_eq!(
        build_outcome(Some(101)).unwrap_err(),
        BuildError::ToolFailed { exit_code: Some(101) }
    );
    assert_eq!(build_outcome(None).unwrap_err(), BuildError::ToolFailed { exit_code: None });
}

#[test]
fn fixed_conventions() {
    assert_eq!(target_triple(), "x86_64-unknown-linux-gnu");
    assert_eq!(dockerfile_name(), "Dockerfile.devcade");
    assert_eq!(cross_config_name(), "Cross.devcade.toml");
    assert_eq!(upload_url(), "https://devcade.csh.rit.edu/upload");
}
