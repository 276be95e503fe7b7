//! Target resolution: exactly one executable target is selected, in every
//! enumeration order; zero or several matches fail loudly.

use cargo_devcade::path_finder::{find_package, validate_name, PackageMeta, ResolveError, TargetMeta};
use cargo_devcade::warning::Warning;

fn bin_target(name: &str) -> TargetMeta {
    TargetMeta { name: name.to_string(), kinds: vec!["bin".to_string()] }
}

fn lib_target(name: &str) -> TargetMeta {
    TargetMeta { name: name.to_string(), kinds: vec!["lib".to_string()] }
}

fn package(id: &str, targets: Vec<TargetMeta>) -> PackageMeta {
    PackageMeta {
        id: id.to_string(),
        manifest_path: format!("/ws/{}/Cargo.toml", id),
        default_run: None,
        features: Vec::new(),
        targets,
    }
}

#[test]
fn single_bin_target_resolves() {
    let packages = vec![package("game", vec![bin_target("asteroids"), lib_target("core")])];
    let members = vec!["game".to_string()];
    let info = find_package(&packages, &members, &None, "/ws/target").unwrap();
    assert_eq!(info.name, "asteroids");
    assert_eq!(info.target_directory, "/ws/target");
    assert_eq!(info.manifest_path, "/ws/game/Cargo.toml");
    assert!(!info.has_devcade_feature);
}

#[test]
fn devcade_feature_is_reported() {
    let mut p = package("game", vec![bin_target("asteroids")]);
    p.features = vec!["devcade".to_string(), "other".to_string()];
    let members = vec!["game".to_string()];
    let info = find_package(&vec![p], &members, &None, "/t").unwrap();
    assert!(info.has_devcade_feature);
}

#[test]
fn zero_matches_is_an_error() {
    let packages = vec![package("game", vec![lib_target("core")])];
    let members = vec!["game".to_string()];
    let err = find_package(&packages, &members, &None, "/t").unwrap_err();
    assert_eq!(err, ResolveError::NoMatchingTarget);
}

#[test]
fn two_matches_are_ambiguous() {
    let packages = vec![package("game", vec![bin_target("a"), bin_target("b")])];
    let members = vec!["game".to_string()];
    let err = find_package(&packages, &members, &None, "/t").unwrap_err();
    assert_eq!(err, ResolveError::AmbiguousTarget { count: 2 });
}

#[test]
fn explicit_bin_disambiguates() {
    let packages = vec![package("game", vec![bin_target("a"), bin_target("b")])];
    let members = vec!["game".to_string()];
    let info = find_package(&packages, &members, &Some("b".to_string()), "/t").unwrap();
    assert_eq!(info.name, "b");
}

#[test]
fn default_run_disambiguates() {
    let mut p = package("game", vec![bin_target("a"), bin_target("b")]);
    p.default_run = Some("a".to_string());
    let members = vec!["game".to_string()];
    let info = find_package(&vec![p], &members, &None, "/t").unwrap();
    assert_eq!(info.name, "a");
}

#[test]
fn non_workspace_members_are_ignored() {
    let packages = vec![
        package("dep", vec![bin_target("helper")]),
        package("game", vec![bin_target("asteroids")]),
    ];
    let members = vec!["game".to_string()];
    let info = find_package(&packages, &members, &None, "/t").unwrap();
    assert_eq!(info.name, "asteroids");
}

#[test]
fn resolution_failure_is_order_independent() {
    let members = vec!["one".to_string(), "two".to_string()];
    let fwd = find_package(
        &vec![package("one", vec![bin_target("a")]), package("two", vec![bin_target("b")])],
        &members,
        &None,
        "/t",
    )
    .unwrap_err();
    let rev = find_package(
        &vec![package("two", vec![bin_target("b")]), package("one", vec![bin_target("a")])],
        &members,
        &None,
        "/t",
    )
    .unwrap_err();
    assert_eq!(fwd, ResolveError::AmbiguousTarget { count: 2 });
    assert_eq!(rev, ResolveError::AmbiguousTarget { count: 2 });
}

#[test]
fn underscore_in_name_warns() {
    assert_eq!(validate_name("my_game"), Some(Warning::UnderscoreInName));
}

#[test]
fn clean_name_passes() {
    assert_eq!(validate_name("asteroids"), None);
}
