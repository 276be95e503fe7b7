//! The archive layout: path rewriting, sorted order-independent bundling,
//! and the write-once package plan.

use cargo_devcade::layout::{bundle_assets, plan_package, AssetEntry, FileSource, LayoutError};
use cargo_devcade::paths::{
    archive_file_name, marker_entry_path, publish_path, relativize, sibling_banner_name,
    sibling_icon_name,
};
use cargo_devcade::warning::Warning;

fn file(path: &str) -> AssetEntry {
    AssetEntry { path: path.to_string(), is_dir: false }
}

fn dir(path: &str) -> AssetEntry {
    AssetEntry { path: path.to_string(), is_dir: true }
}

#[test]
fn relativize_strips_the_root() {
    assert_eq!(relativize("assets", "assets/levels/1.dat").unwrap(), "levels/1.dat");
    assert_eq!(relativize("assets", "assets/a").unwrap(), "a");
}

#[test]
fn relativize_rejects_the_root_itself_and_strangers() {
    assert_eq!(relativize("assets", "assets"), None);
    assert_eq!(relativize("assets", "assetsx/a"), None);
    assert_eq!(relativize("assets", "other/a"), None);
    assert_eq!(relativize("assets", "asse"), None);
}

#[test]
fn naming_conventions() {
    assert_eq!(publish_path("levels/1.dat"), "publish/levels/1.dat");
    assert_eq!(marker_entry_path("asteroids"), "publish/asteroids.runtimeconfig.json");
    assert_eq!(archive_file_name("asteroids"), "asteroids-devcade.zip");
    assert_eq!(sibling_icon_name("asteroids"), "asteroids-icon.png");
    assert_eq!(sibling_banner_name("asteroids"), "asteroids-banner.png");
}

#[test]
fn bundling_mirrors_the_tree_under_publish() {
    let listing = vec![dir("assets"), dir("assets/levels"), file("assets/levels/1.dat")];
    let out = bundle_assets(listing);
    assert_eq!(out.len(), 2);
    assert_eq!(out[0].archive_path, "publish/levels");
    assert!(matches!(out[0].source, FileSource::Directory));
    assert_eq!(out[1].archive_path, "publish/levels/1.dat");
    match &out[1].source {
        FileSource::DiskFile { path } => assert_eq!(path, "assets/levels/1.dat"),
        _ => panic!("expected a disk file"),
    }
}

#[test]
fn bundling_is_enumeration_order_independent() {
    let fwd = vec![
        dir("assets"),
        dir("assets/levels"),
        file("assets/levels/1.dat"),
        file("assets/readme.txt"),
    ];
    let rev = vec![
        file("assets/readme.txt"),
        file("assets/levels/1.dat"),
        dir("assets/levels"),
        dir("assets"),
    ];
    let a = bundle_assets(fwd);
    let b = bundle_assets(rev);
    assert_eq!(a.len(), b.len());
    for i in 0..a.len() {
        assert_eq!(a[i].archive_path, b[i].archive_path);
    }
}

#[test]
fn directories_are_written_before_their_contents() {
    let listing = vec![file("assets/levels/1.dat"), dir("assets/levels"), dir("assets")];
    let out = bundle_assets(listing);
    assert_eq!(out[0].archive_path, "publish/levels");
    assert_eq!(out[1].archive_path, "publish/levels/1.dat");
}

#[test]
fn plan_holds_marker_assets_executable_and_config_stub() {
    let listing = vec![dir("assets"), dir("assets/levels"), file("assets/levels/1.dat")];
    let (result, warnings) =
        plan_package("asteroids", Some(listing), "/t/release/asteroids");
    assert!(warnings.is_empty());
    let layout = result.unwrap();
    assert_eq!(layout.len(), 5);
    assert_eq!(layout.path_at(0).as_str(), "publish");
    assert!(matches!(layout.source_at(0), FileSource::Directory));
    assert_eq!(layout.path_at(1).as_str(), "publish/levels");
    assert_eq!(layout.path_at(2).as_str(), "publish/levels/1.dat");
    assert_eq!(layout.path_at(3).as_str(), "publish/asteroids");
    match layout.source_at(3) {
        FileSource::DiskFile { path } => assert_eq!(path, "/t/release/asteroids"),
        _ => panic!("expected the executable as a disk file"),
    }
    assert_eq!(layout.path_at(4).as_str(), "publish/asteroids.runtimeconfig.json");
    match layout.source_at(4) {
        FileSource::GeneratedImage { bytes } => assert!(bytes.is_empty()),
        _ => panic!("expected the zero-length marker"),
    }
}

#[test]
fn missing_assets_directory_warns_and_contributes_nothing() {
    let (result, warnings) = plan_package("asteroids", None, "/t/release/asteroids");
    assert_eq!(warnings, vec![Warning::MissingAssetsDir]);
    let layout = result.unwrap();
    assert_eq!(layout.len(), 3);
    assert_eq!(layout.path_at(0).as_str(), "publish");
    assert_eq!(layout.path_at(1).as_str(), "publish/asteroids");
    assert_eq!(layout.path_at(2).as_str(), "publish/asteroids.runtimeconfig.json");
}

#[test]
fn a_path_claimed_twice_is_refused() {
    let listing = vec![dir("assets"), file("assets/asteroids")];
    let (result, _warnings) = plan_package("asteroids", Some(listing), "/t/release/asteroids");
    match result {
        Err(LayoutError::DuplicateArchivePath { path }) => {
            assert_eq!(path, "publish/asteroids");
        },
        _ => panic!("expected the duplicate path to be refused"),
    }
}

#[test]
fn a_recorded_name_claimed_twice_is_refused() {
    // A directory planned at `publish/x` is recorded as `publish/x/` in the
    // archive, so a file planned at `publish/x/` lands on the same name.
    let listing = vec![dir("assets"), dir("assets/x"), file("assets/x/")];
    let (result, _warnings) = plan_package("asteroids", Some(listing), "/t/asteroids");
    match result {
        Err(LayoutError::DuplicateArchivePath { path }) => assert_eq!(path, "publish/x/"),
        _ => panic!("expected the recorded-name collision to be refused"),
    }
}

#[test]
fn planning_twice_gives_identical_entry_lists() {
    let listing = || vec![dir("assets"), file("assets/b.dat"), file("assets/a.dat")];
    let (r1, _) = plan_package("asteroids", Some(listing()), "/t/x");
    let (r2, _) = plan_package("asteroids", Some(listing()), "/t/x");
    let l1 = r1.unwrap();
    let l2 = r2.unwrap();
    assert_eq!(l1.len(), l2.len());
    for i in 0..l1.len() {
        assert_eq!(l1.path_at(i), l2.path_at(i));
    }
}
