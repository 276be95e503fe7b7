//! The written archive, read back with the real zip reader: every file
//! comes out byte-identical, the marker is empty, and the bytes are
//! reproducible.

use cargo_devcade::archive::{write_archive, PackageWriter};
use cargo_devcade::layout::{plan_package, AssetEntry, FileSource};
use std::io::Read;

fn listing() -> Vec<AssetEntry> {
    vec![
        AssetEntry { path: "assets".to_string(), is_dir: true },
        AssetEntry { path: "assets/levels".to_string(), is_dir: true },
        AssetEntry { path: "assets/levels/1.dat".to_string(), is_dir: false },
    ]
}

fn build_bytes() -> Vec<u8> {
    let (result, _warnings) = plan_package("asteroids", Some(listing()), "/t/asteroids");
    let layout = result.unwrap();
    let level = vec![1u8, 2, 3, 4, 5];
    let exe = vec![0x7f, b'E', b'L', b'F', 9, 9];
    write_archive(layout, &vec![level, exe]).unwrap()
}

fn entry_bytes(archive_bytes: &[u8], name: &str) -> Vec<u8> {
    let cursor = std::io::Cursor::new(archive_bytes.to_vec());
    let mut zip = zip::ZipArchive::new(cursor).unwrap();
    let mut entry = zip.by_name(name).unwrap();
    let mut out = Vec::new();
    entry.read_to_end(&mut out).unwrap();
    out
}

#[test]
fn files_round_trip_byte_identical() {
    let bytes = build_bytes();
    assert_eq!(entry_bytes(&bytes, "publish/levels/1.dat"), vec![1u8, 2, 3, 4, 5]);
    assert_eq!(entry_bytes(&bytes, "publish/asteroids"), vec![0x7f, b'E', b'L', b'F', 9, 9]);
}

#[test]
fn marker_entry_is_zero_length() {
    let bytes = build_bytes();
    assert_eq!(entry_bytes(&bytes, "publish/asteroids.runtimeconfig.json"), Vec::<u8>::new());
}

#[test]
fn directory_entries_are_present_in_order() {
    let bytes = build_bytes();
    let cursor = std::io::Cursor::new(bytes);
    let mut zip = zip::ZipArchive::new(cursor).unwrap();
    let mut names: Vec<String> = Vec::new();
    for i in 0..zip.len() {
        names.push(zip.by_index(i).unwrap().name().to_string());
    }
    assert_eq!(
        names,
        vec![
            "publish/",
            "publish/levels/",
            "publish/levels/1.dat",
            "publish/asteroids",
            "publish/asteroids.runtimeconfig.json",
        ]
    );
}

#[test]
fn writing_twice_is_byte_identical() {
    assert_eq!(build_bytes(), build_bytes());
}

#[test]
fn incremental_writer_matches_the_plan() {
    let (result, _warnings) = plan_package("asteroids", Some(listing()), "/t/asteroids");
    let layout = result.unwrap();
    let level = vec![7u8, 8];
    let exe = vec![9u8];
    let mut writer = PackageWriter::start(layout);
    loop {
        let needs_data = match writer.next_source() {
            None => break,
            Some(FileSource::DiskFile { path }) => Some(path.clone()),
            Some(_) => None,
        };
        match needs_data {
            Some(path) => {
                let data = if path.ends_with("1.dat") { level.clone() } else { exe.clone() };
                writer.write_next(Some(&data)).unwrap();
            },
            None => {
                writer.write_next(None).unwrap();
            },
        }
    }
    let bytes = writer.finish().unwrap();
    assert_eq!(entry_bytes(&bytes, "publish/levels/1.dat"), vec![7u8, 8]);
    assert_eq!(entry_bytes(&bytes, "publish/asteroids"), vec![9u8]);
}
