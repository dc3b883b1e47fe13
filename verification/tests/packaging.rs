//! Package building: the dependency gate, member order, deterministic
//! bytes, install-path routing, and the control member's text.

use std::io::Read;

use trunk_deb::{
    Archive, BuildError, DebPackager, Dependencies, DependencySupplier, Entry, Extension,
    FetchData,
};

fn extension() -> Extension {
    Extension {
        name: "pg_cron".to_string(),
        license: Some("PostgreSQL".to_string()),
        latest_version: "1.6.0".to_string(),
        description: Some("Run periodic jobs in PostgreSQL".to_string()),
    }
}

fn met_deps(pairs: &[(&str, &str)]) -> Dependencies {
    Dependencies {
        shared_libraries: pairs.iter().map(|p| p.0.to_string()).collect(),
        suppliers: pairs
            .iter()
            .map(|p| (p.0.to_string(), DependencySupplier::MetBy { package: p.1.to_string() }))
            .collect(),
    }
}

fn entry(path: &[u8], contents: &[u8]) -> Entry {
    Entry { path: path.to_vec(), contents: contents.to_vec() }
}

fn fetch_data(deps: Dependencies, entries: Vec<Entry>) -> FetchData {
    FetchData { extension: extension(), dependencies: deps, archive: Archive { entries } }
}

/// The three ar members of a built package, as (name, bytes) pairs.
fn ar_members(deb: &[u8]) -> Vec<(String, Vec<u8>)> {
    let mut archive = ar::Archive::new(deb);
    let mut out = Vec::new();
    while let Some(entry) = archive.next_entry() {
        let mut entry = entry.unwrap();
        let name = String::from_utf8(entry.header().identifier().to_vec()).unwrap();
        let mut data = Vec::new();
        entry.read_to_end(&mut data).unwrap();
        out.push((name, data));
    }
    out
}

fn gunzip(bytes: &[u8]) -> Vec<u8> {
    let mut out = Vec::new();
    flate2::read::GzDecoder::new(bytes).read_to_end(&mut out).unwrap();
    out
}

/// All members of a tar stream: (path, entry type byte, mode, contents).
fn tar_members(bytes: &[u8]) -> Vec<(String, u8, u32, Vec<u8>)> {
    let mut archive = tar::Archive::new(bytes);
    let mut out = Vec::new();
    for entry in archive.entries().unwrap() {
        let mut entry = entry.unwrap();
        let path = entry.path().unwrap().to_string_lossy().into_owned();
        let tf = entry.header().entry_type().as_byte();
        let mode = entry.header().mode().unwrap();
        let mut data = Vec::new();
        entry.read_to_end(&mut data).unwrap();
        out.push((path, tf, mode, data));
    }
    out
}

#[test]
fn unresolved_dependency_refuses_the_build() {
    let mut deps = met_deps(&[("libpq.so.5", "libpq5")]);
    deps.shared_libraries.push("libunknown.so.9".to_string());
    deps.suppliers.push(("libunknown.so.9".to_string(), DependencySupplier::Unknown));
    let r = DebPackager::build_deb(fetch_data(deps, vec![entry(b"pg_cron.sql", b"select;")]));
    match r {
        Err(BuildError::UnresolvedDependencies { extension }) => {
            assert_eq!(extension, "pg_cron");
        }
        other => panic!("expected an unresolved-dependencies failure, got {:?}", other),
    }
}

#[test]
fn fully_met_dependencies_build_successfully() {
    let deps = met_deps(&[("libpq.so.5", "libpq5")]);
    let r = DebPackager::build_deb(fetch_data(deps, vec![entry(b"pg_cron.sql", b"select;")]));
    assert!(r.is_ok());
}

#[test]
fn identical_input_builds_identical_bytes() {
    let build = || {
        DebPackager::build_deb(fetch_data(
            met_deps(&[("libpq.so.5", "libpq5"), ("libssl.so.3", "libssl3")]),
            vec![entry(b"pg_cron.sql", b"select;"), entry(b"pg_cron.so", b"\x7fELF....")],
        ))
        .unwrap()
    };
    assert_eq!(build(), build());
}

#[test]
fn ar_members_come_in_the_fixed_order() {
    let deb = DebPackager::build_deb(fetch_data(
        met_deps(&[("libpq.so.5", "libpq5")]),
        vec![entry(b"pg_cron.sql", b"select;")],
    ))
    .unwrap();
    let members = ar_members(&deb);
    let names: Vec<&str> = members.iter().map(|m| m.0.as_str()).collect();
    assert_eq!(names, vec!["debian-binary", "control.tar.gz", "data.tar.gz"]);
    assert_eq!(members[0].1, b"2.0\n".to_vec());
}

#[test]
fn ar_headers_carry_fixed_metadata() {
    let deb = DebPackager::build_deb(fetch_data(met_deps(&[]), vec![])).unwrap();
    let mut archive = ar::Archive::new(&deb[..]);
    while let Some(entry) = archive.next_entry() {
        let entry = entry.unwrap();
        assert_eq!(entry.header().mtime(), 0);
        assert_eq!(entry.header().uid(), 0);
        assert_eq!(entry.header().gid(), 0);
        assert_eq!(entry.header().mode(), 0o644);
    }
}

#[test]
fn entries_route_to_their_install_paths() {
    let deb = DebPackager::build_deb(fetch_data(
        met_deps(&[]),
        vec![
            entry(b"foo.sql", b"sql"),
            entry(b"bar.so", b"so"),
            entry(b"baz.bc", b"bc"),
            entry(b"meta.json", b"{}"),
            entry(b"LICENSE", b"mit"),
        ],
    ))
    .unwrap();
    let members = ar_members(&deb);
    let data = tar_members(&gunzip(&members[2].1));
    let files: Vec<(&str, &[u8])> = data
        .iter()
        .filter(|m| m.1 == b'0')
        .map(|m| (m.0.as_str(), m.3.as_slice()))
        .collect();
    assert_eq!(
        files,
        vec![
            (".//usr/share/postgresql/15/foo.sql", b"sql".as_slice()),
            (".//usr/share/postgresql/15/lib/bar.so", b"so".as_slice()),
            (".//usr/lib/postgresql/15/lib/baz.bc", b"bc".as_slice()),
        ]
    );
    for m in &data {
        assert!(!m.0.contains("json"), "json entries are dropped");
        assert!(!m.0.contains("LICENSE"), "unclassified entries are dropped");
    }
}

#[test]
fn ancestor_directories_are_created_once_with_mode_755() {
    let deb = DebPackager::build_deb(fetch_data(
        met_deps(&[]),
        vec![entry(b"a.sql", b"1"), entry(b"b.sql", b"2"), entry(b"c.so", b"3")],
    ))
    .unwrap();
    let members = ar_members(&deb);
    let data = tar_members(&gunzip(&members[2].1));
    let dirs: Vec<&str> = data.iter().filter(|m| m.1 == b'5').map(|m| m.0.as_str()).collect();
    assert_eq!(
        dirs,
        vec![
            "./usr",
            "./usr/share",
            "./usr/share/postgresql",
            "./usr/share/postgresql/15",
            "./usr/share/postgresql/15/lib",
        ]
    );
    for m in &data {
        let expected = if m.1 == b'5' { 0o755 } else { 0o644 };
        assert_eq!(m.2, expected, "mode of {}", m.0);
        assert_eq!(m.0.matches('\u{0}').count(), 0);
    }
}

#[test]
fn control_member_holds_the_full_control_text() {
    let deb = DebPackager::build_deb(fetch_data(
        met_deps(&[("libpq.so.5", "libpq5"), ("libssl.so.3", "libssl3")]),
        vec![entry(b"pg_cron.sql", b"select;")],
    ))
    .unwrap();
    let members = ar_members(&deb);
    let control = tar_members(&gunzip(&members[1].1));
    assert_eq!(control.len(), 1);
    assert_eq!(control[0].0, "control");
    let text = String::from_utf8(control[0].3.clone()).unwrap();
    assert_eq!(
        text,
        "Package: pg_cron\n\
         Section: database\n\
         Architecture: amd64\n\
         Version: 1.6.0\n\
         Description: Run periodic jobs in PostgreSQL\n\
         Homepage: https://pgt.dev/extensions/pg_cron\n\
         Depends: libpq5, libssl3\n"
    );
}

#[test]
fn control_text_without_dependencies_has_no_depends_line() {
    let deb = DebPackager::build_deb(fetch_data(met_deps(&[]), vec![])).unwrap();
    let members = ar_members(&deb);
    let control = tar_members(&gunzip(&members[1].1));
    let text = String::from_utf8(control[0].3.clone()).unwrap();
    assert!(!text.contains("Depends"));
    assert!(text.ends_with("Homepage: https://pgt.dev/extensions/pg_cron\n"));
}

#[test]
fn long_target_paths_round_trip_through_the_long_name_member() {
    let long = format!("{}/file.sql", "d".repeat(120));
    let deb = DebPackager::build_deb(fetch_data(
        met_deps(&[]),
        vec![entry(long.as_bytes(), b"content")],
    ))
    .unwrap();
    let members = ar_members(&deb);
    let data = tar_members(&gunzip(&members[2].1));
    let expected = format!(".//usr/share/postgresql/15/{}", long);
    assert!(
        data.iter().any(|m| m.1 == b'0' && m.0 == expected && m.3 == b"content"),
        "long path should survive: {:?}",
        data.iter().map(|m| &m.0).collect::<Vec<_>>()
    );
}

#[test]
fn tar_archive_builder_round_trips_through_the_reference_reader() {
    let mut t = trunk_deb::TarArchive::new();
    t.add_entry(&entry(b"inner", b"payload"), b"./a/b/c.txt");
    t.add_entry(&entry(b"inner", b"second"), b"./a/b/d.txt");
    let bytes = t.into_bytes();
    let members = tar_members(&bytes);
    let listing: Vec<(&str, u8)> = members.iter().map(|m| (m.0.as_str(), m.1)).collect();
    assert_eq!(
        listing,
        vec![("./a", b'5'), ("./a/b", b'5'), ("./a/b/c.txt", b'0'), ("./a/b/d.txt", b'0')]
    );
    assert_eq!(members[2].3, b"payload".to_vec());
    assert_eq!(members[3].3, b"second".to_vec());
}

#[test]
fn deb_package_builder_writes_parseable_ar() {
    let mut p = trunk_deb::DebPackage::new();
    p.add_file(b"debian-binary", b"2.0\n");
    p.add_file(b"odd", b"xyz");
    let bytes = p.into_bytes();
    let members = ar_members(&bytes);
    assert_eq!(members.len(), 2);
    assert_eq!(members[0].0, "debian-binary");
    assert_eq!(members[0].1, b"2.0\n".to_vec());
    assert_eq!(members[1].0, "odd");
    assert_eq!(members[1].1, b"xyz".to_vec());
}
