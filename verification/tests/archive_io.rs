//! Decompression against archives produced by the reference tar and
//! gzip implementations, and path-suffix classification.

use std::io::Write;

use trunk_deb::{DecodeError, Entry, Unarchiver};

/// Gzips `bytes` exactly as the registry's archives are gzipped.
fn gzip(bytes: &[u8]) -> Vec<u8> {
    let mut enc = flate2::write::GzEncoder::new(Vec::new(), flate2::Compression::default());
    enc.write_all(bytes).unwrap();
    enc.finish().unwrap()
}

/// Builds a tar stream with the reference writer: regular files plus
/// one directory member.
fn fixture_tar(files: &[(&str, &[u8])], with_dir: bool) -> Vec<u8> {
    let mut builder = tar::Builder::new(Vec::new());
    if with_dir {
        let mut h = tar::Header::new_gnu();
        h.set_entry_type(tar::EntryType::Directory);
        h.set_size(0);
        h.set_mode(0o755);
        h.set_cksum();
        builder.append_data(&mut h, "somedir", std::io::empty()).unwrap();
    }
    for (path, contents) in files {
        let mut h = tar::Header::new_gnu();
        h.set_entry_type(tar::EntryType::Regular);
        h.set_size(contents.len() as u64);
        h.set_mode(0o644);
        h.set_cksum();
        builder.append_data(&mut h, path, *contents).unwrap();
    }
    builder.into_inner().unwrap()
}

#[test]
fn decompress_keeps_regular_files_in_order() {
    let tar_gz = gzip(&fixture_tar(
        &[("first.sql", b"select 1;"), ("sub/second.so", b"\x7fELFjunk")],
        false,
    ));
    let archive = Unarchiver::decompress_in_memory(&tar_gz).expect("valid archive");
    let entries = archive.all_entries();
    assert_eq!(entries.len(), 2);
    assert_eq!(entries[0].path, b"first.sql".to_vec());
    assert_eq!(entries[0].contents, b"select 1;".to_vec());
    assert_eq!(entries[1].path, b"sub/second.so".to_vec());
    assert_eq!(entries[1].contents, b"\x7fELFjunk".to_vec());
}

#[test]
fn decompress_skips_directory_members() {
    let tar_gz = gzip(&fixture_tar(&[("a.sql", b"x")], true));
    let archive = Unarchiver::decompress_in_memory(&tar_gz).expect("valid archive");
    assert_eq!(archive.all_entries().len(), 1);
    assert_eq!(archive.all_entries()[0].path, b"a.sql".to_vec());
}

#[test]
fn invalid_gzip_is_rejected() {
    let r = Unarchiver::decompress_in_memory(b"this is not gzip at all");
    assert_eq!(r.unwrap_err(), DecodeError::InvalidGzip);
}

#[test]
fn invalid_tar_is_rejected() {
    // Valid gzip around bytes that are no tar stream (shorter than one
    // header block but not empty).
    let tar_gz = gzip(&[0x55u8; 100]);
    let r = Unarchiver::decompress_in_memory(&tar_gz);
    assert_eq!(r.unwrap_err(), DecodeError::InvalidTar);
}

#[test]
fn empty_tar_decompresses_to_no_entries() {
    let mut builder = tar::Builder::new(Vec::new());
    builder.finish().unwrap();
    let tar_gz = gzip(&builder.into_inner().unwrap());
    let archive = Unarchiver::decompress_in_memory(&tar_gz).expect("valid archive");
    assert!(archive.all_entries().is_empty());
}

#[test]
fn long_member_paths_survive_a_round_trip() {
    let long_dir = "a".repeat(120);
    let path = format!("{}/file.sql", long_dir);
    let tar_gz = gzip(&fixture_tar(&[(path.as_str(), b"content")], false));
    let archive = Unarchiver::decompress_in_memory(&tar_gz).expect("valid archive");
    assert_eq!(archive.all_entries().len(), 1);
    assert_eq!(archive.all_entries()[0].path, path.as_bytes().to_vec());
}

fn entry(path: &[u8]) -> Entry {
    Entry { path: path.to_vec(), contents: Vec::new() }
}

#[test]
fn extension_takes_the_suffix_after_the_last_dot() {
    assert_eq!(entry(b"foo.sql").extension(), Some(b"sql".to_vec()));
    assert_eq!(entry(b"archive.tar.gz").extension(), Some(b"gz".to_vec()));
    assert_eq!(entry(b"dir.d/noext").extension(), None);
    assert_eq!(entry(b".bashrc").extension(), None);
    assert_eq!(entry(b"trailing.").extension(), Some(b"".to_vec()));
    assert_eq!(entry(b"sub/lib.so").extension(), Some(b"so".to_vec()));
}

#[test]
fn shared_objects_are_detected_by_suffix() {
    assert!(entry(b"pg_cron.so").is_shared_object());
    assert!(entry(b"deep/path/x.so").is_shared_object());
    assert!(!entry(b"pg_cron.sql").is_shared_object());
    assert!(!entry(b"pg_cron.sou").is_shared_object());
    assert!(!entry(b"so").is_shared_object());
}

#[test]
fn shared_objects_filters_the_archive() {
    let tar_gz = gzip(&fixture_tar(
        &[("a.sql", b"s"), ("b.so", b"x"), ("c.txt", b"t"), ("d.so", b"y")],
        false,
    ));
    let archive = Unarchiver::decompress_in_memory(&tar_gz).expect("valid archive");
    let sos = archive.shared_objects();
    let paths: Vec<&[u8]> = sos.iter().map(|e| e.path.as_slice()).collect();
    assert_eq!(paths, vec![b"b.so".as_slice(), b"d.so".as_slice()]);
}
