//! The whole pipeline on a realistic fixture: a gzipped tar holding a
//! compiled shared object whose dynamic section declares its needed
//! libraries, resolved and packaged end to end, plus batch aggregation.

use std::io::{Read, Write};

use trunk_deb::{
    BuildError, DecodeError, Dependencies, DependencySupplier, Extension, PackageError,
    package_from_bytes, summarize_batch,
};

fn push_u16(v: &mut Vec<u8>, x: u16) {
    v.extend_from_slice(&x.to_le_bytes());
}

fn push_u32(v: &mut Vec<u8>, x: u32) {
    v.extend_from_slice(&x.to_le_bytes());
}

fn push_u64(v: &mut Vec<u8>, x: u64) {
    v.extend_from_slice(&x.to_le_bytes());
}

/// A minimal 64-bit little-endian ELF shared object whose dynamic
/// section declares `needed` as its needed libraries.
fn minimal_elf(needed: &[&str]) -> Vec<u8> {
    // String table: a leading NUL, then each name NUL-terminated.
    let mut strtab: Vec<u8> = vec![0];
    let mut name_offsets = Vec::new();
    for name in needed {
        name_offsets.push(strtab.len() as u64);
        strtab.extend_from_slice(name.as_bytes());
        strtab.push(0);
    }
    let ehsize = 64u64;
    let phentsize = 56u64;
    let phnum = 2u64;
    let str_off = ehsize + phentsize * phnum;
    let mut dyn_off = str_off + strtab.len() as u64;
    dyn_off += (8 - dyn_off % 8) % 8;
    let dyn_size = (needed.len() as u64 + 3) * 16;
    let file_size = dyn_off + dyn_size;

    let mut elf = Vec::new();
    // ELF header.
    elf.extend_from_slice(&[0x7f, b'E', b'L', b'F', 2, 1, 1, 0, 0, 0, 0, 0, 0, 0, 0, 0]);
    push_u16(&mut elf, 3); // ET_DYN
    push_u16(&mut elf, 62); // EM_X86_64
    push_u32(&mut elf, 1);
    push_u64(&mut elf, 0); // entry
    push_u64(&mut elf, ehsize); // phoff
    push_u64(&mut elf, 0); // shoff
    push_u32(&mut elf, 0); // flags
    push_u16(&mut elf, ehsize as u16);
    push_u16(&mut elf, phentsize as u16);
    push_u16(&mut elf, phnum as u16);
    push_u16(&mut elf, 64); // shentsize
    push_u16(&mut elf, 0); // shnum
    push_u16(&mut elf, 0); // shstrndx
    // PT_LOAD covering the whole file at vaddr 0.
    push_u32(&mut elf, 1);
    push_u32(&mut elf, 4);
    push_u64(&mut elf, 0);
    push_u64(&mut elf, 0);
    push_u64(&mut elf, 0);
    push_u64(&mut elf, file_size);
    push_u64(&mut elf, file_size);
    push_u64(&mut elf, 0x1000);
    // PT_DYNAMIC.
    push_u32(&mut elf, 2);
    push_u32(&mut elf, 4);
    push_u64(&mut elf, dyn_off);
    push_u64(&mut elf, dyn_off);
    push_u64(&mut elf, dyn_off);
    push_u64(&mut elf, dyn_size);
    push_u64(&mut elf, dyn_size);
    push_u64(&mut elf, 8);
    // String table, padded to the dynamic section's alignment.
    elf.extend_from_slice(&strtab);
    while (elf.len() as u64) < dyn_off {
        elf.push(0);
    }
    // Dynamic entries: DT_NEEDED*, DT_STRTAB, DT_STRSZ, DT_NULL.
    for off in &name_offsets {
        push_u64(&mut elf, 1);
        push_u64(&mut elf, *off);
    }
    push_u64(&mut elf, 5);
    push_u64(&mut elf, str_off);
    push_u64(&mut elf, 10);
    push_u64(&mut elf, strtab.len() as u64);
    push_u64(&mut elf, 0);
    push_u64(&mut elf, 0);
    assert_eq!(elf.len() as u64, file_size);
    elf
}

fn gzip(bytes: &[u8]) -> Vec<u8> {
    let mut enc = flate2::write::GzEncoder::new(Vec::new(), flate2::Compression::default());
    enc.write_all(bytes).unwrap();
    enc.finish().unwrap()
}

fn gunzip(bytes: &[u8]) -> Vec<u8> {
    let mut out = Vec::new();
    flate2::read::GzDecoder::new(bytes).read_to_end(&mut out).unwrap();
    out
}

/// A gzipped tar archive of the given files.
fn archive_fixture(files: &[(&str, &[u8])]) -> Vec<u8> {
    let mut builder = tar::Builder::new(Vec::new());
    for (path, contents) in files {
        let mut h = tar::Header::new_gnu();
        h.set_entry_type(tar::EntryType::Regular);
        h.set_size(contents.len() as u64);
        h.set_mode(0o644);
        h.set_cksum();
        builder.append_data(&mut h, path, *contents).unwrap();
    }
    gzip(&builder.into_inner().unwrap())
}

fn pg_cron() -> Extension {
    Extension {
        name: "pg_cron".to_string(),
        license: None,
        latest_version: "1.6.0".to_string(),
        description: Some("Job scheduler".to_string()),
    }
}

#[test]
fn elf_dependencies_are_resolved_from_the_archive() {
    let elf = minimal_elf(&["libpq.so.5", "libunknown.so.9"]);
    let tar_gz = archive_fixture(&[("pg_cron.so", &elf), ("pg_cron.sql", b"select;")]);
    let fd = Dependencies::decompress_archive(pg_cron(), &tar_gz).expect("analysis succeeds");
    assert_eq!(
        fd.dependencies.shared_libraries,
        vec!["libpq.so.5".to_string(), "libunknown.so.9".to_string()]
    );
    assert_eq!(
        fd.dependencies.suppliers[0],
        (
            "libpq.so.5".to_string(),
            DependencySupplier::MetBy { package: "libpq5".to_string() }
        )
    );
    assert_eq!(
        fd.dependencies.suppliers[1],
        ("libunknown.so.9".to_string(), DependencySupplier::Unknown)
    );
}

#[test]
fn unresolved_elf_dependency_fails_the_package() {
    let elf = minimal_elf(&["libpq.so.5", "libunknown.so.9"]);
    let tar_gz = archive_fixture(&[("pg_cron.so", &elf), ("pg_cron.sql", b"select;")]);
    match package_from_bytes(pg_cron(), &tar_gz) {
        Err(PackageError::Build(BuildError::UnresolvedDependencies { extension })) => {
            assert_eq!(extension, "pg_cron");
        }
        other => panic!("expected the unresolved gate to refuse, got {:?}", other),
    }
}

#[test]
fn resolved_archive_packages_end_to_end() {
    let elf = minimal_elf(&["libpq.so.5"]);
    let tar_gz = archive_fixture(&[("pg_cron.so", &elf), ("pg_cron.sql", b"select;")]);
    let deb = package_from_bytes(pg_cron(), &tar_gz).expect("build succeeds");

    let mut archive = ar::Archive::new(&deb[..]);
    let mut names = Vec::new();
    let mut members = Vec::new();
    while let Some(entry) = archive.next_entry() {
        let mut entry = entry.unwrap();
        names.push(String::from_utf8(entry.header().identifier().to_vec()).unwrap());
        let mut data = Vec::new();
        entry.read_to_end(&mut data).unwrap();
        members.push(data);
    }
    assert_eq!(names, vec!["debian-binary", "control.tar.gz", "data.tar.gz"]);

    let control_tar = gunzip(&members[1]);
    let mut control_text = String::new();
    for entry in tar::Archive::new(&control_tar[..]).entries().unwrap() {
        entry.unwrap().read_to_string(&mut control_text).unwrap();
    }
    assert!(control_text.contains("Package: pg_cron\n"));
    assert!(control_text.contains("Version: 1.6.0\n"));
    assert!(control_text.contains("Depends: libpq5\n"));

    let data_tar = gunzip(&members[2]);
    let mut paths = Vec::new();
    for entry in tar::Archive::new(&data_tar[..]).entries().unwrap() {
        let entry = entry.unwrap();
        if entry.header().entry_type() == tar::EntryType::Regular {
            paths.push(entry.path().unwrap().to_string_lossy().into_owned());
        }
    }
    assert_eq!(
        paths,
        vec![
            ".//usr/share/postgresql/15/lib/pg_cron.so".to_string(),
            ".//usr/share/postgresql/15/pg_cron.sql".to_string(),
        ]
    );
}

#[test]
fn non_elf_shared_object_is_skipped_not_fatal() {
    let tar_gz = archive_fixture(&[("weird.so", b"not an object format at all"), ("x.sql", b"select;")]);
    let fd = Dependencies::decompress_archive(pg_cron(), &tar_gz).expect("skipped, not fatal");
    assert!(fd.dependencies.shared_libraries.is_empty());
}

#[test]
fn bad_download_bytes_fail_with_a_decode_error() {
    match package_from_bytes(pg_cron(), b"junk") {
        Err(PackageError::Decode(DecodeError::InvalidGzip)) => {}
        other => panic!("expected a gzip decode failure, got {:?}", other),
    }
}

#[test]
fn one_failure_leaves_the_other_tasks_untouched() {
    let good = archive_fixture(&[("a.sql", b"select;")]);
    let first = package_from_bytes(
        Extension {
            name: "first".to_string(),
            license: None,
            latest_version: "1".to_string(),
            description: None,
        },
        &good,
    );
    let second: Result<Vec<u8>, PackageError> =
        Err(PackageError::Download { message: "registry timed out".to_string() });
    let third = package_from_bytes(
        Extension {
            name: "third".to_string(),
            license: None,
            latest_version: "1".to_string(),
            description: None,
        },
        &good,
    );
    assert!(first.is_ok());
    assert!(third.is_ok());

    let outcomes = vec![
        ("first".to_string(), first.map(|_| ())),
        ("second".to_string(), second.map(|_| ())),
        ("third".to_string(), third.map(|_| ())),
    ];
    let summary = summarize_batch(outcomes);
    assert_eq!(summary.succeeded, 2);
    assert_eq!(summary.failed.len(), 1);
    assert_eq!(summary.failed[0].0, "second");
    assert_eq!(
        summary.failed[0].1,
        PackageError::Download { message: "registry timed out".to_string() }
    );
}
