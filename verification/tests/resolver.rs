//! Dependency-set behaviour: table lookups, canonicalization,
//! idempotent recording, and the libraries/suppliers correspondence.

use trunk_deb::{Dependencies, DependencySupplier};

fn met(package: &str) -> DependencySupplier {
    DependencySupplier::MetBy { package: package.to_string() }
}

#[test]
fn known_library_maps_to_its_package() {
    let mut d = Dependencies::new();
    d.add("libpq.so.5");
    assert_eq!(d.shared_libraries, vec!["libpq.so.5".to_string()]);
    assert_eq!(d.suppliers.len(), 1);
    assert_eq!(d.suppliers[0].0, "libpq.so.5");
    assert_eq!(d.suppliers[0].1, met("libpq5"));
}

#[test]
fn unknown_library_is_recorded_as_unknown() {
    let mut d = Dependencies::new();
    d.add("libunknown.so.9");
    assert_eq!(d.suppliers[0].1, DependencySupplier::Unknown);
    assert!(!d.suppliers[0].1.is_met());
    assert_eq!(d.suppliers[0].1.name(), "<unknown>");
    assert!(!d.all_dependencies_met());
}

#[test]
fn add_is_idempotent() {
    let mut once = Dependencies::new();
    once.add("libxml2.so.2");
    let mut twice = Dependencies::new();
    twice.add("libxml2.so.2");
    twice.add("libxml2.so.2");
    assert_eq!(once.shared_libraries, twice.shared_libraries);
    assert_eq!(once.suppliers, twice.suppliers);
}

#[test]
fn baseline_libraries_canonicalize_to_libc() {
    let mut d = Dependencies::new();
    d.add("libm.so.6");
    d.add("ld-linux-x86-64.so.2");
    d.add("ld-linux.so.2");
    assert_eq!(d.shared_libraries, vec!["libc.so.6".to_string()]);
    assert_eq!(d.suppliers.len(), 1);
    assert_eq!(d.suppliers[0].1, met("libc6"));
}

#[test]
fn suppliers_hold_exactly_the_recorded_libraries() {
    let mut d = Dependencies::new();
    d.add("libssl.so.3");
    d.add("libz.so.1");
    d.add("libssl.so.3");
    d.add("libwhatever.so.0");
    let keys: Vec<String> = d.suppliers.iter().map(|p| p.0.clone()).collect();
    assert_eq!(keys, d.shared_libraries);
    assert_eq!(
        d.shared_libraries,
        vec!["libssl.so.3".to_string(), "libz.so.1".to_string(), "libwhatever.so.0".to_string()]
    );
}

#[test]
fn all_met_only_without_unknowns() {
    let mut d = Dependencies::new();
    d.add("liblz4.so.1");
    d.add("libzstd.so.1");
    assert!(d.all_dependencies_met());
    d.add("libnot-in-table.so.1");
    assert!(!d.all_dependencies_met());
}

#[test]
fn supplier_accessors() {
    let s = met("libcurl4");
    assert!(s.is_met());
    assert_eq!(s.name(), "libcurl4");
}

#[test]
fn split_newlines_drops_empty_lines() {
    let lines = trunk_deb::split_newlines("a\n\nbb\nccc\n");
    assert_eq!(lines, vec!["a".to_string(), "bb".to_string(), "ccc".to_string()]);
    let none: Vec<String> = trunk_deb::split_newlines("\n\n");
    assert!(none.is_empty());
    assert_eq!(trunk_deb::split_newlines("solo"), vec!["solo".to_string()]);
}

#[test]
fn registry_records_each_name_once() {
    let mut r = trunk_deb::SharedLibraryRegistry::new();
    r.extend(&["libpq.so.5", "libssl.so.3"]);
    r.extend(&["libpq.so.5", "libxml2.so.2"]);
    assert_eq!(r.export(), "libpq.so.5\nlibssl.so.3\nlibxml2.so.2\n");
}

#[test]
fn find_extension_picks_the_first_match() {
    let exts = vec![
        trunk_deb::Extension {
            name: "pg_cron".to_string(),
            license: None,
            latest_version: "1.6.0".to_string(),
            description: None,
        },
        trunk_deb::Extension {
            name: "postgis".to_string(),
            license: Some("GPL-2.0".to_string()),
            latest_version: "3.4.0".to_string(),
            description: Some("spatial".to_string()),
        },
    ];
    let found = trunk_deb::find_extension(&exts, "postgis").expect("should be found");
    assert_eq!(found.latest_version, "3.4.0");
    assert!(trunk_deb::find_extension(&exts, "missing").is_none());
}

#[test]
fn raw_name_already_recorded_is_skipped_before_canonicalization() {
    // A set already holding a baseline library under its own name is
    // left entirely unchanged by re-adding that raw name.
    let mut d = Dependencies {
        shared_libraries: vec!["libm.so.6".to_string()],
        suppliers: vec![("libm.so.6".to_string(), DependencySupplier::Unknown)],
    };
    d.add("libm.so.6");
    assert_eq!(d.shared_libraries, vec!["libm.so.6".to_string()]);
    assert_eq!(d.suppliers, vec![("libm.so.6".to_string(), DependencySupplier::Unknown)]);
}

#[test]
fn baseline_alias_refreshes_the_canonical_supplier() {
    // Recording an absent baseline name recomputes the supplier stored
    // for libc, as recording always performs the table lookup.
    let mut d = Dependencies {
        shared_libraries: vec!["libc.so.6".to_string()],
        suppliers: vec![("libc.so.6".to_string(), DependencySupplier::Unknown)],
    };
    d.add("libm.so.6");
    assert_eq!(d.shared_libraries, vec!["libc.so.6".to_string()]);
    assert_eq!(d.suppliers, vec![("libc.so.6".to_string(), met("libc6"))]);
}
