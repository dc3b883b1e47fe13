//! Assembly of a Debian binary package from one extension's fetched
//! data.
//!
//! A `.deb` is an ar archive of exactly three members, in this order:
//! `debian-binary` (the literal text `2.0` and a newline), the gzipped
//! control tar, and the gzipped data tar.  Packaging refuses to proceed
//! while any discovered dependency lacks a known supplying package.

use vstd::prelude::*;
use crate::ar_build::DebPackage;
use crate::ar_build::spec_ar_magic;
use crate::ar_build::spec_ar_member;
use crate::compress::gzip_bytes;
use crate::compress::gzip_of;
use crate::dependencies::Dependencies;
use crate::dependencies::FetchData;
use crate::extension::Extension;
use crate::tar_build::TarArchive;
use crate::tar_build::push_bytes;
use crate::tar_build::spec_add_entry;
use crate::tar_build::spec_fill;
use crate::tar_build::spec_member;
use crate::tar_build::tar_single;
use crate::unarchiver::Archive;
use crate::unarchiver::Entry;
use crate::unarchiver::EntryView;
use crate::unarchiver::spec_extension_of;
use crate::util::bytes_eq;

verus! {

use vstd::string::StrSliceExecFns;
use vstd::string::StringExecFns;
use vstd::string::StringSliceAdditionalSpecFns;
use vstd::utf8::encode_utf8;

/// Why a package could not be built.
#[derive(Clone, Debug, PartialEq, Eq)]
pub enum BuildError {
    /// At least one discovered dependency has no known supplying
    /// package; the field names the extension that was refused.
    UnresolvedDependencies { extension: String },
    /// A compressed member outgrew the ar header's decimal size field.
    Encode,
}

// ---------------------------------------------------------------------
// Control member
// ---------------------------------------------------------------------

/// An optional text field, shown empty when absent.
pub open spec fn spec_opt_text(o: Option<String>) -> Seq<char> {
    match o {
        Some(s) => s@,
        None => Seq::<char>::empty(),
    }
}

/// How one supplier appears on the Depends line.
pub open spec fn spec_supplier_shown(p: Option<Seq<char>>) -> Seq<char> {
    match p {
        Some(pkg) => pkg,
        None => "<unknown>"@,
    }
}

/// The supplier names joined with comma separators, in recorded order.
pub open spec fn spec_join_suppliers(sup: Seq<(Seq<char>, Option<Seq<char>>)>) -> Seq<char>
    decreases sup.len(),
{
    if sup.len() == 0 {
        Seq::<char>::empty()
    } else if sup.len() == 1 {
        spec_supplier_shown(sup.first().1)
    } else {
        spec_join_suppliers(sup.drop_last()) + ", "@ + spec_supplier_shown(sup.last().1)
    }
}

/// The Depends line, present only when at least one dependency exists.
pub open spec fn spec_depends_block(sup: Seq<(Seq<char>, Option<Seq<char>>)>) -> Seq<char> {
    if sup.len() == 0 {
        Seq::<char>::empty()
    } else {
        "Depends: "@ + spec_join_suppliers(sup) + "\n"@
    }
}

/// The whole control file text.
pub open spec fn spec_control_text(ext: Extension, sup: Seq<(Seq<char>, Option<Seq<char>>)>) -> Seq<
    char,
> {
    "Package: "@ + ext.name@ + "\n"@ + "Section: database\n"@ + "Architecture: amd64\n"@
        + "Version: "@ + ext.latest_version@ + "\n"@ + "Description: "@ + spec_opt_text(
        ext.description,
    ) + "\n"@ + "Homepage: https://pgt.dev/extensions/"@ + ext.name@ + "\n"@ + spec_depends_block(
        sup,
    )
}

/// The single-member tar stream that carries the control file.
pub open spec fn spec_control_tar(ext: Extension, sup: Seq<(Seq<char>, Option<Seq<char>>)>) -> Seq<
    u8,
> {
    spec_member(encode_utf8("control"@), 0x30, 0o644, encode_utf8(spec_control_text(ext, sup)))
        + spec_fill(1024, 0)
}

// ---------------------------------------------------------------------
// Data member
// ---------------------------------------------------------------------

/// Where an entry lands in the installed filesystem, by its path's
/// file-extension suffix; `None` for entries that are not packaged.
pub open spec fn spec_target_path(path: Seq<u8>) -> Option<Seq<u8>> {
    match spec_extension_of(path) {
        Some(ext) => if ext == encode_utf8("control"@) || ext == encode_utf8("sql"@) {
            Some(encode_utf8(".//usr/share/postgresql/15/"@) + path)
        } else if ext == encode_utf8("so"@) {
            Some(encode_utf8(".//usr/share/postgresql/15/lib/"@) + path)
        } else if ext == encode_utf8("bc"@) {
            Some(encode_utf8(".//usr/lib/postgresql/15/lib/"@) + path)
        } else {
            None
        },
        None => None,
    }
}

/// The data tar's directory set and stream after packing `es` starting
/// from `st`: each entry with a target is appended there, everything
/// else is dropped.
pub open spec fn spec_pack_entries(st: (Seq<Seq<u8>>, Seq<u8>), es: Seq<EntryView>) -> (
    Seq<Seq<u8>>,
    Seq<u8>,
)
    decreases es.len(),
{
    if es.len() == 0 {
        st
    } else {
        let e = es.first();
        let st1 = match spec_target_path(e.path) {
            None => st,
            Some(target) => spec_add_entry(st.0, st.1, target, e.contents),
        };
        spec_pack_entries(st1, es.drop_first())
    }
}

/// The finished data tar stream for an archive's entries.
pub open spec fn spec_data_tar(archive: Seq<EntryView>) -> Seq<u8> {
    spec_pack_entries((Seq::<Seq<u8>>::empty(), Seq::<u8>::empty()), archive).1 + spec_fill(
        1024,
        0,
    )
}

// ---------------------------------------------------------------------
// The whole package
// ---------------------------------------------------------------------

/// Every byte of the `.deb` archive built for `ext`: the ar magic, then
/// the three members `debian-binary`, `control.tar.gz` and
/// `data.tar.gz`, in exactly that order.
pub open spec fn spec_deb_bytes(
    ext: Extension,
    sup: Seq<(Seq<char>, Option<Seq<char>>)>,
    archive: Seq<EntryView>,
) -> Seq<u8> {
    spec_ar_magic() + spec_ar_member(encode_utf8("debian-binary"@), encode_utf8("2.0\n"@))
        + spec_ar_member(encode_utf8("control.tar.gz"@), gzip_of(spec_control_tar(ext, sup)))
        + spec_ar_member(encode_utf8("data.tar.gz"@), gzip_of(spec_data_tar(archive)))
}

proof fn lemma_pack_entries_push(st: (Seq<Seq<u8>>, Seq<u8>), es: Seq<EntryView>, e: EntryView)
    ensures
        spec_pack_entries(st, es.push(e)) == ({
            let st1 = spec_pack_entries(st, es);
            match spec_target_path(e.path) {
                None => st1,
                Some(target) => spec_add_entry(st1.0, st1.1, target, e.contents),
            }
        }),
    decreases es.len(),
{
    if es.len() == 0 {
        assert(es.push(e).first() == e);
        assert(es.push(e).drop_first() =~= Seq::<EntryView>::empty());
        assert(spec_pack_entries(st, es) == st);
        let st1 = match spec_target_path(e.path) {
            None => st,
            Some(target) => spec_add_entry(st.0, st.1, target, e.contents),
        };
        assert(spec_pack_entries(st, es.push(e)) == spec_pack_entries(
            st1,
            Seq::<EntryView>::empty(),
        ));
    } else {
        assert(es.push(e).first() == es.first());
        assert(es.push(e).drop_first() =~= es.drop_first().push(e));
        let st1 = match spec_target_path(es.first().path) {
            None => st,
            Some(target) => spec_add_entry(st.0, st.1, target, es.first().contents),
        };
        lemma_pack_entries_push(st1, es.drop_first(), e);
    }
}

/// Given identical fetched data, two packaging runs produce
/// byte-identical `.deb` output: the emitted bytes are a function of
/// the extension's metadata, the resolved suppliers and the archive
/// entries alone, every header timestamp and mode being fixed.
pub proof fn lemma_deterministic_build(
    r1: Seq<u8>,
    r2: Seq<u8>,
    ext: Extension,
    sup: Seq<(Seq<char>, Option<Seq<char>>)>,
    archive: Seq<EntryView>,
)
    requires
        r1 == spec_deb_bytes(ext, sup, archive),
        r2 == spec_deb_bytes(ext, sup, archive),
    ensures
        r1 == r2,
{
}

/// The package-building pipeline.
pub struct DebPackager {}

impl DebPackager {
    /// The Depends line for the recorded dependencies, appended to
    /// `out`: every supplier's package name, comma-separated, in
    /// recorded order; nothing when no dependency exists.
    fn write_dependencies(out: &mut String, dependencies: &Dependencies)
        ensures
            final(out)@ == old(out)@ + spec_depends_block(dependencies@.suppliers),
    {
        let n = dependencies.suppliers.len();
        if n == 0 {
            proof {
                assert(old(out)@ + spec_depends_block(dependencies@.suppliers) =~= old(out)@);
            }
            return ;
        }
        out.append("Depends: ");
        let ghost sup = dependencies@.suppliers;
        let mut j: usize = 0;
        while j < n
            invariant
                j <= n,
                n == dependencies.suppliers@.len(),
                sup == dependencies@.suppliers,
                sup.len() == n,
                out@ == old(out)@ + "Depends: "@ + spec_join_suppliers(sup.take(j as int)),
            decreases n - j,
        {
            if j > 0 {
                out.append(", ");
            }
            let pair = &dependencies.suppliers[j];
            out.append(pair.1.name());
            proof {
                assert(sup[j as int] == (pair.0@, pair.1.spec_package()));
                if j == 0 {
                    assert(sup.take(1).len() == 1);
                    assert(sup.take(1).first() == sup[0]);
                    assert(spec_join_suppliers(sup.take(1)) == spec_supplier_shown(sup[0].1));
                } else {
                    assert(sup.take(j + 1).drop_last() =~= sup.take(j as int));
                    assert(sup.take(j + 1).last() == sup[j as int]);
                }
                assert(out@ =~= old(out)@ + "Depends: "@ + spec_join_suppliers(sup.take(j + 1)));
            }
            j = j + 1;
        }
        out.append("\n");
        proof {
            assert(sup.take(n as int) =~= sup);
            assert(out@ =~= old(out)@ + spec_depends_block(dependencies@.suppliers));
        }
    }

    /// The control file's text for one extension.
    fn control_text(extension: &Extension, dependencies: &Dependencies) -> (s: String)
        ensures
            s@ == spec_control_text(*extension, dependencies@.suppliers),
    {
        let mut s = String::new();
        s.append("Package: ");
        s.append(extension.name.as_str());
        s.append("\n");
        s.append("Section: database\n");
        s.append("Architecture: amd64\n");
        s.append("Version: ");
        s.append(extension.latest_version.as_str());
        s.append("\n");
        s.append("Description: ");
        match &extension.description {
            Some(d) => {
                s.append(d.as_str());
            },
            None => {},
        }
        s.append("\n");
        s.append("Homepage: https://pgt.dev/extensions/");
        s.append(extension.name.as_str());
        s.append("\n");
        Self::write_dependencies(&mut s, dependencies);
        proof {
            assert(s@ =~= spec_control_text(*extension, dependencies@.suppliers));
        }
        s
    }

    /// The gzipped control member: the control text as a single-member
    /// tar stream, compressed.
    fn write_control_file(extension: &Extension, dependencies: &Dependencies) -> (r: Vec<u8>)
        ensures
            r@ == gzip_of(spec_control_tar(*extension, dependencies@.suppliers)),
    {
        let text = Self::control_text(extension, dependencies);
        let bytes = text.as_str().as_bytes_vec();
        let name: &str = "control";
        let tar = tar_single(name.as_bytes(), bytes.as_slice());
        gzip_bytes(tar.as_slice())
    }

    /// The gzipped data member: every entry of the archive that has an
    /// install target, re-rooted there, in original order, with every
    /// ancestor directory created exactly once.
    fn write_packaged_files(archive: &Archive) -> (r: Vec<u8>)
        ensures
            r@ == gzip_of(spec_data_tar(archive@)),
    {
        let mut data_tar = TarArchive::new();
        let entries = archive.all_entries();
        let n = entries.len();
        let mut i: usize = 0;
        proof {
            assert(archive@.take(0) =~= Seq::<EntryView>::empty());
        }
        while i < n
            invariant
                i <= n,
                n == entries@.len(),
                archive@.len() == n,
                entries@.map_values(|e: Entry| e@) == archive@,
                (data_tar.dirs(), data_tar.stream()) == spec_pack_entries(
                    (Seq::<Seq<u8>>::empty(), Seq::<u8>::empty()),
                    archive@.take(i as int),
                ),
            decreases n - i,
        {
            let e = &entries[i];
            proof {
                assert(e@ == archive@[i as int]);
            }
            let target: Option<Vec<u8>> = match e.extension() {
                Some(x) => {
                    if bytes_eq(x.as_slice(), "control".as_bytes()) || bytes_eq(
                        x.as_slice(),
                        "sql".as_bytes(),
                    ) {
                        let prefix: &str = ".//usr/share/postgresql/15/";
                        let mut t = prefix.as_bytes_vec();
                        push_bytes(&mut t, e.path.as_slice());
                        Some(t)
                    } else if bytes_eq(x.as_slice(), "so".as_bytes()) {
                        let prefix: &str = ".//usr/share/postgresql/15/lib/";
                        let mut t = prefix.as_bytes_vec();
                        push_bytes(&mut t, e.path.as_slice());
                        Some(t)
                    } else if bytes_eq(x.as_slice(), "bc".as_bytes()) {
                        let prefix: &str = ".//usr/lib/postgresql/15/lib/";
                        let mut t = prefix.as_bytes_vec();
                        push_bytes(&mut t, e.path.as_slice());
                        Some(t)
                    } else {
                        None
                    }
                },
                None => None,
            };
            match target {
                Some(t) => {
                    proof {
                        assert(spec_target_path(e@.path) == Some(t@));
                    }
                    data_tar.add_entry(e, t.as_slice());
                },
                None => {
                    proof {
                        assert(spec_target_path(e@.path) is None);
                    }
                },
            }
            proof {
                assert(archive@.take(i + 1) =~= archive@.take(i as int).push(archive@[i as int]));
                lemma_pack_entries_push(
                    (Seq::<Seq<u8>>::empty(), Seq::<u8>::empty()),
                    archive@.take(i as int),
                    archive@[i as int],
                );
            }
            i = i + 1;
        }
        proof {
            assert(archive@.take(n as int) =~= archive@);
        }
        let bytes = data_tar.into_bytes();
        gzip_bytes(bytes.as_slice())
    }

    /// Builds the `.deb` archive bytes for one extension's fetched
    /// data.  Which outcome occurs is a function of the fetched data
    /// alone: the build refuses with `UnresolvedDependencies` exactly
    /// when some discovered dependency has no known supplying package,
    /// fails with `Encode` exactly when a compressed member outgrows
    /// the ar size field, and otherwise succeeds with fully determined
    /// bytes, so equal inputs give byte-identical packages.
    #[verifier::rlimit(100)]
    pub fn build_deb(fetch_data: FetchData) -> (r: Result<Vec<u8>, BuildError>)
        ensures
            match r {
                Ok(v) => {
                    &&& fetch_data.dependencies.spec_all_met()
                    &&& gzip_of(
                        spec_control_tar(
                            fetch_data.extension,
                            fetch_data.dependencies@.suppliers,
                        ),
                    ).len() < 10_000_000_000
                    &&& gzip_of(spec_data_tar(fetch_data.archive@)).len() < 10_000_000_000
                    &&& v@ == spec_deb_bytes(
                        fetch_data.extension,
                        fetch_data.dependencies@.suppliers,
                        fetch_data.archive@,
                    )
                },
                Err(BuildError::UnresolvedDependencies { extension }) => {
                    &&& !fetch_data.dependencies.spec_all_met()
                    &&& extension@ == fetch_data.extension.name@
                },
                Err(BuildError::Encode) => {
                    &&& fetch_data.dependencies.spec_all_met()
                    &&& (gzip_of(
                        spec_control_tar(
                            fetch_data.extension,
                            fetch_data.dependencies@.suppliers,
                        ),
                    ).len() >= 10_000_000_000 || gzip_of(
                        spec_data_tar(fetch_data.archive@),
                    ).len() >= 10_000_000_000)
                },
            },
    {
        let FetchData { extension, dependencies, archive } = fetch_data;
        if !dependencies.all_dependencies_met() {
            return Err(BuildError::UnresolvedDependencies { extension: extension.name });
        }
        let control_gz = Self::write_control_file(&extension, &dependencies);
        let data_gz = Self::write_packaged_files(&archive);
        let control_len: u64 = control_gz.len() as u64;
        let data_len: u64 = data_gz.len() as u64;
        if control_len >= 10_000_000_000 || data_len >= 10_000_000_000 {
            return Err(BuildError::Encode);
        }
        let mut deb = DebPackage::new();
        let bin_name: &str = "debian-binary";
        let bin_contents: &str = "2.0\n";
        let control_name: &str = "control.tar.gz";
        let data_name: &str = "data.tar.gz";
        proof {
            reveal_strlit("debian-binary");
            reveal_strlit("2.0\n");
            reveal_strlit("control.tar.gz");
            reveal_strlit("data.tar.gz");
            assert(vstd::string::is_ascii(bin_name));
            assert(vstd::string::is_ascii(bin_contents));
            assert(vstd::string::is_ascii(control_name));
            assert(vstd::string::is_ascii(data_name));
            vstd::string::is_ascii_spec_bytes(bin_name);
            vstd::string::is_ascii_spec_bytes(bin_contents);
            vstd::string::is_ascii_spec_bytes(control_name);
            vstd::string::is_ascii_spec_bytes(data_name);
            assert(bin_name.spec_bytes().len() == 13);
            assert(bin_contents.spec_bytes().len() == 4);
            assert(control_name.spec_bytes().len() == 14);
            assert(data_name.spec_bytes().len() == 11);
        }
        deb.add_file(bin_name.as_bytes(), bin_contents.as_bytes());
        deb.add_file(control_name.as_bytes(), control_gz.as_slice());
        deb.add_file(data_name.as_bytes(), data_gz.as_slice());
        let out = deb.into_bytes();
        proof {
            assert(out@ =~= spec_deb_bytes(extension, dependencies@.suppliers, archive@));
        }
        Ok(out)
    }
}

} // verus!
