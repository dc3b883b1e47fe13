//! Shared-library dependency resolution.
//!
//! Every shared-object entry of a decompressed archive declares the names
//! of the native libraries it needs at run time.  Each name is mapped to
//! the system package known to supply it, or recorded as unresolved.  A
//! fixed short list of baseline C-runtime libraries is canonicalized to
//! the primary libc name before lookup, so that libm and the dynamic
//! linker converge with libc on one representative dependency.

use vstd::prelude::*;
use crate::extension::Extension;
use crate::unarchiver::Archive;
use crate::unarchiver::Entry;
use crate::unarchiver::EntryView;
use crate::unarchiver::shared_object_pred;
use crate::util::str_eq;

verus! {

use vstd::string::StringExecFns;

/// The package that supplies one shared library, if it is known.
#[derive(Clone, Debug, PartialEq, Eq)]
pub enum DependencySupplier {
    MetBy { package: String },
    Unknown,
}

impl DependencySupplier {
    /// The supplying package's name, or `None` for an unresolved library.
    pub open spec fn spec_package(&self) -> Option<Seq<char>> {
        match self {
            DependencySupplier::MetBy { package } => Some(package@),
            DependencySupplier::Unknown => None,
        }
    }

    pub open spec fn spec_is_met(&self) -> bool {
        self is MetBy
    }

    pub open spec fn spec_name(&self) -> Seq<char> {
        match self {
            DependencySupplier::MetBy { package } => package@,
            DependencySupplier::Unknown => "<unknown>"@,
        }
    }

    /// Whether a known package supplies this dependency.
    pub fn is_met(&self) -> (r: bool)
        ensures
            r == self.spec_is_met(),
    {
        matches!(self, DependencySupplier::MetBy { package: _ })
    }

    /// The supplying package's name, with a placeholder for an unresolved
    /// dependency.
    pub fn name(&self) -> (r: &str)
        ensures
            r@ == self.spec_name(),
    {
        match self {
            DependencySupplier::MetBy { package } => package.as_str(),
            DependencySupplier::Unknown => "<unknown>",
        }
    }
}

/// Baseline C-runtime libraries assumed present on the target OS; they
/// are aliased to libc rather than looked up on their own.
pub open spec fn spec_basic_shared_lib(name: Seq<char>) -> bool {
    ||| name == "libm.so.6"@
    ||| name == "ld-linux.so.2"@
    ||| name == "ld-linux-x86-64.so.2"@
}

/// The representative name a discovered library is recorded under:
/// baseline C-runtime libraries collapse to libc, all others stay as
/// they are.
pub open spec fn spec_canonical(name: Seq<char>) -> Seq<char> {
    if spec_basic_shared_lib(name) {
        "libc.so.6"@
    } else {
        name
    }
}

/// The static SONAME-to-Debian-package table.
pub open spec fn spec_supplier_package(name: Seq<char>) -> Option<Seq<char>> {
    if name == "libc.so.6"@ {
        Some("libc6"@)
    } else if name == "libstdc++.so.6"@ {
        Some("libstdc++6"@)
    } else if name == "libR.so"@ {
        Some("r-base-core"@)
    } else if name == "libcrypto.so.3"@ {
        Some("openssl"@)
    } else if name == "liblz4.so.1"@ {
        Some("liblz4-1"@)
    } else if name == "libgeos_c.so.1"@ {
        Some("libgeos-c1v5"@)
    } else if name == "libtcl8.6.so"@ {
        Some("libtcl8.6.so"@)
    } else if name == "libpcre2-8.so.0"@ {
        Some("libpcre2-8-0"@)
    } else if name == "libhiredis.so.0.14"@ {
        Some("libhiredis0.14"@)
    } else if name == "libuuid.so.1"@ {
        Some("libuuid1"@)
    } else if name == "libgroonga.so.0"@ {
        Some("libgroonga0"@)
    } else if name == "libopenblas.so.0"@ {
        Some("libopenblas0-pthread"@)
    } else if name == "libcurl.so.4"@ {
        Some("libcurl4"@)
    } else if name == "libpython3.10.so.1."@ {
        Some("libpython3.10"@)
    } else if name == "libjson-c.so.5"@ {
        Some("libjson-c5"@)
    } else if name == "libsybdb.so.5"@ {
        Some("libsybdb5"@)
    } else if name == "libsodium.so.23"@ {
        Some("libsodium23"@)
    } else if name == "libboost_serialization.so.1.74.0"@ {
        Some("libboost-serialization1.74.0"@)
    } else if name == "libgcc_s.so.1"@ {
        Some("libgcc-s1"@)
    } else if name == "libxml2.so.2"@ {
        Some("libxml2"@)
    } else if name == "libselinux.so.1"@ {
        Some("libselinux1"@)
    } else if name == "libprotobuf-c.so.1"@ {
        Some("libprotobuf-c1"@)
    } else if name == "librdkafka.so.1"@ {
        Some("librdkafka1"@)
    } else if name == "libgdal.so.30"@ {
        Some("libgdal30"@)
    } else if name == "libcrypt.so.1"@ {
        Some("libcrypt1"@)
    } else if name == "libpq.so.5"@ {
        Some("libpq5"@)
    } else if name == "liburiparser.so.1"@ {
        Some("liburiparser1"@)
    } else if name == "libfreetype.so.6"@ {
        Some("libfreetype6"@)
    } else if name == "libzstd.so.1"@ {
        Some("libzstd1"@)
    } else if name == "libz.so.1"@ {
        Some("zlib1g"@)
    } else if name == "libperl.so.5.34"@ {
        Some("libperl5.34"@)
    } else if name == "libgomp.so.1"@ {
        Some("libgomp1"@)
    } else if name == "libssl.so.3"@ {
        Some("libssl3"@)
    } else if name == "libproj.so.22"@ {
        Some("libproj22"@)
    } else if name == "libSFCGAL.so.1"@ {
        Some("libsfcgal1"@)
    } else {
        None
    }
}

/// Whether `name` is one of the baseline C-runtime libraries.
pub fn is_basic_shared_lib(name: &str) -> (r: bool)
    ensures
        r == spec_basic_shared_lib(name@),
{
    str_eq(name, "libm.so.6") || str_eq(name, "ld-linux.so.2") || str_eq(
        name,
        "ld-linux-x86-64.so.2",
    )
}

/// Looks `name` up in the static supplier table.
pub fn supplier_for(name: &str) -> (s: DependencySupplier)
    ensures
        s.spec_package() == spec_supplier_package(name@),
{
    if str_eq(name, "libc.so.6") {
        DependencySupplier::MetBy { package: String::from_str("libc6") }
    } else if str_eq(name, "libstdc++.so.6") {
        DependencySupplier::MetBy { package: String::from_str("libstdc++6") }
    } else if str_eq(name, "libR.so") {
        DependencySupplier::MetBy { package: String::from_str("r-base-core") }
    } else if str_eq(name, "libcrypto.so.3") {
        DependencySupplier::MetBy { package: String::from_str("openssl") }
    } else if str_eq(name, "liblz4.so.1") {
        DependencySupplier::MetBy { package: String::from_str("liblz4-1") }
    } else if str_eq(name, "libgeos_c.so.1") {
        DependencySupplier::MetBy { package: String::from_str("libgeos-c1v5") }
    } else if str_eq(name, "libtcl8.6.so") {
        DependencySupplier::MetBy { package: String::from_str("libtcl8.6.so") }
    } else if str_eq(name, "libpcre2-8.so.0") {
        DependencySupplier::MetBy { package: String::from_str("libpcre2-8-0") }
    } else if str_eq(name, "libhiredis.so.0.14") {
        DependencySupplier::MetBy { package: String::from_str("libhiredis0.14") }
    } else if str_eq(name, "libuuid.so.1") {
        DependencySupplier::MetBy { package: String::from_str("libuuid1") }
    } else if str_eq(name, "libgroonga.so.0") {
        DependencySupplier::MetBy { package: String::from_str("libgroonga0") }
    } else if str_eq(name, "libopenblas.so.0") {
        DependencySupplier::MetBy { package: String::from_str("libopenblas0-pthread") }
    } else if str_eq(name, "libcurl.so.4") {
        DependencySupplier::MetBy { package: String::from_str("libcurl4") }
    } else if str_eq(name, "libpython3.10.so.1.") {
        DependencySupplier::MetBy { package: String::from_str("libpython3.10") }
    } else if str_eq(name, "libjson-c.so.5") {
        DependencySupplier::MetBy { package: String::from_str("libjson-c5") }
    } else if str_eq(name, "libsybdb.so.5") {
        DependencySupplier::MetBy { package: String::from_str("libsybdb5") }
    } else if str_eq(name, "libsodium.so.23") {
        DependencySupplier::MetBy { package: String::from_str("libsodium23") }
    } else if str_eq(name, "libboost_serialization.so.1.74.0") {
        DependencySupplier::MetBy { package: String::from_str("libboost-serialization1.74.0") }
    } else if str_eq(name, "libgcc_s.so.1") {
        DependencySupplier::MetBy { package: String::from_str("libgcc-s1") }
    } else if str_eq(name, "libxml2.so.2") {
        DependencySupplier::MetBy { package: String::from_str("libxml2") }
    } else if str_eq(name, "libselinux.so.1") {
        DependencySupplier::MetBy { package: String::from_str("libselinux1") }
    } else if str_eq(name, "libprotobuf-c.so.1") {
        DependencySupplier::MetBy { package: String::from_str("libprotobuf-c1") }
    } else if str_eq(name, "librdkafka.so.1") {
        DependencySupplier::MetBy { package: String::from_str("librdkafka1") }
    } else if str_eq(name, "libgdal.so.30") {
        DependencySupplier::MetBy { package: String::from_str("libgdal30") }
    } else if str_eq(name, "libcrypt.so.1") {
        DependencySupplier::MetBy { package: String::from_str("libcrypt1") }
    } else if str_eq(name, "libpq.so.5") {
        DependencySupplier::MetBy { package: String::from_str("libpq5") }
    } else if str_eq(name, "liburiparser.so.1") {
        DependencySupplier::MetBy { package: String::from_str("liburiparser1") }
    } else if str_eq(name, "libfreetype.so.6") {
        DependencySupplier::MetBy { package: String::from_str("libfreetype6") }
    } else if str_eq(name, "libzstd.so.1") {
        DependencySupplier::MetBy { package: String::from_str("libzstd1") }
    } else if str_eq(name, "libz.so.1") {
        DependencySupplier::MetBy { package: String::from_str("zlib1g") }
    } else if str_eq(name, "libperl.so.5.34") {
        DependencySupplier::MetBy { package: String::from_str("libperl5.34") }
    } else if str_eq(name, "libgomp.so.1") {
        DependencySupplier::MetBy { package: String::from_str("libgomp1") }
    } else if str_eq(name, "libssl.so.3") {
        DependencySupplier::MetBy { package: String::from_str("libssl3") }
    } else if str_eq(name, "libproj.so.22") {
        DependencySupplier::MetBy { package: String::from_str("libproj22") }
    } else if str_eq(name, "libSFCGAL.so.1") {
        DependencySupplier::MetBy { package: String::from_str("libsfcgal1") }
    } else {
        DependencySupplier::Unknown
    }
}

/// Mathematical model of a dependency set: the recorded library names in
/// insertion order, and for each the supplying package, if known.
#[verifier::ext_equal]
pub struct DepsView {
    pub libraries: Seq<Seq<char>>,
    pub suppliers: Seq<(Seq<char>, Option<Seq<char>>)>,
}

/// One `add` step on the model.  A name that is already recorded is
/// skipped outright, before any canonicalization.  Otherwise the name
/// is canonicalized and recorded with its table lookup: when the
/// canonical name is already present only its stored supplier is
/// refreshed from the table (recording always recomputes the lookup),
/// and when it is absent it is appended.
pub open spec fn spec_add_view(d: DepsView, name: Seq<char>) -> DepsView {
    if d.libraries.contains(name) {
        d
    } else {
        let c = spec_canonical(name);
        if d.libraries.contains(c) {
            DepsView {
                libraries: d.libraries,
                suppliers: Seq::new(
                    d.suppliers.len(),
                    |i: int|
                        if d.suppliers[i].0 == c {
                            (c, spec_supplier_package(c))
                        } else {
                            d.suppliers[i]
                        },
                ),
            }
        } else {
            DepsView {
                libraries: d.libraries.push(c),
                suppliers: d.suppliers.push((c, spec_supplier_package(c))),
            }
        }
    }
}

/// Whether every supplier of the model `sup` is a known package.
pub open spec fn spec_all_met_view(sup: Seq<(Seq<char>, Option<Seq<char>>)>) -> bool {
    forall|i: int| 0 <= i < sup.len() ==> #[trigger] sup[i].1 is Some
}

/// The set of shared libraries one extension's compiled objects need,
/// with a supplier recorded for each.
#[derive(Debug)]
pub struct Dependencies {
    pub shared_libraries: Vec<String>,
    pub suppliers: Vec<(String, DependencySupplier)>,
}

impl View for Dependencies {
    type V = DepsView;

    open spec fn view(&self) -> DepsView {
        DepsView {
            libraries: self.shared_libraries@.map_values(|s: String| s@),
            suppliers: self.suppliers@.map_values(
                |p: (String, DependencySupplier)| (p.0@, p.1.spec_package()),
            ),
        }
    }
}

impl Dependencies {
    /// Structural invariant: suppliers and libraries hold the same names
    /// in the same order, each name at most once, and every supplier is
    /// the table lookup of its name.
    pub open spec fn wf(&self) -> bool {
        &&& self@.suppliers.len() == self@.libraries.len()
        &&& forall|i: int|
            0 <= i < self@.libraries.len() ==> #[trigger] self@.suppliers[i].0
                == self@.libraries[i]
        &&& forall|i: int, j: int|
            0 <= i < j < self@.libraries.len() ==> self@.libraries[i] != self@.libraries[j]
        &&& forall|i: int|
            0 <= i < self@.libraries.len() ==> #[trigger] self@.suppliers[i].1
                == spec_supplier_package(self@.libraries[i])
    }

    /// Whether every recorded dependency has a known supplier.
    pub open spec fn spec_all_met(&self) -> bool {
        spec_all_met_view(self@.suppliers)
    }

    /// An empty dependency set.
    pub fn new() -> (d: Dependencies)
        ensures
            d@.libraries =~= Seq::<Seq<char>>::empty(),
            d@.suppliers =~= Seq::<(Seq<char>, Option<Seq<char>>)>::empty(),
            d.wf(),
    {
        let d = Dependencies { shared_libraries: Vec::new(), suppliers: Vec::new() };
        proof {
            assert(d@.libraries =~= Seq::<Seq<char>>::empty());
            assert(d@.suppliers =~= Seq::<(Seq<char>, Option<Seq<char>>)>::empty());
        }
        d
    }

    /// Whether `name` is already recorded.
    pub fn contains_library(&self, name: &str) -> (r: bool)
        ensures
            r == self@.libraries.contains(name@),
    {
        let mut i: usize = 0;
        while i < self.shared_libraries.len()
            invariant
                i <= self@.libraries.len(),
                self@.libraries.len() == self.shared_libraries@.len(),
                forall|j: int| 0 <= j < i ==> self@.libraries[j] != name@,
            decreases self@.libraries.len() - i,
        {
            if str_eq(self.shared_libraries[i].as_str(), name) {
                proof {
                    assert(self@.libraries[i as int] == name@);
                }
                return true;
            }
            i = i + 1;
        }
        proof {
            if self@.libraries.contains(name@) {
                let k = choose|k: int| 0 <= k < self@.libraries.len() && self@.libraries[k] == name@;
                assert(self@.libraries[k] != name@);
            }
        }
        false
    }

    /// Records `shared_object`: a name that is already recorded is
    /// skipped; any other name is canonicalized and recorded with its
    /// table lookup.
    pub fn add(&mut self, shared_object: &str)
        ensures
            final(self)@ == spec_add_view(old(self)@, shared_object@),
            old(self).wf() ==> final(self).wf(),
    {
        if self.contains_library(shared_object) {
            proof {
                assert(self@ =~= spec_add_view(old(self)@, shared_object@));
            }
            return ;
        }
        let canonical = if is_basic_shared_lib(shared_object) {
            String::from_str("libc.so.6")
        } else {
            String::from_str(shared_object)
        };
        let ghost c = spec_canonical(shared_object@);
        proof {
            assert(canonical@ == c);
        }
        if self.contains_library(canonical.as_str()) {
            let n = self.suppliers.len();
            let mut j: usize = 0;
            while j < n
                invariant
                    j <= n,
                    n == self.suppliers@.len(),
                    n == old(self).suppliers@.len(),
                    self.shared_libraries == old(self).shared_libraries,
                    canonical@ == spec_canonical(shared_object@),
                    forall|i: int|
                        0 <= i < j ==> #[trigger] self@.suppliers[i] == (
                        if old(self)@.suppliers[i].0 == spec_canonical(shared_object@) {
                            (
                                spec_canonical(shared_object@),
                                spec_supplier_package(spec_canonical(shared_object@)),
                            )
                        } else {
                            old(self)@.suppliers[i]
                        }),
                    forall|i: int|
                        j <= i < n ==> #[trigger] self.suppliers@[i] == old(
                            self,
                        ).suppliers@[i],
                decreases n - j,
            {
                let ghost pre = self.suppliers@;
                let ghost pre_view = self@.suppliers;
                if str_eq(self.suppliers[j].0.as_str(), canonical.as_str()) {
                    proof {
                        assert(old(self)@.suppliers[j as int].0 == spec_canonical(
                            shared_object@,
                        ));
                    }
                    let fresh_key = String::from_str(canonical.as_str());
                    let fresh_supplier = supplier_for(canonical.as_str());
                    self.suppliers[j] = (fresh_key, fresh_supplier);
                    proof {
                        assert forall|i: int| 0 <= i < n && i != j implies #[trigger] self
                            .suppliers@[i] == pre[i] by {}
                        assert forall|i: int| 0 <= i < j implies #[trigger] self@.suppliers[i]
                            == pre_view[i] by {
                            assert(self.suppliers@[i] == pre[i]);
                        }
                        assert(self@.suppliers[j as int] == (
                            spec_canonical(shared_object@),
                            spec_supplier_package(spec_canonical(shared_object@)),
                        ));
                    }
                } else {
                    proof {
                        assert(old(self)@.suppliers[j as int].0 != spec_canonical(
                            shared_object@,
                        ));
                        assert(self@.suppliers[j as int] == old(self)@.suppliers[j as int]);
                    }
                }
                j = j + 1;
            }
            proof {
                assert(self@ =~= spec_add_view(old(self)@, shared_object@));
            }
        } else {
            let supplier = supplier_for(canonical.as_str());
            let key = canonical.clone();
            self.shared_libraries.push(canonical);
            self.suppliers.push((key, supplier));
            proof {
                assert(self@.libraries =~= old(self)@.libraries.push(c));
                assert(self@.suppliers =~= old(self)@.suppliers.push(
                    (c, spec_supplier_package(c)),
                ));
                assert(self@ =~= spec_add_view(old(self)@, shared_object@));
            }
        }
    }

    /// Whether every recorded dependency is supplied by a known package.
    pub fn all_dependencies_met(&self) -> (r: bool)
        ensures
            r == self.spec_all_met(),
    {
        let mut i: usize = 0;
        while i < self.suppliers.len()
            invariant
                i <= self.suppliers@.len(),
                self@.suppliers.len() == self.suppliers@.len(),
                forall|j: int| 0 <= j < i ==> #[trigger] self@.suppliers[j].1 is Some,
            decreases self.suppliers@.len() - i,
        {
            if !self.suppliers[i].1.is_met() {
                proof {
                    assert(self@.suppliers[i as int].1 is None);
                }
                return false;
            }
            i = i + 1;
        }
        true
    }
}

/// Why dependency analysis failed for an extension.
#[derive(Clone, Debug, PartialEq, Eq)]
pub enum AnalysisError {
    /// A shared-object entry held structurally corrupt object data.
    MalformedObject { message: String },
}

/// What goblin's object parser yields for `bytes`: `None` when they are
/// not an object it can parse; `Some(None)` when they parse as some
/// format other than ELF; `Some(Some(libs))` when they parse as an ELF
/// image whose dynamic section declares the needed libraries `libs`, in
/// declaration order.
pub uninterp spec fn object_scan(bytes: Seq<u8>) -> Option<Option<Seq<Seq<char>>>>;

/// Relies on goblin's `Object::parse` and the `libraries` field of its
/// ELF variant (the declared `DT_NEEDED` names): the outcome depends on
/// the input bytes alone.
#[verifier::external_body]
fn scan_object(bytes: &[u8]) -> (r: Result<Option<Vec<String>>, AnalysisError>)
    ensures
        match r {
            Ok(Some(libs)) => object_scan(bytes@) == Some(Some(libs.deep_view())),
            Ok(None) => object_scan(bytes@) == Some(None::<Seq<Seq<char>>>),
            Err(_) => object_scan(bytes@) is None,
        },
{
    match goblin::Object::parse(bytes) {
        Ok(goblin::Object::Elf(elf)) => Ok(
            Some(elf.libraries.iter().map(|s| s.to_string()).collect()),
        ),
        Ok(_) => Ok(None),
        Err(e) => Err(AnalysisError::MalformedObject { message: format!("{}", e) }),
    }
}

/// The empty dependency-set model.
pub open spec fn spec_empty_deps() -> DepsView {
    DepsView { libraries: Seq::<Seq<char>>::empty(), suppliers: Seq::<(Seq<char>, Option<Seq<char>>)>::empty() }
}

/// All of `names` recorded in order.
pub open spec fn spec_add_all(d: DepsView, names: Seq<Seq<char>>) -> DepsView
    decreases names.len(),
{
    if names.len() == 0 {
        d
    } else {
        spec_add_all(spec_add_view(d, names.first()), names.drop_first())
    }
}

/// The dependency set after scanning the shared-object entries `es`
/// starting from `d`: a corrupt object fails the scan, a non-ELF object
/// is skipped, and an ELF object's declared libraries are recorded in
/// order.
pub open spec fn spec_scan_entries(d: DepsView, es: Seq<EntryView>) -> Option<DepsView>
    decreases es.len(),
{
    if es.len() == 0 {
        Some(d)
    } else {
        match object_scan(es.first().contents) {
            None => None,
            Some(None) => spec_scan_entries(d, es.drop_first()),
            Some(Some(libs)) => spec_scan_entries(spec_add_all(d, libs), es.drop_first()),
        }
    }
}

/// The dependency set a whole archive resolves to: its shared-object
/// entries scanned in order, starting from the empty set.
pub open spec fn spec_resolve_archive(archive: Seq<EntryView>) -> Option<DepsView> {
    spec_scan_entries(spec_empty_deps(), archive.filter(shared_object_pred()))
}

proof fn lemma_add_all_push(d: DepsView, s: Seq<Seq<char>>, x: Seq<char>)
    ensures
        spec_add_all(d, s.push(x)) == spec_add_view(spec_add_all(d, s), x),
    decreases s.len(),
{
    if s.len() == 0 {
        assert(s.push(x).drop_first() =~= Seq::<Seq<char>>::empty());
        assert(s.push(x).first() == x);
        assert(spec_add_all(d, s.push(x)) == spec_add_all(
            spec_add_view(d, x),
            Seq::<Seq<char>>::empty(),
        ));
        assert(spec_add_all(spec_add_view(d, x), Seq::<Seq<char>>::empty()) == spec_add_view(
            d,
            x,
        ));
        assert(spec_add_all(d, s) == d);
    } else {
        assert(s.push(x).drop_first() =~= s.drop_first().push(x));
        assert(s.push(x).first() == s.first());
        lemma_add_all_push(spec_add_view(d, s.first()), s.drop_first(), x);
        assert(spec_add_all(d, s.push(x)) == spec_add_all(
            spec_add_view(d, s.first()),
            s.drop_first().push(x),
        ));
        assert(spec_add_all(d, s) == spec_add_all(spec_add_view(d, s.first()), s.drop_first()));
    }
}

/// One extension's unit of work, handed from analysis to packaging.
#[derive(Debug)]
pub struct FetchData {
    /// The extension's registry metadata.
    pub extension: Extension,
    /// The shared-library dependencies of its compiled objects.
    pub dependencies: Dependencies,
    /// The decompressed contents of its downloaded archive.
    pub archive: Archive,
}

impl Dependencies {
    /// Resolves an extension's dependencies by scanning the shared
    /// objects of its decompressed archive, and bundles the outcome with
    /// the archive and the extension's metadata.  Fails exactly when one
    /// of the shared-object entries holds corrupt object data; unknown
    /// suppliers are a normal, recorded state, never an error here.
    pub fn fetch_from_archive(extension: Extension, archive: Archive) -> (r: Result<
        FetchData,
        AnalysisError,
    >)
        ensures
            match r {
                Ok(fd) => {
                    &&& fd.extension == extension
                    &&& fd.archive@ == archive@
                    &&& spec_resolve_archive(archive@) == Some(fd.dependencies@)
                    &&& fd.dependencies.wf()
                },
                Err(_) => spec_resolve_archive(archive@) is None,
            },
    {
        let mut dependencies = Dependencies::new();
        proof {
            assert(dependencies@ =~= spec_empty_deps());
        }
        let ghost sos_v = archive@.filter(shared_object_pred());
        let sos = archive.shared_objects();
        let mut i: usize = 0;
        proof {
            assert(sos_v.skip(0) =~= sos_v);
        }
        while i < sos.len()
            invariant
                i <= sos@.len(),
                sos_v == archive@.filter(shared_object_pred()),
                sos@.map_values(|e: &Entry| e@) == sos_v,
                dependencies.wf(),
                spec_scan_entries(dependencies@, sos_v.skip(i as int)) == spec_scan_entries(
                    spec_empty_deps(),
                    sos_v,
                ),
            decreases sos@.len() - i,
        {
            let ghost d0 = dependencies@;
            let ghost rest = sos_v.skip(i as int);
            proof {
                assert(rest.first() == sos_v[i as int]);
                assert(sos_v[i as int] == sos@[i as int]@);
                assert(rest.drop_first() =~= sos_v.skip(i + 1));
            }
            match scan_object(sos[i].contents.as_slice()) {
                Err(e) => {
                    proof {
                        assert(object_scan(rest.first().contents) is None);
                        assert(spec_scan_entries(dependencies@, rest) is None);
                    }
                    return Err(e);
                },
                Ok(None) => {},
                Ok(Some(libs)) => {
                    let ghost libs_v = libs.deep_view();
                    let mut j: usize = 0;
                    proof {
                        assert(libs_v.take(0) =~= Seq::<Seq<char>>::empty());
                    }
                    while j < libs.len()
                        invariant
                            j <= libs@.len(),
                            libs_v == libs.deep_view(),
                            dependencies.wf(),
                            dependencies@ == spec_add_all(d0, libs_v.take(j as int)),
                        decreases libs@.len() - j,
                    {
                        dependencies.add(libs[j].as_str());
                        proof {
                            assert(libs@[j as int]@ == libs_v[j as int]);
                            lemma_add_all_push(d0, libs_v.take(j as int), libs_v[j as int]);
                            assert(libs_v.take(j + 1) =~= libs_v.take(j as int).push(
                                libs_v[j as int],
                            ));
                        }
                        j = j + 1;
                    }
                    proof {
                        assert(libs_v.take(libs_v.len() as int) =~= libs_v);
                    }
                },
            }
            i = i + 1;
        }
        proof {
            assert(sos_v.skip(sos_v.len() as int) =~= Seq::<EntryView>::empty());
        }
        Ok(FetchData { extension, dependencies, archive })
    }
}

/// Adding the same shared-library name twice yields the same dependency
/// set as adding it once.  Holds of every dependency set that satisfies
/// the data model's invariant: suppliers are keyed, position for
/// position, by the recorded library names.
pub proof fn lemma_add_idempotent(d: DepsView, name: Seq<char>)
    requires
        d.suppliers.len() == d.libraries.len(),
        forall|i: int|
            0 <= i < d.libraries.len() ==> #[trigger] d.suppliers[i].0 == d.libraries[i],
    ensures
        spec_add_view(spec_add_view(d, name), name) == spec_add_view(d, name),
{
    let c = spec_canonical(name);
    let d1 = spec_add_view(d, name);
    if d.libraries.contains(name) {
    } else if d.libraries.contains(c) {
        assert(d1.libraries == d.libraries);
        if d1.libraries.contains(name) {
            let k = choose|k: int| 0 <= k < d.libraries.len() && d.libraries[k] == name;
            assert(d.libraries.contains(name));
        } else {
            assert(spec_add_view(d1, name) =~= d1);
        }
    } else {
        assert(d1.libraries[d.libraries.len() as int] == c);
        assert(d1.libraries.contains(c));
        if c == name {
            assert(d1.libraries.contains(name));
        } else {
            assert(!d1.libraries.contains(name)) by {
                if d1.libraries.contains(name) {
                    let k = choose|k: int|
                        0 <= k < d1.libraries.len() && d1.libraries[k] == name;
                    if k < d.libraries.len() {
                        assert(d.libraries.contains(name));
                    }
                }
            }
            assert forall|i: int| 0 <= i < d1.suppliers.len() implies (
            if d1.suppliers[i].0 == c {
                (c, spec_supplier_package(c))
            } else {
                d1.suppliers[i]
            }) == d1.suppliers[i] by {
                if i < d.suppliers.len() {
                    if d.suppliers[i].0 == c {
                        assert(d.libraries.contains(c));
                    }
                }
            }
            assert(spec_add_view(d1, name) =~= d1);
        }
    }
}

/// For every recorded library name, `suppliers` holds exactly one entry
/// keyed by that name, and the supplier keys are exactly the library
/// names.
pub proof fn lemma_resolver_completeness(d: &Dependencies)
    requires
        d.wf(),
    ensures
        d@.suppliers.map_values(|p: (Seq<char>, Option<Seq<char>>)| p.0) =~= d@.libraries,
        forall|name: Seq<char>|
            d@.libraries.contains(name) ==> exists|i: int|
                0 <= i < d@.suppliers.len() && #[trigger] d@.suppliers[i].0 == name,
        forall|i: int, j: int|
            0 <= i < j < d@.suppliers.len() ==> d@.suppliers[i].0 != d@.suppliers[j].0,
{
    assert forall|name: Seq<char>| d@.libraries.contains(name) implies exists|i: int|
        0 <= i < d@.suppliers.len() && #[trigger] d@.suppliers[i].0 == name by {
        let k = choose|k: int| 0 <= k < d@.libraries.len() && d@.libraries[k] == name;
        assert(d@.suppliers[k].0 == name);
    }
}

} // verus!
