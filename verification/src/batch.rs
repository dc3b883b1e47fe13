//! The per-extension pipeline and the batch summary.
//!
//! Each extension is processed independently: its downloaded archive
//! bytes run through decompression, dependency resolution and package
//! building, and the batch driver aggregates one outcome per extension
//! after all of them finish.  One extension's failure never affects
//! another's outcome.

use vstd::prelude::*;
use crate::compress::gunzip_of;
use crate::compress::gzip_of;
use crate::deb_packager::spec_control_tar;
use crate::deb_packager::spec_data_tar;
use crate::deb_packager::BuildError;
use crate::deb_packager::DebPackager;
use crate::deb_packager::spec_deb_bytes;
use crate::dependencies::AnalysisError;
use crate::dependencies::Dependencies;
use crate::dependencies::FetchData;
use crate::dependencies::spec_all_met_view;
use crate::dependencies::spec_resolve_archive;
use crate::extension::Extension;
use crate::unarchiver::DecodeError;
use crate::unarchiver::Unarchiver;
use crate::unarchiver::spec_regular_entries;
use crate::unarchiver::spec_tar_items;

verus! {

/// Why one extension's packaging task failed, by stage.
#[derive(Clone, Debug, PartialEq, Eq)]
pub enum PackageError {
    /// The archive could not be fetched from the registry.
    Download { message: String },
    /// The built package could not be written out.
    Write { message: String },
    /// The downloaded archive could not be decompressed.
    Decode(DecodeError),
    /// A shared object in the archive held corrupt object data.
    Analysis(AnalysisError),
    /// The package could not be built.
    Build(BuildError),
}

impl Dependencies {
    /// Decompresses downloaded archive bytes and resolves the
    /// dependencies of the shared objects inside, bundling both with
    /// the extension's metadata.
    pub fn decompress_archive(extension: Extension, tar_gz: &[u8]) -> (r: Result<
        FetchData,
        PackageError,
    >)
        ensures
            match r {
                Ok(fd) => {
                    &&& gunzip_of(tar_gz@) matches Some(t) && spec_tar_items(t) matches Some(items)
                        && fd.archive@ == spec_regular_entries(items)
                    &&& spec_resolve_archive(fd.archive@) == Some(fd.dependencies@)
                    &&& fd.dependencies.wf()
                    &&& fd.extension == extension
                },
                Err(PackageError::Decode(DecodeError::InvalidGzip)) => gunzip_of(tar_gz@) is None,
                Err(PackageError::Decode(DecodeError::InvalidTar)) => gunzip_of(tar_gz@)
                    matches Some(t) && spec_tar_items(t) is None,
                Err(PackageError::Analysis(_)) => gunzip_of(tar_gz@) matches Some(t)
                    && spec_tar_items(t) matches Some(items) && spec_resolve_archive(
                    spec_regular_entries(items),
                ) is None,
                Err(PackageError::Download { .. }) => false,
                Err(PackageError::Write { .. }) => false,
                Err(PackageError::Build(_)) => false,
            },
    {
        let archive = match Unarchiver::decompress_in_memory(tar_gz) {
            Ok(a) => a,
            Err(e) => {
                return Err(PackageError::Decode(e));
            },
        };
        match Dependencies::fetch_from_archive(extension, archive) {
            Ok(fd) => Ok(fd),
            Err(e) => Err(PackageError::Analysis(e)),
        }
    }
}

/// Runs the whole pipeline for one extension on its downloaded archive
/// bytes: decompress, resolve, build.  Returns the `.deb` bytes, or the
/// first stage's failure.
pub fn package_from_bytes(extension: Extension, tar_gz: &[u8]) -> (r: Result<
    Vec<u8>,
    PackageError,
>)
    ensures
        match r {
            Ok(v) => {
                &&& gunzip_of(tar_gz@) matches Some(t) && spec_tar_items(t) matches Some(items)
                    && spec_resolve_archive(spec_regular_entries(items)) matches Some(d)
                    && spec_all_met_view(d.suppliers) && gzip_of(
                    spec_control_tar(extension, d.suppliers),
                ).len() < 10_000_000_000 && gzip_of(
                    spec_data_tar(spec_regular_entries(items)),
                ).len() < 10_000_000_000 && v@ == spec_deb_bytes(
                    extension,
                    d.suppliers,
                    spec_regular_entries(items),
                )
            },
            Err(PackageError::Decode(DecodeError::InvalidGzip)) => gunzip_of(tar_gz@) is None,
            Err(PackageError::Decode(DecodeError::InvalidTar)) => gunzip_of(tar_gz@)
                matches Some(t) && spec_tar_items(t) is None,
            Err(PackageError::Analysis(_)) => gunzip_of(tar_gz@) matches Some(t) && spec_tar_items(
                t,
            ) matches Some(items) && spec_resolve_archive(spec_regular_entries(items)) is None,
            Err(PackageError::Build(BuildError::UnresolvedDependencies { extension: name })) => {
                &&& gunzip_of(tar_gz@) matches Some(t) && spec_tar_items(t) matches Some(items)
                    && spec_resolve_archive(spec_regular_entries(items)) matches Some(d)
                    && !spec_all_met_view(d.suppliers)
                &&& name@ == extension.name@
            },
            Err(PackageError::Build(BuildError::Encode)) => gunzip_of(tar_gz@) matches Some(t)
                && spec_tar_items(t) matches Some(items) && spec_resolve_archive(
                spec_regular_entries(items),
            ) matches Some(d) && spec_all_met_view(d.suppliers) && (gzip_of(
                spec_control_tar(extension, d.suppliers),
            ).len() >= 10_000_000_000 || gzip_of(
                spec_data_tar(spec_regular_entries(items)),
            ).len() >= 10_000_000_000),
            Err(PackageError::Download { .. }) => false,
            Err(PackageError::Write { .. }) => false,
        },
{
    let fd = match Dependencies::decompress_archive(extension, tar_gz) {
        Ok(fd) => fd,
        Err(e) => {
            return Err(e);
        },
    };
    match DebPackager::build_deb(fd) {
        Ok(v) => Ok(v),
        Err(e) => Err(PackageError::Build(e)),
    }
}

// ---------------------------------------------------------------------
// Batch aggregation
// ---------------------------------------------------------------------

/// The failures among `os`, each with its extension's name, in order.
pub open spec fn spec_failures(os: Seq<(String, Result<(), PackageError>)>) -> Seq<
    (String, PackageError),
>
    decreases os.len(),
{
    if os.len() == 0 {
        Seq::<(String, PackageError)>::empty()
    } else {
        let rest = spec_failures(os.drop_first());
        match os.first().1 {
            Ok(_) => rest,
            Err(e) => seq![(os.first().0, e)] + rest,
        }
    }
}

/// How many of `os` succeeded.
pub open spec fn spec_success_count(os: Seq<(String, Result<(), PackageError>)>) -> nat
    decreases os.len(),
{
    if os.len() == 0 {
        0
    } else {
        (if os.first().1 is Ok {
            1nat
        } else {
            0nat
        }) + spec_success_count(os.drop_first())
    }
}

/// The aggregate of one batch run: how many extensions were packaged,
/// and each failure with the name of the extension it belongs to.
#[derive(Debug)]
pub struct BatchSummary {
    pub succeeded: usize,
    pub failed: Vec<(String, PackageError)>,
}

/// Aggregates one outcome per extension, after every task finished:
/// counts the successes and collects each failure with its extension's
/// name, in the outcomes' order.  One entry's failure has no effect on
/// how any other entry is counted.
pub fn summarize_batch(outcomes: Vec<(String, Result<(), PackageError>)>) -> (s: BatchSummary)
    ensures
        s.succeeded == spec_success_count(outcomes@),
        s.failed@ == spec_failures(outcomes@),
{
    let ghost os0 = outcomes@;
    let mut remaining = outcomes;
    let total: usize = remaining.len();
    let mut succeeded: usize = 0;
    let mut failed: Vec<(String, PackageError)> = Vec::new();
    proof {
        assert(os0.skip(os0.len() as int) =~= Seq::<(String, Result<(), PackageError>)>::empty());
    }
    while remaining.len() > 0
        invariant
            os0.len() == total,
            remaining@ == os0.take(remaining@.len() as int),
            succeeded == spec_success_count(os0.skip(remaining@.len() as int)),
            succeeded <= total - remaining@.len(),
            failed@ == spec_failures(os0.skip(remaining@.len() as int)),
        decreases remaining@.len(),
    {
        let ghost k = remaining@.len() as int;
        let item = remaining.pop().unwrap();
        proof {
            assert(remaining@ =~= os0.take(k - 1));
            assert(item == os0[k - 1]);
            assert(os0.skip(k - 1).first() == os0[k - 1]);
            assert(os0.skip(k - 1).drop_first() =~= os0.skip(k));
        }
        let (name, outcome) = item;
        match outcome {
            Ok(_) => {
                succeeded = succeeded + 1;
            },
            Err(e) => {
                failed.insert(0, (name, e));
                proof {
                    assert(failed@ =~= seq![(os0[k - 1].0, e)] + spec_failures(os0.skip(k)));
                }
            },
        }
    }
    proof {
        assert(os0.skip(0) =~= os0);
    }
    BatchSummary { succeeded, failed }
}


} // verus!
