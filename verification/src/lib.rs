//! Builds Debian packages for natively compiled PostgreSQL extensions.
//!
//! The pipeline has three verified stages: decompressing a downloaded
//! `.tar.gz` archive into typed entries, resolving the shared-library
//! dependencies of the compiled objects inside it, and serializing the
//! result into a `.deb` archive byte stream.

use vstd::prelude::*;

mod ar_build;
mod batch;
mod cli;
mod compress;
mod deb_packager;
mod dependencies;
mod extension;
mod shared_lib_registry;
mod tar_build;
mod unarchiver;
mod util;

pub use ar_build::DebPackage;
pub use batch::BatchSummary;
pub use batch::PackageError;
pub use batch::package_from_bytes;
pub use batch::summarize_batch;
pub use cli::PackageAll;
pub use cli::PackageOne;
pub use cli::ShowSharedObjects;
pub use cli::Subcommands;
pub use deb_packager::BuildError;
pub use deb_packager::DebPackager;
pub use deb_packager::lemma_deterministic_build;
pub use dependencies::AnalysisError;
pub use dependencies::Dependencies;
pub use dependencies::DependencySupplier;
pub use dependencies::FetchData;
pub use dependencies::lemma_add_idempotent;
pub use dependencies::lemma_resolver_completeness;
pub use extension::Extension;
pub use extension::find_extension;
pub use shared_lib_registry::SharedLibraryRegistry;
pub use tar_build::TarArchive;
pub use unarchiver::Archive;
pub use unarchiver::DecodeError;
pub use unarchiver::Entry;
pub use unarchiver::Unarchiver;
pub use util::split_newlines;
