//! The command-line surface, as plain data.
//!
//! Argument parsing itself happens outside the library; these types
//! carry the parsed choices into it.

use vstd::prelude::*;

verus! {

/// What the tool was asked to do.
pub enum Subcommands {
    ShowSharedObjects(ShowSharedObjects),
    PackageAll(PackageAll),
    PackageOne(PackageOne),
}

/// Show all shared objects the extensions depend on.
pub struct ShowSharedObjects {
    /// The base URL of the registry.
    pub base_url: String,
}

/// Package every extension the registry lists.
pub struct PackageAll {
    /// The base URL of the registry.
    pub base_url: String,
    /// The directory the generated packages are written into.
    pub export_dir: String,
}

/// Package a single named extension.
pub struct PackageOne {
    /// The base URL of the registry.
    pub base_url: String,
    /// The extension to package.
    pub trunk_project_name: String,
    /// The directory the generated package is written into.
    pub export_dir: String,
    /// A local archive to use instead of downloading one.
    pub file: Option<String>,
}

} // verus!
