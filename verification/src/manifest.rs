//! Plain-value view of the declarative metadata the core reads from a
//! package or variant manifest.  Parsing the manifest file itself is a
//! collaborator's job; the core only consumes these fields.

use vstd::prelude::*;
use crate::sensitivity::VariantSensitivity;

verus! {

/// Post-fetch processing kinds an external file may declare.  Currently only
/// a vendored Go module system.
#[derive(Debug, Clone, Copy, PartialEq, Eq, Structural)]
pub enum BundleModule {
    Go,
}

/// The part of one externally-sourced artifact's descriptor that the core's
/// decisions read: which bundle-module kinds ask for vendoring after the
/// fetch.  URL and checksum stay with the cache collaborator.
#[derive(Debug, Clone, PartialEq, Eq)]
pub struct ExternalFile {
    pub bundle_modules: Option<Vec<BundleModule>>,
}

/// Read-only view over a manifest's declarative metadata, parsed once per
/// invocation and never mutated.  Every field is optional; an absent field
/// means the manifest does not declare it.
#[derive(Debug, Clone, PartialEq, Eq)]
pub struct ManifestData {
    /// Explicit override for the package's name.
    pub package_name: Option<String>,
    /// Architectures this variant supports; absent means all are accepted.
    pub supported_arches: Option<Vec<String>>,
    /// Feature names the package declares it reads (tracked features).
    pub package_features: Option<Vec<String>>,
    /// Capability flags the variant declares available (ambient image
    /// features), each set or unset.  A name never appears twice.
    pub image_features: Option<Vec<(String, bool)>>,
    /// The package's declared dependency on variant identity.
    pub variant_sensitive: Option<VariantSensitivity>,
    /// Externally-sourced artifacts to fetch before the build.
    pub external_files: Option<Vec<ExternalFile>>,
    /// Names of source-group directories to crawl for source files.
    pub source_groups: Option<Vec<String>>,
    /// Packages a variant includes; absent means the variant builds nothing.
    pub included_packages: Option<Vec<String>>,
    /// Directory of default-settings fragments, for variant builds.
    pub defaults_dir: Option<String>,
}

impl ManifestData {
    /// A manifest that declares nothing.
    pub fn none_declared() -> (r: ManifestData)
        ensures
            r.package_name is None,
            r.supported_arches is None,
            r.package_features is None,
            r.image_features is None,
            r.variant_sensitive is None,
            r.external_files is None,
            r.source_groups is None,
            r.included_packages is None,
            r.defaults_dir is None,
    {
        ManifestData {
            package_name: Option::None,
            supported_arches: Option::None,
            package_features: Option::None,
            image_features: Option::None,
            variant_sensitive: Option::None,
            external_files: Option::None,
            source_groups: Option::None,
            included_packages: Option::None,
            defaults_dir: Option::None,
        }
    }
}

} // verus!
