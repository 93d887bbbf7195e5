//! The package metadata that policy predicates read.

use vstd::prelude::*;

verus! {

/// Metadata of one content package, as plain values.
///
/// The surrounding service receives packages from its transport layer and
/// hands them to the policy engine read-only: nothing here is mutated or
/// validated by this crate.
pub struct Package {
    /// Identifier for the package.
    pub package_id: String,
    /// Index of the package, needed for the recreation of the content.
    pub index: u64,
    /// Checksum, based on the normalized package size.
    pub checksum: String,
    /// Real size of the content bytes in the package (uncompressed).
    pub size: u64,
    /// Normalized size of the package bytes.
    pub normalized_size: u64,
    /// Name of the compression algorithm used, if any.
    pub compression_algorithm: String,
}

} // verus!
