//! What the caller chooses about how packages are looked up.

use vstd::prelude::*;

verus! {

/// Where the metadata of a package comes from.
#[derive(Debug, Clone, PartialEq)]
pub enum MetadataSource {
    /// The files that are in the store already.
    Local,
    /// The registry and version files of the repositories, fetched as
    /// needed.
    FileApi,
    /// The REST service at this address.
    RestApi(String),
}

/// The options of a download.
#[derive(Debug)]
pub struct DownloadOptions {
    pub metadata_source: MetadataSource,
}

impl Default for DownloadOptions {
    /// The options that look packages up in the files of the repositories.
    fn default() -> (opts: DownloadOptions)
        ensures
            opts.metadata_source == MetadataSource::FileApi,
    {
        DownloadOptions { metadata_source: MetadataSource::FileApi }
    }
}

impl DownloadOptions {
    /// The options that look packages up in `metadata_source`.
    pub fn new(metadata_source: MetadataSource) -> (opts: DownloadOptions)
        ensures
            opts.metadata_source == metadata_source,
    {
        Self { metadata_source }
    }
}

} // verus!
