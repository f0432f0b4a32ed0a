//! Whole-file downloads: which URL each metadata file comes from, and where
//! in the store it goes.
//!
//! Whether a URL is one is for the `hyper` crate to say, as the transport
//! will take no other.

use vstd::prelude::*;
use crate::rapid::rapid_store::{join, RapidStore, registry_path, repo_path, sdp_path};
use crate::rapid::types::{Repo, Sdp};
use crate::text::{chars_of, push_text, string_from_chars};

verus! {

/// Why a download failed.
#[derive(Debug, Clone, Copy, PartialEq, Eq, Structural)]
pub enum FileDownloadError {
    /// The address is not a URI.
    InvalidUri,
    /// The server did not answer as it should, or the transport failed.
    InvalidServerResponse,
    /// A file or directory of the store could not be written, or the
    /// request could not be compressed.
    FilesystemError,
}

/// A file to download: from where, and to which path of the store.
#[derive(Debug)]
pub struct Download {
    pub url: String,
    pub dest: String,
}

/// Whether `hyper` reads `url` as a URI.
pub uninterp spec fn uri_parses(url: Seq<char>) -> bool;

/// Asks whether `url` is a URI.
///
/// Trusted: parses `url` as a `hyper::Uri` and says whether that went well.
/// The contract only names the answer `uri_parses`.
#[verifier::external_body]
pub(crate) fn is_uri(url: &str) -> (ok: bool)
    ensures
        ok == uri_parses(url@),
{
    url.parse::<hyper::Uri>().is_ok()
}

/// Where the registry of repositories is fetched from.
pub open spec fn registry_url() -> Seq<char> {
    "https://repos.springrts.com/repos.gz"@
}

/// Where the version list of the repository at `repo_url` is fetched from.
pub open spec fn versions_url(repo_url: Seq<char>) -> Seq<char> {
    repo_url + "/versions.gz"@
}

/// Where the descriptor with the hash `md5` is fetched from.
pub open spec fn sdp_url(repo_url: Seq<char>, md5: Seq<char>) -> Seq<char> {
    repo_url + "/packages/"@ + md5 + ".sdp"@
}

/// A download as mathematical values, or the error in place of it.
pub open spec fn download_of(url: Seq<char>, dest: Seq<char>, found: Result<
    Download,
    FileDownloadError,
>) -> bool {
    match found {
        Ok(download) => uri_parses(url) && download.url@ == url && download.dest@ == dest,
        Err(e) => !uri_parses(url) && e == FileDownloadError::InvalidUri,
    }
}

/// A download from `url` to `dest` once it is known whether `url` is a URI.
pub fn checked_download(url: String, url_is_uri: bool, dest: String) -> (r: Result<
    Download,
    FileDownloadError,
>)
    ensures
        match r {
            Ok(download) => url_is_uri && download.url@ == url@ && download.dest@ == dest@,
            Err(e) => !url_is_uri && e == FileDownloadError::InvalidUri,
        },
{
    if url_is_uri {
        Ok(Download { url, dest })
    } else {
        Err(FileDownloadError::InvalidUri)
    }
}

/// The download of the descriptor of `sdp` from `repo`: fails with
/// `InvalidUri` exactly where the address is not a URI.
pub fn download_sdp(rapid_store: &RapidStore, repo: &Repo, sdp: &Sdp) -> (r: Result<
    Download,
    FileDownloadError,
>)
    ensures
        download_of(
            sdp_url(repo.url@, sdp.md5@),
            join(rapid_store.root@, sdp_path(sdp.md5@)),
            r,
        ),
{
    let mut url = chars_of(repo.url.as_str());
    push_text(&mut url, "/packages/");
    push_text(&mut url, sdp.md5.as_str());
    push_text(&mut url, ".sdp");
    let url = string_from_chars(url.as_slice());
    let dest = rapid_store.get_sdp_path_from_md5(sdp.md5.as_str());
    let ok = is_uri(url.as_str());
    checked_download(url, ok, dest)
}

/// The download of the version list of `repo`: fails with `InvalidUri`
/// exactly where the address is not a URI.
pub fn download_repo(rapid_store: &RapidStore, repo: &Repo) -> (r: Result<
    Download,
    FileDownloadError,
>)
    ensures
        download_of(
            versions_url(repo.url@),
            join(rapid_store.root@, repo_path(repo.url@)),
            r,
        ),
{
    let mut url = chars_of(repo.url.as_str());
    push_text(&mut url, "/versions.gz");
    let url = string_from_chars(url.as_slice());
    let dest = rapid_store.get_repo_path(repo);
    let ok = is_uri(url.as_str());
    checked_download(url, ok, dest)
}

/// The download of the registry of repositories.
pub fn download_repo_registry(rapid_store: &RapidStore) -> (download: Download)
    ensures
        download.url@ == registry_url(),
        download.dest@ == join(rapid_store.root@, registry_path()),
{
    let url = string_from_chars(chars_of("https://repos.springrts.com/repos.gz").as_slice());
    let dest = rapid_store.get_registry_path();
    Download { url, dest }
}

} // verus!
