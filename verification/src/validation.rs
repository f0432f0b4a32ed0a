//! Integrity validation: does the file of a blob hold what its hash says?
//!
//! A blob is stored gzip-compressed, and its hash is the MD5 digest of the
//! content before compression. The digest is the work of the `md-5` crate.

use md5::Digest;
use vstd::prelude::*;
use crate::gz::{gunzip, read_binary_gz_from_data};
use crate::metadata::MetadataQueryError;
use crate::rapid::parsing::FormatError;
use crate::rapid::rapid_store::{join, pool_path, RapidStore};
use crate::rapid::types::{package_views, Repo, Sdp, SdpPackage, SdpPackageView};

verus! {

/// What is wrong with the file of a blob.
#[derive(Debug, Clone, Copy, PartialEq, Eq, Structural)]
pub enum FileError {
    /// There is no file.
    Missing,
    /// The file cannot be read or is not gzip.
    Corrupt,
    /// The content does not have the hash of the blob.
    WrongHash,
}

/// What the caller found at a path of the store.
#[derive(Debug)]
pub enum StoredFile {
    /// Nothing exists at the path.
    Absent,
    /// Something exists at the path and could not be read.
    Unreadable,
    /// The bytes of the file.
    Present(Vec<u8>),
}

/// What a [`StoredFile`] holds, as mathematical values.
pub enum StoredFileView {
    Absent,
    Unreadable,
    Present(Seq<u8>),
}

impl View for StoredFile {
    type V = StoredFileView;

    open spec fn view(&self) -> StoredFileView {
        match self {
            StoredFile::Absent => StoredFileView::Absent,
            StoredFile::Unreadable => StoredFileView::Unreadable,
            StoredFile::Present(bytes) => StoredFileView::Present(bytes@),
        }
    }
}

/// The views of a list of stored files, in order.
pub open spec fn file_views(files: Seq<StoredFile>) -> Seq<StoredFileView> {
    files.map_values(|f: StoredFile| f@)
}

/// Why a package is not valid.
#[derive(Debug)]
pub enum ValidityErrors {
    /// The package could not be looked up, or its descriptor not read.
    MetadataQueryError(MetadataQueryError),
    /// No package goes by the name.
    MissingSdp,
    /// These files of the package are not as they should be: each with its
    /// path and what is wrong with it, in the order of the blob list.
    InvalidFiles { files: Vec<(String, FileError)> },
}

/// The MD5 digest of `data`, 16 bytes.
pub uninterp spec fn md5_sum(data: Seq<u8>) -> Seq<u8>;

/// Computes the MD5 digest of `data`.
///
/// Trusted: feeds `data` to a fresh `md5::Md5` and finalizes it. The
/// contract gives the 16 bytes that come out the name `md5_sum` and claims
/// nothing else of them.
#[verifier::external_body]
fn md5_digest(data: &[u8]) -> (digest: [u8; 16])
    ensures
        digest@ == md5_sum(data@),
{
    let mut hasher = md5::Md5::new();
    hasher.update(data);
    let hashed = hasher.finalize();
    let mut digest = [0u8; 16];
    digest.copy_from_slice(&hashed[..]);
    digest
}

/// What is wrong with content whose digest is `digest`, for a blob whose
/// hash is `md5_bin`.
pub open spec fn digest_error(digest: Seq<u8>, md5_bin: Seq<u8>) -> Option<FileError> {
    if digest == md5_bin {
        None
    } else {
        Some(FileError::WrongHash)
    }
}

/// What is wrong with `file` as the file of a blob whose hash is `md5_bin`,
/// or `None` where it is valid: a file that is there, decompresses, and
/// whose content has the digest `md5_bin`.
pub open spec fn file_error(file: StoredFileView, md5_bin: Seq<u8>) -> Option<FileError> {
    match file {
        StoredFileView::Absent => Some(FileError::Missing),
        StoredFileView::Unreadable => Some(FileError::Corrupt),
        StoredFileView::Present(bytes) => match gunzip(bytes) {
            None => Some(FileError::Corrupt),
            Some(content) => digest_error(md5_sum(content), md5_bin),
        },
    }
}

/// Holds a digest against the hash of a blob.
pub fn check_digest(digest: &[u8; 16], md5_bin: &[u8; 16]) -> (r: Option<FileError>)
    ensures
        r == digest_error(digest@, md5_bin@),
{
    let mut i: usize = 0;
    while i < 16
        invariant
            i <= 16,
            forall|j: int| 0 <= j < i ==> digest@[j] == md5_bin@[j],
        decreases 16 - i,
    {
        if digest[i] != md5_bin[i] {
            return Some(FileError::WrongHash);
        }
        i += 1;
    }
    assert(digest@ =~= md5_bin@);
    None
}

/// Validates what was found at the path of a blob whose hash is `md5_bin`.
pub fn validate_sdp_package_with_path(file: &StoredFile, md5_bin: [u8; 16]) -> (r: Option<
    FileError,
>)
    ensures
        r == file_error(file@, md5_bin@),
{
    match file {
        StoredFile::Absent => Some(FileError::Missing),
        StoredFile::Unreadable => Some(FileError::Corrupt),
        StoredFile::Present(bytes) => {
            let parsed_gz = match read_binary_gz_from_data(bytes.as_slice()) {
                Ok(content) => content,
                Err(_) => {
                    return Some(FileError::Corrupt);
                },
            };
            let hashed = md5_digest(parsed_gz.as_slice());
            check_digest(&hashed, &md5_bin)
        },
    }
}

/// Validates what was found at the pool path of `package`.
pub fn validate_sdp_package(package: &SdpPackage, file: &StoredFile) -> (r: Option<FileError>)
    ensures
        r == file_error(file@, package.md5_bin@),
{
    validate_sdp_package_with_path(file, package.md5_bin)
}

/// A file that is there is never reported as missing, and a file that is
/// not there is reported as nothing else.
pub proof fn missing_means_absent(file: StoredFileView, md5_bin: Seq<u8>)
    ensures
        file_error(file, md5_bin) == Some(FileError::Missing) <==> file is Absent,
{
}

/// A file is valid exactly where it decompresses to content whose digest is
/// the hash of the blob.
pub proof fn valid_means_digest_matches(file: StoredFileView, md5_bin: Seq<u8>)
    ensures
        file_error(file, md5_bin) is None <==> (file matches StoredFileView::Present(bytes)
            && gunzip(bytes) matches Some(content) && md5_sum(content) == md5_bin),
{
}

/// One invalid file: its path and what is wrong with it.
pub struct InvalidFile {
    pub path: Seq<char>,
    pub error: FileError,
}

/// The view of one entry of an error list.
pub open spec fn invalid_file_view(entry: (String, FileError)) -> InvalidFile {
    InvalidFile { path: entry.0@, error: entry.1 }
}

/// The views of an error list, in order.
pub open spec fn invalid_file_views(list: Seq<(String, FileError)>) -> Seq<InvalidFile> {
    list.map_values(|entry: (String, FileError)| invalid_file_view(entry))
}

/// The files of a package that are not valid, each with its path in the
/// store rooted at `root`, in the order of the blob list.
pub open spec fn invalid_files(
    root: Seq<char>,
    packages: Seq<SdpPackageView>,
    files: Seq<StoredFileView>,
) -> Seq<InvalidFile>
    recommends
        packages.len() == files.len(),
    decreases packages.len(),
{
    if packages.len() == 0 || files.len() == 0 {
        Seq::empty()
    } else {
        let before = invalid_files(root, packages.drop_last(), files.drop_last());
        match file_error(files.last(), packages.last().md5_bin) {
            None => before,
            Some(error) => before.push(
                InvalidFile { path: join(root, pool_path(packages.last().md5_bin)), error },
            ),
        }
    }
}

/// The list of invalid files is empty exactly where every file is valid.
pub proof fn no_invalid_files_means_all_valid(
    root: Seq<char>,
    packages: Seq<SdpPackageView>,
    files: Seq<StoredFileView>,
)
    requires
        packages.len() == files.len(),
    ensures
        invalid_files(root, packages, files).len() == 0 <==> forall|i: int|
            0 <= i < packages.len() ==> (#[trigger] file_error(files[i], packages[i].md5_bin))
                is None,
    decreases packages.len(),
{
    if packages.len() > 0 {
        let p = packages.drop_last();
        let f = files.drop_last();
        no_invalid_files_means_all_valid(root, p, f);
        if invalid_files(root, packages, files).len() == 0 {
            assert forall|i: int| 0 <= i < packages.len() implies (#[trigger] file_error(
                files[i],
                packages[i].md5_bin,
            )) is None by {
                if i < p.len() {
                    assert(file_error(f[i], p[i].md5_bin) is None);
                }
            }
        }
        if forall|i: int|
            0 <= i < packages.len() ==> (#[trigger] file_error(files[i], packages[i].md5_bin))
                is None {
            assert forall|i: int| 0 <= i < p.len() implies (#[trigger] file_error(
                f[i],
                p[i].md5_bin,
            )) is None by {
                assert(file_error(files[i], packages[i].md5_bin) is None);
            }
            assert(file_error(files[packages.len() - 1], packages[packages.len() - 1].md5_bin)
                is None);
        }
    }
}

/// Validates every blob of a package and lists the files that are not
/// valid. `files[i]` is what was found at the pool path of `packages[i]`.
/// One bad file does not end the validation of the others.
pub fn validate_sdp_packages(
    rapid_store: &RapidStore,
    packages: &[SdpPackage],
    files: &[StoredFile],
) -> (files_with_errors: Vec<(String, FileError)>)
    requires
        files@.len() == packages@.len(),
    ensures
        invalid_file_views(files_with_errors@) == invalid_files(
            rapid_store.root@,
            package_views(packages@),
            file_views(files@),
        ),
{
    let mut files_with_errors: Vec<(String, FileError)> = Vec::new();
    let ghost all_packages = package_views(packages@);
    let ghost all_files = file_views(files@);
    let mut i: usize = 0;
    assert(invalid_file_views(files_with_errors@) =~= Seq::<InvalidFile>::empty());
    while i < packages.len()
        invariant
            i <= packages@.len(),
            files@.len() == packages@.len(),
            all_packages == package_views(packages@),
            all_files == file_views(files@),
            invalid_file_views(files_with_errors@) == invalid_files(
                rapid_store.root@,
                all_packages.take(i as int),
                all_files.take(i as int),
            ),
        decreases packages@.len() - i,
    {
        let package = &packages[i];
        let validation = validate_sdp_package(package, &files[i]);
        proof {
            let p = all_packages.take(i + 1);
            let f = all_files.take(i + 1);
            assert(p.drop_last() =~= all_packages.take(i as int));
            assert(f.drop_last() =~= all_files.take(i as int));
            assert(p.last() == package@);
            assert(f.last() == files@[i as int]@);
        }
        if let Some(file_error) = validation {
            let pool_path = rapid_store.get_pool_path(package);
            let ghost before = invalid_file_views(files_with_errors@);
            files_with_errors.push((pool_path, file_error));
            assert(invalid_file_views(files_with_errors@) =~= before.push(
                InvalidFile { path: pool_path@, error: file_error },
            ));
        }
        i += 1;
    }
    assert(all_packages.take(i as int) =~= all_packages);
    assert(all_files.take(i as int) =~= all_files);
    files_with_errors
}

/// What the validation of a package comes to, as mathematical values.
pub enum Validity {
    /// Every file is valid.
    Valid,
    /// The descriptor could not be read.
    CorruptDescriptor(FormatError),
    /// These files are not valid.
    Invalid(Seq<InvalidFile>),
}

/// The validity of a package whose descriptor was read as `loaded` and
/// whose blob files were found as `files`.
pub open spec fn validity(
    root: Seq<char>,
    loaded: Result<Seq<SdpPackageView>, FormatError>,
    files: Seq<StoredFileView>,
) -> Validity {
    match loaded {
        Err(e) => Validity::CorruptDescriptor(e),
        Ok(packages) => if invalid_files(root, packages, files).len() == 0 {
            Validity::Valid
        } else {
            Validity::Invalid(invalid_files(root, packages, files))
        },
    }
}

/// Whether `result` says `validity`.
pub open spec fn says(result: Result<(), ValidityErrors>, validity: Validity) -> bool {
    match result {
        Ok(_) => validity is Valid,
        Err(ValidityErrors::MetadataQueryError(MetadataQueryError::CorruptFile(e))) => validity
            == Validity::CorruptDescriptor(e),
        Err(ValidityErrors::InvalidFiles { files }) => validity == Validity::Invalid(
            invalid_file_views(files@),
        ),
        Err(_) => false,
    }
}

/// The views of a descriptor as it was read.
pub open spec fn loaded_views(loaded: Result<Vec<SdpPackage>, FormatError>) -> Result<
    Seq<SdpPackageView>,
    FormatError,
> {
    match loaded {
        Ok(packages) => Ok(package_views(packages@)),
        Err(e) => Err(e),
    }
}

/// Validates a package from what was read of its descriptor and what was
/// found at the pool paths of its blobs. A descriptor that could not be read
/// is reported as a corrupt file; otherwise the package is valid exactly
/// where no file is invalid.
pub fn validate_by_sdp_md5(
    rapid_store: &RapidStore,
    loaded: &Result<Vec<SdpPackage>, FormatError>,
    files: &[StoredFile],
) -> (r: Result<(), ValidityErrors>)
    requires
        loaded matches Ok(packages) ==> files@.len() == packages@.len(),
    ensures
        says(r, validity(rapid_store.root@, loaded_views(*loaded), file_views(files@))),
{
    let sdp_packages = match loaded {
        Ok(packages) => packages,
        Err(e) => {
            return Err(ValidityErrors::MetadataQueryError(MetadataQueryError::CorruptFile(*e)));
        },
    };
    let files_with_errors = validate_sdp_packages(rapid_store, sdp_packages.as_slice(), files);
    if files_with_errors.len() == 0 {
        return Ok(());
    }
    Err(ValidityErrors::InvalidFiles { files: files_with_errors })
}

/// Whether a package has anything left to download: it has, unless it
/// validates.
pub fn check_if_sdp_needs_download(
    rapid_store: &RapidStore,
    loaded: &Result<Vec<SdpPackage>, FormatError>,
    files: &[StoredFile],
) -> (needed: bool)
    requires
        loaded matches Ok(packages) ==> files@.len() == packages@.len(),
    ensures
        needed == !(validity(rapid_store.root@, loaded_views(*loaded), file_views(files@))
            is Valid),
{
    validate_by_sdp_md5(rapid_store, loaded, files).is_err()
}

/// The package that a metadata query found, or why validation cannot go
/// on: the query's own error, or `MissingSdp` where it found nothing.
pub fn queried_sdp(query: Result<Option<(Repo, Sdp)>, MetadataQueryError>) -> (r: Result<
    Sdp,
    ValidityErrors,
>)
    ensures
        match query {
            Err(e) => r == Err::<Sdp, ValidityErrors>(ValidityErrors::MetadataQueryError(e)),
            Ok(None) => r == Err::<Sdp, ValidityErrors>(ValidityErrors::MissingSdp),
            Ok(Some(found)) => r == Ok::<Sdp, ValidityErrors>(found.1),
        },
{
    match query {
        Err(e) => Err(ValidityErrors::MetadataQueryError(e)),
        Ok(None) => Err(ValidityErrors::MissingSdp),
        Ok(Some((_, sdp))) => Ok(sdp),
    }
}

} // verus!
