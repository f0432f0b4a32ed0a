//! The value types of the Rapid data model.

use vstd::prelude::*;
use crate::hex::hex_lower;

verus! {

/// A remote source of package versions.
#[derive(Debug, Clone, PartialEq)]
pub struct Repo {
    pub name: String,
    pub url: String,
}

/// What a [`Repo`] holds, as mathematical values.
pub struct RepoView {
    pub name: Seq<char>,
    pub url: Seq<char>,
}

impl View for Repo {
    type V = RepoView;

    open spec fn view(&self) -> RepoView {
        RepoView { name: self.name@, url: self.url@ }
    }
}

/// One installable package version of a repository. `md5` is the content hash
/// in hexadecimal; it also names the file the descriptor is stored in.
#[derive(Debug, Clone, PartialEq)]
pub struct Sdp {
    pub rapid_name: String,
    pub md5: String,
    pub depends: String,
    pub archive_name: String,
}

/// What an [`Sdp`] holds, as mathematical values.
pub struct SdpView {
    pub rapid_name: Seq<char>,
    pub md5: Seq<char>,
    pub depends: Seq<char>,
    pub archive_name: Seq<char>,
}

impl View for Sdp {
    type V = SdpView;

    open spec fn view(&self) -> SdpView {
        SdpView {
            rapid_name: self.rapid_name@,
            md5: self.md5@,
            depends: self.depends@,
            archive_name: self.archive_name@,
        }
    }
}

/// One content blob of a package. `md5_bin` identifies the blob; `md5` is the
/// same hash as 32 lowercase hexadecimal digits. `crc32` is carried as stored.
#[derive(Debug, Clone, PartialEq)]
pub struct SdpPackage {
    pub name: String,
    pub md5: [u8; 32],
    pub md5_bin: [u8; 16],
    pub crc32: [u8; 4],
    pub size: u32,
}

/// What an [`SdpPackage`] holds, as mathematical values.
pub struct SdpPackageView {
    pub name: Seq<char>,
    pub md5: Seq<u8>,
    pub md5_bin: Seq<u8>,
    pub crc32: Seq<u8>,
    pub size: u32,
}

impl SdpPackageView {
    /// The field widths are those of the record, and the hexadecimal hash is
    /// the text of the binary one.
    pub open spec fn wf(self) -> bool {
        &&& self.md5_bin.len() == 16
        &&& self.crc32.len() == 4
        &&& self.md5 == hex_lower(self.md5_bin)
    }
}

impl View for SdpPackage {
    type V = SdpPackageView;

    open spec fn view(&self) -> SdpPackageView {
        SdpPackageView {
            name: self.name@,
            md5: self.md5@,
            md5_bin: self.md5_bin@,
            crc32: self.crc32@,
            size: self.size,
        }
    }
}

impl SdpPackage {
    /// The hexadecimal hash agrees with the binary one.
    pub open spec fn wf(&self) -> bool {
        self@.wf()
    }
}

impl Default for SdpPackage {
    /// The record with an empty name and every byte zero. Its hexadecimal
    /// hash is not the text of its binary hash, so it is not well-formed.
    fn default() -> (r: SdpPackage)
        ensures
            r.name@ == Seq::<char>::empty(),
            r.md5@ == Seq::new(32, |i: int| 0u8),
            r.md5_bin@ == Seq::new(16, |i: int| 0u8),
            r.crc32@ == Seq::new(4, |i: int| 0u8),
            r.size == 0,
    {
        let r = SdpPackage {
            name: String::new(),
            md5: [0u8; 32],
            md5_bin: [0u8; 16],
            crc32: [0u8; 4],
            size: 0,
        };
        assert(r.md5@ =~= Seq::new(32, |i: int| 0u8));
        assert(r.md5_bin@ =~= Seq::new(16, |i: int| 0u8));
        assert(r.crc32@ =~= Seq::new(4, |i: int| 0u8));
        r
    }
}

/// The views of a list of repositories, in order.
pub open spec fn repo_views(repos: Seq<Repo>) -> Seq<RepoView> {
    repos.map_values(|r: Repo| r@)
}

/// The views of a list of package versions, in order.
pub open spec fn sdp_views(sdps: Seq<Sdp>) -> Seq<SdpView> {
    sdps.map_values(|s: Sdp| s@)
}

/// The views of a list of blob records, in order.
pub open spec fn package_views(packages: Seq<SdpPackage>) -> Seq<SdpPackageView> {
    packages.map_values(|p: SdpPackage| p@)
}

} // verus!
