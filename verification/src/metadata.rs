//! Looking a package up: from its name to its repository and descriptor.
//!
//! A package goes by a full name such as `byar:test`: the name of its
//! repository, a colon, and a tag. The functions here make the decisions of
//! a lookup; fetching and reading the files is the caller's part.

use vstd::prelude::*;
use crate::gz::GzReadError;
use crate::rapid::parsing::FormatError;
use crate::rapid::types::{repo_views, sdp_views, Repo, RepoView, Sdp, SdpView};
use crate::text::{chars_of, find_from, position_of, push_text, same_chars, string_from_chars};

verus! {

/// Why a package could not be looked up.
#[derive(Debug, Clone, Copy, PartialEq, Eq, Structural)]
pub enum MetadataQueryError {
    /// A metadata file is there and cannot be read as what it should be.
    CorruptFile(FormatError),
    /// A metadata file could not be fetched.
    DownloadFailed,
}

/// How often the registry is read before a lookup gives up on it.
pub const REGISTRY_ATTEMPTS: u32 = 5;

/// The name of the repository in a full name: what stands before the first
/// colon, or all of it where there is none.
pub open spec fn basename_of(fullname: Seq<char>) -> Seq<char> {
    fullname.take(position_of(fullname, ':'))
}

/// The name of the repository that the package `fullname` belongs to.
pub fn repo_basename(fullname: &str) -> (name: String)
    ensures
        name@ == basename_of(fullname@),
{
    let chars = chars_of(fullname);
    assert(chars@.skip(0) =~= chars@);
    let end = find_from(chars.as_slice(), 0, ':');
    let part = vstd::slice::slice_subrange(chars.as_slice(), 0, end);
    assert(part@ =~= chars@.take(end as int));
    string_from_chars(part)
}

/// The full name that the REST service knows the tag `tag` of a repository
/// by: the name of the repository, a colon, and the tag.
pub fn rest_query_name(repo: &Repo, tag: &str) -> (name: String)
    ensures
        name@ == repo.name@ + seq![':'] + tag@,
{
    let mut chars = chars_of(repo.name.as_str());
    chars.push(':');
    push_text(&mut chars, tag);
    string_from_chars(chars.as_slice())
}

/// Where the first repository named `name` stands in `repos`, or the length
/// of `repos` where none is.
pub open spec fn position_of_repo(repos: Seq<RepoView>, name: Seq<char>) -> int
    decreases repos.len(),
{
    if repos.len() == 0 || repos[0].name == name {
        0
    } else {
        1 + position_of_repo(repos.skip(1), name)
    }
}

/// `position_of_repo` is the least index of a repository named `name`.
pub proof fn position_of_repo_is_first(repos: Seq<RepoView>, name: Seq<char>)
    ensures
        0 <= position_of_repo(repos, name) <= repos.len(),
        position_of_repo(repos, name) < repos.len() ==> repos[position_of_repo(repos, name)].name
            == name,
        forall|i: int| 0 <= i < position_of_repo(repos, name) ==> (#[trigger] repos[i]).name != name,
    decreases repos.len(),
{
    if repos.len() == 0 || repos[0].name == name {
    } else {
        let rest = repos.skip(1);
        position_of_repo_is_first(rest, name);
        assert forall|i: int| 0 <= i < position_of_repo(repos, name) implies (#[trigger] repos[i]).name
            != name by {
            if i > 0 {
                assert(rest[i - 1] == repos[i]);
            }
        }
    }
}

/// The first repository of the registry that is named `repo_basename`.
pub fn find_repo(repos: Vec<Repo>, repo_basename: &str) -> (found: Option<Repo>)
    ensures
        match found {
            Some(repo) => {
                &&& position_of_repo(repo_views(repos@), repo_basename@) < repos@.len()
                &&& repo@ == repos@[position_of_repo(repo_views(repos@), repo_basename@)]@
            },
            None => position_of_repo(repo_views(repos@), repo_basename@) == repos@.len(),
        },
{
    let ghost all = repo_views(repos@);
    let mut list = repos;
    let wanted = chars_of(repo_basename);
    let mut i: usize = 0;
    assert(all.skip(0) =~= all);
    while i < list.len()
        invariant
            i <= list@.len(),
            all == repo_views(list@),
            list@ == repos@,
            wanted@ == repo_basename@,
            position_of_repo(all, repo_basename@) == i + position_of_repo(
                all.skip(i as int),
                repo_basename@,
            ),
        decreases list@.len() - i,
    {
        let name = chars_of(list[i].name.as_str());
        assert(all.skip(i as int)[0] == list@[i as int]@);
        if same_chars(name.as_slice(), wanted.as_slice()) {
            let repo = list.swap_remove(i);
            return Some(repo);
        }
        assert(all.skip(i as int).skip(1) =~= all.skip(i + 1));
        i += 1;
    }
    None
}

/// Where the first entry with the hash `md5` stands in `sdps`, or the length
/// of `sdps` where none is.
pub open spec fn position_of_md5(sdps: Seq<SdpView>, md5: Seq<char>) -> int
    decreases sdps.len(),
{
    if sdps.len() == 0 || sdps[0].md5 == md5 {
        0
    } else {
        1 + position_of_md5(sdps.skip(1), md5)
    }
}

/// `position_of_md5` is the least index of an entry with the hash `md5`.
pub proof fn position_of_md5_is_first(sdps: Seq<SdpView>, md5: Seq<char>)
    ensures
        0 <= position_of_md5(sdps, md5) <= sdps.len(),
        position_of_md5(sdps, md5) < sdps.len() ==> sdps[position_of_md5(sdps, md5)].md5 == md5,
        forall|i: int| 0 <= i < position_of_md5(sdps, md5) ==> (#[trigger] sdps[i]).md5 != md5,
    decreases sdps.len(),
{
    if sdps.len() == 0 || sdps[0].md5 == md5 {
    } else {
        let rest = sdps.skip(1);
        position_of_md5_is_first(rest, md5);
        assert forall|i: int| 0 <= i < position_of_md5(sdps, md5) implies (#[trigger] sdps[i]).md5
            != md5 by {
            if i > 0 {
                assert(rest[i - 1] == sdps[i]);
            }
        }
    }
}

/// Where the first entry of a version list with the hash `md5` stands.
pub fn find_md5(sdps: &Vec<Sdp>, md5: &[char]) -> (at: usize)
    ensures
        at == position_of_md5(sdp_views(sdps@), md5@),
        at <= sdps@.len(),
{
    let ghost all = sdp_views(sdps@);
    let mut i: usize = 0;
    assert(all.skip(0) =~= all);
    while i < sdps.len()
        invariant
            i <= sdps@.len(),
            all == sdp_views(sdps@),
            position_of_md5(all, md5@) == i + position_of_md5(all.skip(i as int), md5@),
        decreases sdps@.len() - i,
    {
        let hash = chars_of(sdps[i].md5.as_str());
        assert(all.skip(i as int)[0] == sdps@[i as int]@);
        if same_chars(hash.as_slice(), md5) {
            return i;
        }
        assert(all.skip(i as int).skip(1) =~= all.skip(i + 1));
        i += 1;
    }
    i
}

/// The version list of a repository as it was read: its entries, or `None`
/// where the file could not be read.
pub open spec fn list_view(list: Result<Vec<Sdp>, GzReadError>) -> Option<Seq<SdpView>> {
    match list {
        Ok(sdps) => Some(sdp_views(sdps@)),
        Err(_) => None,
    }
}

/// The views of the version lists of several repositories, in order.
pub open spec fn list_views(lists: Seq<Result<Vec<Sdp>, GzReadError>>) -> Seq<
    Option<Seq<SdpView>>,
> {
    lists.map_values(|list: Result<Vec<Sdp>, GzReadError>| list_view(list))
}

/// A package found in the version list of a repository.
pub struct Found {
    pub sdp: SdpView,
    pub repo: RepoView,
}

/// The first package with the hash `md5` in the version lists of `repos`,
/// taken in order, and its repository. The search ends without a find at
/// the first list that could not be read.
pub open spec fn search_repos(
    repos: Seq<RepoView>,
    lists: Seq<Option<Seq<SdpView>>>,
    md5: Seq<char>,
) -> Option<Found>
    decreases repos.len(),
{
    if repos.len() == 0 || lists.len() == 0 {
        None
    } else {
        match lists[0] {
            None => None,
            Some(sdps) => if position_of_md5(sdps, md5) < sdps.len() {
                Some(Found { sdp: sdps[position_of_md5(sdps, md5)], repo: repos[0] })
            } else {
                search_repos(repos.skip(1), lists.skip(1), md5)
            },
        }
    }
}

/// Looks for the package with the hash `sdp_md5` in the repositories of the
/// registry. `lists[i]` is what reading the version list of `repos[i]` gave.
pub fn find_sdp_by_md5(
    repos: Vec<Repo>,
    lists: Vec<Result<Vec<Sdp>, GzReadError>>,
    sdp_md5: &str,
) -> (found: Option<(Sdp, Repo)>)
    requires
        lists@.len() == repos@.len(),
    ensures
        match found {
            Some(pair) => search_repos(repo_views(repos@), list_views(lists@), sdp_md5@) == Some(
                Found { sdp: pair.0@, repo: pair.1@ },
            ),
            None => search_repos(repo_views(repos@), list_views(lists@), sdp_md5@) is None,
        },
{
    let ghost all_repos = repo_views(repos@);
    let ghost all_lists = list_views(lists@);
    let mut candidates = repos;
    let mut read = lists;
    let wanted = chars_of(sdp_md5);
    let mut i: usize = 0;
    assert(all_repos.skip(0) =~= all_repos);
    assert(all_lists.skip(0) =~= all_lists);
    while i < candidates.len()
        invariant
            i <= candidates@.len(),
            read@.len() == candidates@.len(),
            candidates@ == repos@,
            read@ == lists@,
            all_repos == repo_views(repos@),
            all_lists == list_views(lists@),
            wanted@ == sdp_md5@,
            search_repos(all_repos, all_lists, sdp_md5@) == search_repos(
                all_repos.skip(i as int),
                all_lists.skip(i as int),
                sdp_md5@,
            ),
        decreases candidates@.len() - i,
    {
        assert(all_repos.skip(i as int)[0] == candidates@[i as int]@);
        assert(all_lists.skip(i as int)[0] == list_view(read@[i as int]));
        let at = match &read[i] {
            Err(_) => {
                return None;
            },
            Ok(sdps) => {
                let at = find_md5(sdps, wanted.as_slice());
                if at == sdps.len() {
                    None
                } else {
                    Some(at)
                }
            },
        };
        if let Some(at) = at {
            let repo = candidates.swap_remove(i);
            return match read.swap_remove(i) {
                Ok(mut sdps) => Some((sdps.swap_remove(at), repo)),
                Err(_) => None,
            };
        }
        assert(all_repos.skip(i as int).skip(1) =~= all_repos.skip(i + 1));
        assert(all_lists.skip(i as int).skip(1) =~= all_lists.skip(i + 1));
        i += 1;
    }
    None
}

/// What to do once the registry has been read, well or not.
#[derive(Debug)]
pub enum RegistryStep {
    /// The registry was read: these are its repositories.
    Use(Vec<Repo>),
    /// The registry could not be read: fetch it and read it again. `failed`
    /// is how often reading has failed by now.
    Refetch { failed: u32 },
    /// The registry could not be read for the fifth time.
    GiveUp(FormatError),
}

/// Decides how a lookup goes on after the registry was read as `parsed`,
/// where reading had failed `failed` times before.
pub fn registry_step(parsed: Result<Vec<Repo>, FormatError>, failed: u32) -> (step: RegistryStep)
    ensures
        match parsed {
            Ok(repos) => step == RegistryStep::Use(repos),
            Err(e) => if failed + 1 >= REGISTRY_ATTEMPTS {
                step == RegistryStep::GiveUp(e)
            } else {
                step == (RegistryStep::Refetch { failed: (failed + 1) as u32 })
            },
        },
{
    match parsed {
        Ok(repos) => RegistryStep::Use(repos),
        Err(e) => if failed >= REGISTRY_ATTEMPTS - 1 {
            RegistryStep::GiveUp(e)
        } else {
            RegistryStep::Refetch { failed: failed + 1 }
        },
    }
}

} // verus!
