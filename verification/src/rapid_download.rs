//! Fetching a package: what to ask the streamer for, and what the store
//! holds once the answer has been written.

use vstd::prelude::*;
use crate::file_download::{uri_parses, FileDownloadError};
use crate::gz::{gunzip, gzip};
use crate::pool_downloader::{
    download_sdp_files, framed, split_frames, split_frames_of_framed, stream_end, streamer_url,
    Frames, ReadingError, StreamRequest,
};
use crate::rapid::rapid_store::{
    asks_for_any, download_map_is_unique, download_map_is_zero_when_complete, is_download_map,
    missing_indices,
    missing_indices_are_the_absent, RapidStore,
};
use crate::rapid::types::{Repo, Sdp, SdpPackage, SdpPackageView};
use crate::repair::{
    after_validation, after_validations, initial, is_discarded, Outcome, RepairState, MAX_ATTEMPTS,
};
use crate::validation::{
    file_error, invalid_files, no_invalid_files_means_all_valid, StoredFileView,
};

verus! {

/// What fetching a package comes to, before anything is sent.
#[derive(Debug)]
pub enum DownloadPlan {
    /// No blob is missing: there is nothing to ask for, and nothing is sent.
    Complete,
    /// Send `request`. The answer is to hold `expected` payloads, those of
    /// the blobs that `download_map` marks, in the order of the blob list.
    Fetch { request: StreamRequest, download_map: Vec<u8>, expected: usize },
}

/// How many blobs are missing.
pub fn count_missing(present: &[bool]) -> (count: usize)
    ensures
        count == missing_indices(present@).len(),
{
    let mut count: usize = 0;
    let mut i: usize = 0;
    assert(present@.take(0) =~= Seq::<bool>::empty());
    while i < present.len()
        invariant
            i <= present@.len(),
            count <= i,
            count == missing_indices(present@.take(i as int)).len(),
        decreases present@.len() - i,
    {
        proof {
            let now = present@.take(i + 1);
            assert(now.drop_last() =~= present@.take(i as int));
            assert(now.last() == present@[i as int]);
        }
        if !present[i] {
            count += 1;
        }
        i += 1;
    }
    assert(present@.take(i as int) =~= present@);
    count
}

/// Plans the fetch of the blobs of `sdp` that the store lacks. `present[i]`
/// says whether the file of blob `i` is there.
///
/// Where no blob is missing the plan is `Complete`. Otherwise it is the
/// request whose body is the compressed bitmap of the missing blobs, owed
/// wherever the streamer's address is a URI and the bitmap compresses. An
/// address that is no URI gives `InvalidUri`; a bitmap that does not
/// compress, with a good address, gives `FilesystemError`.
pub fn download(
    rapid_store: &RapidStore,
    repo: &Repo,
    sdp: &Sdp,
    sdp_files: &[SdpPackage],
    present: &[bool],
) -> (r: Result<DownloadPlan, FileDownloadError>)
    requires
        present@.len() == sdp_files@.len(),
    ensures
        r is Ok <==> missing_indices(present@).len() == 0 || (uri_parses(
            streamer_url(repo.url@, sdp.md5@),
        ) && forall|map: Seq<u8>| #[trigger] is_download_map(map, present@) ==> gzip(map) is Some),
        match r {
            Ok(DownloadPlan::Complete) => missing_indices(present@).len() == 0,
            Ok(DownloadPlan::Fetch { request, download_map, expected }) => {
                &&& expected == missing_indices(present@).len()
                &&& expected > 0
                &&& is_download_map(download_map@, present@)
                &&& uri_parses(streamer_url(repo.url@, sdp.md5@))
                &&& request.url@ == streamer_url(repo.url@, sdp.md5@)
                &&& gzip(download_map@) == Some(request.body@)
                &&& gunzip(request.body@) == Some(download_map@)
            },
            Err(e) => {
                &&& missing_indices(present@).len() > 0
                &&& if uri_parses(streamer_url(repo.url@, sdp.md5@)) {
                    e == FileDownloadError::FilesystemError
                } else {
                    e == FileDownloadError::InvalidUri
                }
            },
        },
{
    let download_map = rapid_store.get_missing_files_indices(sdp_files, present);
    proof {
        download_map_is_zero_when_complete(download_map@, present@);
        missing_indices_are_the_absent(present@);
        assert forall|map: Seq<u8>| #[trigger] is_download_map(map, present@) implies map
            == download_map@ by {
            download_map_is_unique(map, download_map@, present@);
        }
    }
    if !asks_for_any(download_map.as_slice()) {
        return Ok(DownloadPlan::Complete);
    }
    let expected = count_missing(present);
    let request = download_sdp_files(repo, sdp, download_map.as_slice(), sdp_files)?;
    Ok(DownloadPlan::Fetch { request, download_map, expected })
}

/// Which files are there.
pub open spec fn presence(files: Seq<StoredFileView>) -> Seq<bool> {
    Seq::new(files.len(), |i: int| !(files[i] is Absent))
}

/// The files of a package after those that are corrupt or have a wrong hash
/// were deleted.
pub open spec fn after_removal(packages: Seq<SdpPackageView>, files: Seq<StoredFileView>) -> Seq<
    StoredFileView,
>
    recommends
        packages.len() == files.len(),
{
    Seq::new(
        files.len(),
        |i: int|
            match file_error(files[i], packages[i].md5_bin) {
                Some(error) => if is_discarded(error) {
                    StoredFileView::Absent
                } else {
                    files[i]
                },
                None => files[i],
            },
    )
}

/// The files of a package after the payloads of a response were written:
/// payload `k` is the file of the `k`-th missing blob.
pub open spec fn after_writes(files: Seq<StoredFileView>, payloads: Seq<Seq<u8>>) -> Seq<
    StoredFileView,
> {
    let missing = missing_indices(presence(files));
    Seq::new(
        files.len(),
        |i: int|
            if missing.contains(i) && missing.index_of(i) < payloads.len() {
                StoredFileView::Present(payloads[missing.index_of(i)])
            } else {
                files[i]
            },
    )
}

/// Whether `payloads` are what the package lacks: one for each missing blob,
/// in the order of the blob list, each a valid file of its blob.
pub open spec fn supplies_missing(
    packages: Seq<SdpPackageView>,
    files: Seq<StoredFileView>,
    payloads: Seq<Seq<u8>>,
) -> bool {
    let missing = missing_indices(presence(files));
    &&& payloads.len() == missing.len()
    &&& forall|k: int|
        0 <= k < missing.len() ==> (#[trigger] file_error(
            StoredFileView::Present(payloads[k]),
            packages[missing[k]].md5_bin,
        )) is None
}

/// What a validation of the package comes to for the engine.
pub open spec fn outcome_for(
    root: Seq<char>,
    packages: Seq<SdpPackageView>,
    files: Seq<StoredFileView>,
) -> Outcome {
    if invalid_files(root, packages, files).len() == 0 {
        Outcome::Valid
    } else {
        Outcome::Invalid(invalid_files(root, packages, files))
    }
}

/// A response that carries the payloads of the missing blobs, in order and
/// with nothing after them, is read to its end; writing what it held leaves
/// no missing blob invalid and no other file touched.
pub proof fn fetch_supplies_missing(
    packages: Seq<SdpPackageView>,
    files: Seq<StoredFileView>,
    payloads: Seq<Seq<u8>>,
)
    requires
        packages.len() == files.len(),
        supplies_missing(packages, files, payloads),
        forall|k: int| 0 <= k < payloads.len() ==> (#[trigger] payloads[k]).len() <= u32::MAX,
    ensures
        split_frames(framed(payloads), payloads.len()) == (Frames {
            payloads,
            tail: Seq::<u8>::empty(),
        }),
        stream_end(framed(payloads), false, payloads.len()) == Ok::<Seq<u8>, ReadingError>(
            Seq::<u8>::empty(),
        ),
        forall|i: int|
            0 <= i < files.len() ==> if files[i] is Absent {
                (#[trigger] file_error(after_writes(files, payloads)[i], packages[i].md5_bin))
                    is None
            } else {
                after_writes(files, payloads)[i] == files[i]
            },
{
    split_frames_of_framed(payloads, Seq::<u8>::empty());
    assert(framed(payloads) + Seq::<u8>::empty() =~= framed(payloads));
    let present = presence(files);
    let missing = missing_indices(present);
    missing_indices_are_the_absent(present);
    assert forall|i: int| 0 <= i < files.len() implies if files[i] is Absent {
        (#[trigger] file_error(after_writes(files, payloads)[i], packages[i].md5_bin)) is None
    } else {
        after_writes(files, payloads)[i] == files[i]
    } by {
        if files[i] is Absent {
            assert(!present[i]);
            assert(missing.contains(i));
            let k = missing.index_of(i);
            assert(0 <= k < missing.len() && missing[k] == i);
            assert(file_error(StoredFileView::Present(payloads[k]), packages[missing[k]].md5_bin)
                is None);
        } else {
            assert(present[i]);
            if missing.contains(i) {
                let k = choose|k: int| 0 <= k < missing.len() && missing[k] == i;
                assert(!present[missing[k]]);
            }
        }
    }
}

/// One repair makes a package valid where the fetch succeeds: after the
/// corrupt files and those with a wrong hash were deleted and the payloads
/// of the blobs that are then missing were written, every file is valid.
pub proof fn repair_makes_valid(
    root: Seq<char>,
    packages: Seq<SdpPackageView>,
    files: Seq<StoredFileView>,
    payloads: Seq<Seq<u8>>,
)
    requires
        packages.len() == files.len(),
        supplies_missing(packages, after_removal(packages, files), payloads),
        forall|k: int| 0 <= k < payloads.len() ==> (#[trigger] payloads[k]).len() <= u32::MAX,
    ensures
        outcome_for(root, packages, after_writes(after_removal(packages, files), payloads))
            is Valid,
{
    let cleaned = after_removal(packages, files);
    let mended = after_writes(cleaned, payloads);
    fetch_supplies_missing(packages, cleaned, payloads);
    assert forall|i: int| 0 <= i < packages.len() implies (#[trigger] file_error(
        mended[i],
        packages[i].md5_bin,
    )) is None by {
        if !(cleaned[i] is Absent) {
            assert(mended[i] == cleaned[i]);
            assert(cleaned[i] == files[i]);
        }
    }
    no_invalid_files_means_all_valid(root, packages, mended);
}

/// With a fetch that succeeds, a repair is over in `Verified` within two
/// attempts: on the first where the package was valid already, on the
/// second where it was not.
pub proof fn repair_converges(
    root: Seq<char>,
    packages: Seq<SdpPackageView>,
    files: Seq<StoredFileView>,
    payloads: Seq<Seq<u8>>,
)
    requires
        packages.len() == files.len(),
        supplies_missing(packages, after_removal(packages, files), payloads),
        forall|k: int| 0 <= k < payloads.len() ==> (#[trigger] payloads[k]).len() <= u32::MAX,
    ensures
        ({
            let first = outcome_for(root, packages, files);
            let second = outcome_for(
                root,
                packages,
                after_writes(after_removal(packages, files), payloads),
            );
            let end = after_validation(after_validation(initial(), first), second);
            &&& end.state == RepairState::Verified
            &&& end.attempts == if first is Valid {
                1nat
            } else {
                2nat
            }
        }),
{
    repair_makes_valid(root, packages, files, payloads);
}

/// While every validation finds invalid files, the engine goes on
/// attempting through four attempts and ends in `Failed` with the fifth.
pub proof fn repair_gives_up_after_five(outcomes: Seq<Outcome>)
    requires
        outcomes.len() <= MAX_ATTEMPTS,
        forall|i: int| 0 <= i < outcomes.len() ==> (#[trigger] outcomes[i]) is Invalid,
    ensures
        after_validations(initial(), outcomes).attempts == outcomes.len(),
        after_validations(initial(), outcomes).state == if outcomes.len() < MAX_ATTEMPTS {
            RepairState::Attempting
        } else {
            RepairState::Failed
        },
    decreases outcomes.len(),
{
    if outcomes.len() > 0 {
        let before = outcomes.drop_last();
        assert forall|i: int| 0 <= i < before.len() implies (#[trigger] before[i]) is Invalid by {
            assert(before[i] == outcomes[i]);
        }
        repair_gives_up_after_five(before);
        assert(outcomes.last() == outcomes[outcomes.len() - 1]);
    }
}

/// The first validation that finds the package valid, within the five
/// attempts, ends the repair in `Verified`, and the attempts made are the
/// validations run.
pub proof fn repair_ends_when_valid(outcomes: Seq<Outcome>)
    requires
        0 < outcomes.len() <= MAX_ATTEMPTS,
        forall|i: int| 0 <= i < outcomes.len() - 1 ==> (#[trigger] outcomes[i]) is Invalid,
        outcomes.last() is Valid,
    ensures
        after_validations(initial(), outcomes).state == RepairState::Verified,
        after_validations(initial(), outcomes).attempts == outcomes.len(),
{
    let before = outcomes.drop_last();
    assert forall|i: int| 0 <= i < before.len() implies (#[trigger] before[i]) is Invalid by {
        assert(before[i] == outcomes[i]);
    }
    repair_gives_up_after_five(before);
}

/// An engine that has ended stays where it is, whatever is reported to it.
pub proof fn repair_end_is_final(engine: crate::repair::RepairView, outcome: Outcome)
    requires
        engine.state != RepairState::Attempting,
    ensures
        after_validation(engine, outcome) == engine,
{
}

} // verus!
