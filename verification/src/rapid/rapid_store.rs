//! The content store: where each file of the store lies under its root, and
//! which blobs of a package are still to be fetched.
//!
//! Paths are text with `/` between the parts. Whether a file is there is for
//! the caller to find out; the functions that need to know take the answer
//! as a list of flags, one per blob.

use vstd::prelude::*;
use crate::gz::{gunzip_text, GzReadError};
use crate::hex::{hash_to_hex, hex_lower, hex_lower_is_injective};
use crate::text::{chars_of, push_chars, push_text, same_chars, string_from_chars};
use super::parsing::{parse_versions, read_rapid_from_file};
use super::types::{sdp_views, Repo, Sdp, SdpPackage, SdpView};

verus! {

/// A content store rooted at a directory.
#[derive(Debug)]
pub struct RapidStore {
    pub root: String,
}

/// `rel` under the directory `root`: the two joined by one `/`, which is
/// left out where `root` is empty or already ends in one.
pub open spec fn join(root: Seq<char>, rel: Seq<char>) -> Seq<char> {
    if root.len() == 0 || root.last() == '/' {
        root + rel
    } else {
        root + seq!['/'] + rel
    }
}

/// Whether `text` begins with `prefix`.
pub open spec fn begins_with(text: Seq<char>, prefix: Seq<char>) -> bool {
    prefix.len() <= text.len() && text.take(prefix.len() as int) == prefix
}

/// A URL without the `http://` or `https://` it begins with. A URL that
/// begins with neither is left as it is.
pub open spec fn host_and_path(url: Seq<char>) -> Seq<char> {
    if begins_with(url, "http://"@) {
        url.skip("http://"@.len() as int)
    } else if begins_with(url, "https://"@) {
        url.skip("https://"@.len() as int)
    } else {
        url
    }
}

/// The hexadecimal text of a hash, as characters.
pub open spec fn hex_text(hash: Seq<u8>) -> Seq<char> {
    hex_lower(hash).map_values(|c: u8| c as char)
}

/// Where the registry of repositories lies, below the root.
pub open spec fn registry_path() -> Seq<char> {
    "rapid/repos.springrts.com/repos.gz"@
}

/// Where the version list of the repository at `url` lies, below the root.
pub open spec fn repo_path(url: Seq<char>) -> Seq<char> {
    "rapid/"@ + host_and_path(url) + "/versions.gz"@
}

/// Where the descriptor with the hexadecimal hash `md5` lies, below the
/// root.
pub open spec fn sdp_path(md5: Seq<char>) -> Seq<char> {
    "packages/"@ + md5 + ".sdp"@
}

/// Where the blob with the binary hash `hash` lies, below the root: in the
/// pool, in the directory named by the first two hexadecimal digits, in the
/// file named by the other thirty.
pub open spec fn pool_path(hash: Seq<u8>) -> Seq<char> {
    "pool/"@ + hex_text(hash).take(2) + seq!['/'] + hex_text(hash).skip(2) + ".gz"@
}

/// Whether `sdp` goes by `name`, as its rapid name or as its archive name.
pub open spec fn goes_by(sdp: SdpView, name: Seq<char>) -> bool {
    sdp.rapid_name == name || sdp.archive_name == name
}

/// The first of `sdps` that goes by `name`.
pub open spec fn first_named(sdps: Seq<SdpView>, name: Seq<char>) -> Option<SdpView>
    decreases sdps.len(),
{
    if sdps.len() == 0 {
        None
    } else if goes_by(sdps[0], name) {
        Some(sdps[0])
    } else {
        first_named(sdps.skip(1), name)
    }
}

/// What `first_named` finds goes by the name and stands before every other
/// entry that does; it finds nothing only where no entry goes by the name.
pub proof fn first_named_is_first(sdps: Seq<SdpView>, name: Seq<char>)
    ensures
        match first_named(sdps, name) {
            Some(found) => exists|i: int|
                0 <= i < sdps.len() && #[trigger] sdps[i] == found && goes_by(found, name)
                    && forall|j: int| 0 <= j < i ==> !goes_by(#[trigger] sdps[j], name),
            None => forall|j: int| 0 <= j < sdps.len() ==> !goes_by(#[trigger] sdps[j], name),
        },
    decreases sdps.len(),
{
    if sdps.len() == 0 {
    } else if goes_by(sdps[0], name) {
        assert(sdps[0] == first_named(sdps, name).unwrap());
    } else {
        let rest = sdps.skip(1);
        first_named_is_first(rest, name);
        match first_named(rest, name) {
            Some(found) => {
                let i = choose|i: int|
                    0 <= i < rest.len() && #[trigger] rest[i] == found && goes_by(found, name)
                        && forall|j: int| 0 <= j < i ==> !goes_by(#[trigger] rest[j], name);
                assert(sdps[i + 1] == found);
                assert forall|j: int| 0 <= j < i + 1 implies !goes_by(
                    #[trigger] sdps[j],
                    name,
                ) by {
                    if j > 0 {
                        assert(rest[j - 1] == sdps[j]);
                    }
                }
            },
            None => {
                assert forall|j: int| 0 <= j < sdps.len() implies !goes_by(
                    #[trigger] sdps[j],
                    name,
                ) by {
                    if j > 0 {
                        assert(rest[j - 1] == sdps[j]);
                    }
                }
            },
        }
    }
}

/// The indices of the blobs that are not present, in rising order.
pub open spec fn missing_indices(present: Seq<bool>) -> Seq<int>
    decreases present.len(),
{
    if present.len() == 0 {
        Seq::empty()
    } else {
        let before = missing_indices(present.drop_last());
        if present.last() {
            before
        } else {
            before.push(present.len() - 1)
        }
    }
}

/// `missing_indices` lists exactly the indices that are not present, each
/// once and in rising order.
pub proof fn missing_indices_are_the_absent(present: Seq<bool>)
    ensures
        missing_indices(present).len() <= present.len(),
        forall|k: int|
            0 <= k < missing_indices(present).len() ==> 0 <= (#[trigger] missing_indices(
                present,
            )[k]) < present.len() && !present[missing_indices(present)[k]],
        forall|k: int, l: int|
            0 <= k < l < missing_indices(present).len() ==> (#[trigger] missing_indices(
                present,
            )[k]) < (#[trigger] missing_indices(present)[l]),
        forall|i: int|
            0 <= i < present.len() && !(#[trigger] present[i]) ==> missing_indices(
                present,
            ).contains(i),
    decreases present.len(),
{
    if present.len() > 0 {
        let shorter = present.drop_last();
        let before = missing_indices(shorter);
        let all = missing_indices(present);
        missing_indices_are_the_absent(shorter);
        assert forall|k: int| 0 <= k < all.len() implies 0 <= (#[trigger] all[k]) < present.len()
            && !present[all[k]] by {
            if k < before.len() {
                assert(all[k] == before[k]);
                assert(shorter[before[k]] == present[before[k]]);
            }
        }
        assert forall|k: int, l: int| 0 <= k < l < all.len() implies (#[trigger] all[k]) < (
        #[trigger] all[l]) by {
            assert(all[k] == before[k]);
            if l < before.len() {
                assert(all[l] == before[l]);
            }
        }
        assert forall|i: int| 0 <= i < present.len() && !(#[trigger] present[i]) implies all.contains(
            i,
        ) by {
            if i < shorter.len() {
                assert(!shorter[i]);
                let k = choose|k: int| 0 <= k < before.len() && before[k] == i;
                assert(all[k] == i);
            } else {
                assert(all[all.len() - 1] == i);
            }
        }
    }
}

/// Whether bit `k` of `byte` is set, counting from the lowest.
pub open spec fn bit_set(byte: u8, k: u8) -> bool {
    (byte >> k) & 1u8 == 1u8
}

/// What a download bitmap must be for blobs with these presence flags: one
/// bit per blob, eight to a byte from the lowest bit up, set exactly for the
/// blobs that are not present, and no byte more than that takes.
pub open spec fn is_download_map(map: Seq<u8>, present: Seq<bool>) -> bool {
    &&& map.len() == (present.len() + 7) / 8
    &&& forall|i: int|
        0 <= i < 8 * map.len() ==> (#[trigger] bit_set(map[i / 8], (i % 8) as u8) <==> (i
            < present.len() && !present[i]))
}

proof fn set_bit_sets_one(byte: u8, k: u8, j: u8)
    by (bit_vector)
    requires
        k < 8,
        j < 8,
    ensures
        bit_set(byte | (1u8 << k), j) <==> (bit_set(byte, j) || j == k),
{
}

proof fn zero_has_no_bit(j: u8)
    by (bit_vector)
    requires
        j < 8,
    ensures
        !bit_set(0u8, j),
{
}

proof fn byte_with_bit_is_not_zero(byte: u8, j: u8)
    by (bit_vector)
    requires
        j < 8,
        bit_set(byte, j),
    ensures
        byte != 0,
{
}

proof fn bits_make_the_byte(a: u8, b: u8)
    by (bit_vector)
    requires
        bit_set(a, 0) == bit_set(b, 0),
        bit_set(a, 1) == bit_set(b, 1),
        bit_set(a, 2) == bit_set(b, 2),
        bit_set(a, 3) == bit_set(b, 3),
        bit_set(a, 4) == bit_set(b, 4),
        bit_set(a, 5) == bit_set(b, 5),
        bit_set(a, 6) == bit_set(b, 6),
        bit_set(a, 7) == bit_set(b, 7),
    ensures
        a == b,
{
}

proof fn nonzero_byte_has_bit(byte: u8)
    by (bit_vector)
    requires
        byte != 0,
    ensures
        bit_set(byte, 0) || bit_set(byte, 1) || bit_set(byte, 2) || bit_set(byte, 3) || bit_set(
            byte,
            4,
        ) || bit_set(byte, 5) || bit_set(byte, 6) || bit_set(byte, 7),
{
}

fn starts_with(text: &[char], prefix: &[char]) -> (b: bool)
    ensures
        b == begins_with(text@, prefix@),
{
    if prefix.len() > text.len() {
        return false;
    }
    same_chars(vstd::slice::slice_subrange(text, 0, prefix.len()), prefix)
}

impl RapidStore {
    /// The store rooted at `path`.
    pub fn new(path: String) -> (store: RapidStore)
        ensures
            store.root@ == path@,
    {
        Self { root: path }
    }

    fn under_root(&self, rel: &Vec<char>) -> (path: String)
        ensures
            path@ == join(self.root@, rel@),
    {
        let mut chars = chars_of(self.root.as_str());
        let n = chars.len();
        if n > 0 && chars[n - 1] != '/' {
            chars.push('/');
        }
        push_chars(&mut chars, rel.as_slice());
        assert(chars@ =~= join(self.root@, rel@));
        string_from_chars(chars.as_slice())
    }

    /// Where the registry of repositories lies.
    pub fn get_registry_path(&self) -> (path: String)
        ensures
            path@ == join(self.root@, registry_path()),
    {
        let rel = chars_of("rapid/repos.springrts.com/repos.gz");
        self.under_root(&rel)
    }

    /// Where the version list of `repo` lies: under `rapid`, in the directory
    /// named by the host and path of the repository's URL.
    pub fn get_repo_path(&self, repo: &Repo) -> (path: String)
        ensures
            path@ == join(self.root@, repo_path(repo.url@)),
    {
        let url = chars_of(repo.url.as_str());
        let http = chars_of("http://");
        let https = chars_of("https://");
        let from: usize = if starts_with(url.as_slice(), http.as_slice()) {
            http.len()
        } else if starts_with(url.as_slice(), https.as_slice()) {
            https.len()
        } else {
            0
        };
        assert(url@.skip(0) =~= url@);
        let mut rel = chars_of("rapid/");
        let host = vstd::slice::slice_subrange(url.as_slice(), from, url.len());
        assert(host@ =~= url@.skip(from as int));
        push_chars(&mut rel, host);
        push_text(&mut rel, "/versions.gz");
        self.under_root(&rel)
    }

    /// Where the descriptor of `sdp` lies.
    pub fn get_sdp_path(&self, sdp: &Sdp) -> (path: String)
        ensures
            path@ == join(self.root@, sdp_path(sdp.md5@)),
    {
        self.get_sdp_path_from_md5(sdp.md5.as_str())
    }

    /// Where the descriptor with the hexadecimal hash `sdp_md5` lies.
    pub fn get_sdp_path_from_md5(&self, sdp_md5: &str) -> (path: String)
        ensures
            path@ == join(self.root@, sdp_path(sdp_md5@)),
    {
        let mut rel = chars_of("packages/");
        push_text(&mut rel, sdp_md5);
        push_text(&mut rel, ".sdp");
        self.under_root(&rel)
    }

    /// Where the blob of `sdp_package` lies. The path is made of the binary
    /// hash alone.
    pub fn get_pool_path(&self, sdp_package: &SdpPackage) -> (path: String)
        ensures
            path@ == join(self.root@, pool_path(sdp_package.md5_bin@)),
    {
        let hex = hash_to_hex(&sdp_package.md5_bin);
        let ghost text = hex_text(sdp_package.md5_bin@);
        let mut rel = chars_of("pool/");
        let ghost head = rel@;
        rel.push(hex[0] as char);
        rel.push(hex[1] as char);
        assert(rel@ =~= head + text.take(2));
        rel.push('/');
        let ghost dir = rel@;
        let mut i: usize = 2;
        while i < 32
            invariant
                2 <= i <= 32,
                hex@ == hex_lower(sdp_package.md5_bin@),
                text == hex_text(sdp_package.md5_bin@),
                rel@ == dir + text.subrange(2, i as int),
            decreases 32 - i,
        {
            rel.push(hex[i] as char);
            assert(text.subrange(2, i + 1) =~= text.subrange(2, i as int).push(text[i as int]));
            i += 1;
        }
        assert(text.subrange(2, 32) =~= text.skip(2));
        push_text(&mut rel, ".gz");
        self.under_root(&rel)
    }

    /// Looks `name` up in the version list of a repository, handed over as
    /// the file is stored. The first entry whose rapid name or archive name
    /// is `name` is the answer.
    pub fn find_sdp(&self, versions_file: &[u8], name: &str) -> (r: Result<
        Option<Sdp>,
        GzReadError,
    >)
        ensures
            match r {
                Ok(found) => {
                    &&& gunzip_text(versions_file@) matches Some(text)
                    &&& match found {
                        Some(sdp) => first_named(parse_versions(text), name@) == Some(sdp@),
                        None => first_named(parse_versions(text), name@) is None,
                    }
                },
                Err(_) => gunzip_text(versions_file@) is None,
            },
    {
        let sdps = read_rapid_from_file(versions_file)?;
        Ok(find_by_name(sdps, name))
    }

    /// The blobs of `sdp_files` that are not in the store, in the order of
    /// the list. `present[i]` says whether the file of blob `i` is there.
    pub fn find_missing_files<'a>(&self, sdp_files: &'a [SdpPackage], present: &[bool]) -> (missing:
        Vec<&'a SdpPackage>)
        requires
            present@.len() == sdp_files@.len(),
        ensures
            missing@.len() == missing_indices(present@).len(),
            forall|k: int|
                0 <= k < missing@.len() ==> *(#[trigger] missing@[k]) == sdp_files@[missing_indices(
                    present@,
                )[k]],
    {
        let mut missing: Vec<&'a SdpPackage> = Vec::new();
        let mut i: usize = 0;
        assert(present@.take(0) =~= Seq::<bool>::empty());
        while i < sdp_files.len()
            invariant
                i <= sdp_files@.len(),
                present@.len() == sdp_files@.len(),
                missing@.len() == missing_indices(present@.take(i as int)).len(),
                forall|k: int|
                    0 <= k < missing@.len() ==> *(#[trigger] missing@[k])
                        == sdp_files@[missing_indices(present@.take(i as int))[k]],
            decreases sdp_files@.len() - i,
        {
            proof {
                let now = present@.take(i + 1);
                assert(now.drop_last() =~= present@.take(i as int));
                assert(now.last() == present@[i as int]);
            }
            if !present[i] {
                missing.push(&sdp_files[i]);
            }
            i += 1;
        }
        assert(present@.take(i as int) =~= present@);
        missing
    }

    /// The download bitmap for `sdp_files`: bit `i % 8` of byte `i / 8` is
    /// set exactly where blob `i` is not in the store. `present[i]` says
    /// whether the file of blob `i` is there.
    pub fn get_missing_files_indices(&self, sdp_files: &[SdpPackage], present: &[bool]) -> (map:
        Vec<u8>)
        requires
            present@.len() == sdp_files@.len(),
        ensures
            is_download_map(map@, present@),
    {
        let n = sdp_files.len();
        let map_length = n / 8 + (if n % 8 == 0 {
            0
        } else {
            1
        });
        let mut download_map: Vec<u8> = Vec::new();
        while download_map.len() < map_length
            invariant
                download_map@.len() <= map_length,
                forall|j: int| 0 <= j < download_map@.len() ==> download_map@[j] == 0u8,
            decreases map_length - download_map@.len(),
        {
            download_map.push(0u8);
        }
        let mut i: usize = 0;
        assert forall|j: int| 0 <= j < 8 * download_map@.len() implies !(#[trigger] bit_set(
            download_map@[j / 8],
            (j % 8) as u8,
        )) by {
            zero_has_no_bit((j % 8) as u8);
        }
        while i < n
            invariant
                i <= n,
                n == present@.len(),
                download_map@.len() == (n + 7) / 8,
                forall|j: int|
                    0 <= j < 8 * download_map@.len() ==> (#[trigger] bit_set(
                        download_map@[j / 8],
                        (j % 8) as u8,
                    ) <==> (j < i && !present@[j])),
            decreases n - i,
        {
            if !present[i] {
                let ghost before = download_map@;
                let shift = (i % 8) as u8;
                let byte = download_map[i / 8];
                download_map.set(i / 8, byte | (1u8 << shift));
                assert forall|j: int| 0 <= j < 8 * download_map@.len() implies (#[trigger] bit_set(
                    download_map@[j / 8],
                    (j % 8) as u8,
                ) <==> (j < i + 1 && !present@[j])) by {
                    if j / 8 == i / 8 {
                        set_bit_sets_one(byte, shift, (j % 8) as u8);
                        assert(bit_set(before[j / 8], (j % 8) as u8) <==> (j < i && !present@[j]));
                    } else {
                        assert(download_map@[j / 8] == before[j / 8]);
                        assert(bit_set(before[j / 8], (j % 8) as u8) <==> (j < i && !present@[j]));
                    }
                }
            }
            i += 1;
        }
        download_map
    }
}

/// The first of `sdps` whose rapid name or archive name is `name`.
pub fn find_by_name(sdps: Vec<Sdp>, name: &str) -> (found: Option<Sdp>)
    ensures
        match found {
            Some(sdp) => first_named(sdp_views(sdps@), name@) == Some(sdp@),
            None => first_named(sdp_views(sdps@), name@) is None,
        },
{
    let ghost all = sdp_views(sdps@);
    let mut list = sdps;
    let wanted = chars_of(name);
    let mut i: usize = 0;
    assert(all.skip(0) =~= all);
    while i < list.len()
        invariant
            i <= list@.len(),
            all == sdp_views(list@),
            all == sdp_views(sdps@),
            wanted@ == name@,
            first_named(all, name@) == first_named(all.skip(i as int), name@),
        decreases list@.len() - i,
    {
        let rapid_name = chars_of(list[i].rapid_name.as_str());
        let archive_name = chars_of(list[i].archive_name.as_str());
        let ghost entry = all.skip(i as int)[0];
        assert(entry == list@[i as int]@);
        if same_chars(rapid_name.as_slice(), wanted.as_slice()) || same_chars(
            archive_name.as_slice(),
            wanted.as_slice(),
        ) {
            assert(goes_by(entry, name@));
            let sdp = list.swap_remove(i);
            return Some(sdp);
        }
        assert(all.skip(i as int).skip(1) =~= all.skip(i + 1));
        i += 1;
    }
    None
}

/// The indices of the blobs that are not present, in rising order.
pub fn missing_positions(present: &[bool]) -> (missing: Vec<usize>)
    ensures
        missing@.len() == missing_indices(present@).len(),
        forall|k: int|
            0 <= k < missing@.len() ==> (#[trigger] missing@[k]) == missing_indices(present@)[k],
{
    let mut missing: Vec<usize> = Vec::new();
    let mut i: usize = 0;
    assert(present@.take(0) =~= Seq::<bool>::empty());
    while i < present.len()
        invariant
            i <= present@.len(),
            missing@.len() == missing_indices(present@.take(i as int)).len(),
            forall|k: int|
                0 <= k < missing@.len() ==> (#[trigger] missing@[k]) == missing_indices(
                    present@.take(i as int),
                )[k],
        decreases present@.len() - i,
    {
        proof {
            let now = present@.take(i + 1);
            assert(now.drop_last() =~= present@.take(i as int));
            assert(now.last() == present@[i as int]);
        }
        if !present[i] {
            missing.push(i);
        }
        i += 1;
    }
    assert(present@.take(i as int) =~= present@);
    missing
}

/// Whether a download bitmap asks for any blob at all.
pub fn asks_for_any(download_map: &[u8]) -> (any: bool)
    ensures
        any <==> exists|i: int| 0 <= i < download_map@.len() && download_map@[i] != 0,
{
    let mut i: usize = 0;
    while i < download_map.len()
        invariant
            i <= download_map@.len(),
            forall|j: int| 0 <= j < i ==> download_map@[j] == 0,
        decreases download_map@.len() - i,
    {
        if download_map[i] != 0 {
            return true;
        }
        i += 1;
    }
    false
}

/// A blob's place in the pool is made of its hash alone: two records with
/// the same binary hash lie at the same path, whatever their names.
pub proof fn pool_path_ignores_name(store: RapidStore, first: SdpPackage, second: SdpPackage)
    requires
        first.md5_bin@ == second.md5_bin@,
    ensures
        join(store.root@, pool_path(first.md5_bin@)) == join(
            store.root@,
            pool_path(second.md5_bin@),
        ),
{
}

/// Blobs with different hashes lie at different paths.
pub proof fn pool_path_tells_hashes_apart(first: Seq<u8>, second: Seq<u8>)
    requires
        first.len() == 16,
        second.len() == 16,
        pool_path(first) == pool_path(second),
    ensures
        first == second,
{
    reveal_strlit("pool/");
    reveal_strlit(".gz");
    let one = hex_text(first);
    let other = hex_text(second);
    let path = pool_path(first);
    assert forall|i: int| 0 <= i < 32 implies hex_lower(first)[i] == hex_lower(second)[i] by {
        if i < 2 {
            assert(path[5 + i] == one[i]);
            assert(path[5 + i] == other[i]);
        } else {
            assert(path[6 + i] == one[i]);
            assert(path[6 + i] == other[i]);
        }
        assert(one[i] == hex_lower(first)[i] as char);
        assert(other[i] == hex_lower(second)[i] as char);
    }
    assert(hex_lower(first) =~= hex_lower(second));
    hex_lower_is_injective(first, second);
}

/// Every blob has a bit in the download bitmap, and the bit is set exactly
/// where the blob is listed as missing. The bits beyond the last blob are
/// clear.
pub proof fn download_map_matches_missing(map: Seq<u8>, present: Seq<bool>)
    requires
        is_download_map(map, present),
    ensures
        forall|i: int|
            0 <= i < present.len() ==> i / 8 < map.len() && (#[trigger] bit_set(
                map[i / 8],
                (i % 8) as u8,
            ) <==> missing_indices(present).contains(i)),
        forall|i: int|
            present.len() <= i < 8 * map.len() ==> !(#[trigger] bit_set(map[i / 8], (i % 8) as u8)),
{
    missing_indices_are_the_absent(present);
    assert forall|i: int| 0 <= i < present.len() implies i / 8 < map.len() && (#[trigger] bit_set(
        map[i / 8],
        (i % 8) as u8,
    ) <==> missing_indices(present).contains(i)) by {
        if missing_indices(present).contains(i) {
            let k = choose|k: int|
                0 <= k < missing_indices(present).len() && missing_indices(present)[k] == i;
            assert(!present[missing_indices(present)[k]]);
        }
    }
}

proof fn download_maps_agree_on_bit(
    first: Seq<u8>,
    second: Seq<u8>,
    present: Seq<bool>,
    b: int,
    k: u8,
)
    requires
        is_download_map(first, present),
        is_download_map(second, present),
        0 <= b < first.len(),
        k < 8,
    ensures
        bit_set(first[b], k) == bit_set(second[b], k),
{
    let i = 8 * b + k;
    assert(i / 8 == b && (i % 8) as u8 == k);
    assert(bit_set(first[i / 8], (i % 8) as u8) <==> (i < present.len() && !present[i]));
    assert(bit_set(second[i / 8], (i % 8) as u8) <==> (i < present.len() && !present[i]));
}

/// Presence flags have one download bitmap and no other.
pub proof fn download_map_is_unique(first: Seq<u8>, second: Seq<u8>, present: Seq<bool>)
    requires
        is_download_map(first, present),
        is_download_map(second, present),
    ensures
        first == second,
{
    assert forall|b: int| 0 <= b < first.len() implies first[b] == second[b] by {
        download_maps_agree_on_bit(first, second, present, b, 0);
        download_maps_agree_on_bit(first, second, present, b, 1);
        download_maps_agree_on_bit(first, second, present, b, 2);
        download_maps_agree_on_bit(first, second, present, b, 3);
        download_maps_agree_on_bit(first, second, present, b, 4);
        download_maps_agree_on_bit(first, second, present, b, 5);
        download_maps_agree_on_bit(first, second, present, b, 6);
        download_maps_agree_on_bit(first, second, present, b, 7);
        bits_make_the_byte(first[b], second[b]);
    }
    assert(first =~= second);
}

/// A download bitmap asks for a blob exactly where some blob is missing.
pub proof fn download_map_is_zero_when_complete(map: Seq<u8>, present: Seq<bool>)
    requires
        is_download_map(map, present),
    ensures
        (exists|i: int| 0 <= i < map.len() && map[i] != 0) <==> missing_indices(present).len() > 0,
{
    missing_indices_are_the_absent(present);
    if missing_indices(present).len() > 0 {
        let i = missing_indices(present)[0];
        assert(!present[i]);
        assert(bit_set(map[i / 8], (i % 8) as u8));
        byte_with_bit_is_not_zero(map[i / 8], (i % 8) as u8);
        assert(map[i / 8] != 0);
    }
    if exists|b: int| 0 <= b < map.len() && map[b] != 0 {
        let b = choose|b: int| 0 <= b < map.len() && map[b] != 0;
        nonzero_byte_has_bit(map[b]);
        let k: int = if bit_set(map[b], 0) {
            0
        } else if bit_set(map[b], 1) {
            1
        } else if bit_set(map[b], 2) {
            2
        } else if bit_set(map[b], 3) {
            3
        } else if bit_set(map[b], 4) {
            4
        } else if bit_set(map[b], 5) {
            5
        } else if bit_set(map[b], 6) {
            6
        } else {
            7
        };
        let i = 8 * b + k;
        assert(i / 8 == b && i % 8 == k);
        assert(bit_set(map[i / 8], (i % 8) as u8));
        assert(!present[i]);
        assert(missing_indices(present).contains(i));
    }
}

} // verus!
