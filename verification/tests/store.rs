use sprd::gz::{gzip_data, GzReadError};
use sprd::hex::hash_to_hex;
use sprd::rapid::rapid_store::{asks_for_any, find_by_name, RapidStore};
use sprd::rapid::types::{Repo, Sdp, SdpPackage};

fn blob(name: &str, md5_bin: [u8; 16]) -> SdpPackage {
    SdpPackage { name: name.to_owned(), md5: hash_to_hex(&md5_bin), md5_bin, crc32: [0; 4], size: 0 }
}

fn blobs(count: usize) -> Vec<SdpPackage> {
    (0..count).map(|i| blob(&format!("f{}", i), [i as u8; 16])).collect()
}

fn version(rapid_name: &str, md5: &str, archive_name: &str) -> Sdp {
    Sdp {
        rapid_name: rapid_name.to_owned(),
        md5: md5.to_owned(),
        depends: String::new(),
        archive_name: archive_name.to_owned(),
    }
}

const VERSIONS: &str = "sbc:git:860aac5eb5ce292121b741ca8514516777ae14dc,d80d786597510d1358be3b04a7e9146e,,SpringBoard Core 0.5.2\nsbc:test,d80d786597510d1358be3b04a7e9146e,,SpringBoard Core 0.5.2\nsbc:git:0000,00000000000000000000000000000000,,SpringBoard Core 0.0.1\n";

#[test]
fn hex_of_a_hash() {
    let hash = [0x00, 0x01, 0x0a, 0x0f, 0x10, 0x9a, 0xab, 0xff, 0x12, 0x34, 0x56, 0x78, 0x9a, 0xbc, 0xde, 0xf0];
    assert_eq!(&hash_to_hex(&hash)[..], b"00010a0f109aabff123456789abcdef0");
}

#[test]
fn registry_path_is_under_the_root() {
    let store = RapidStore::new("/home/u/.spring".to_owned());
    assert_eq!(store.get_registry_path(), "/home/u/.spring/rapid/repos.springrts.com/repos.gz");
}

#[test]
fn root_is_joined_with_one_slash() {
    assert_eq!(RapidStore::new("root/".to_owned()).get_registry_path(), "root/rapid/repos.springrts.com/repos.gz");
    assert_eq!(RapidStore::new("".to_owned()).get_registry_path(), "rapid/repos.springrts.com/repos.gz");
    assert_eq!(RapidStore::new("/".to_owned()).get_registry_path(), "/rapid/repos.springrts.com/repos.gz");
    assert_eq!(RapidStore::new(".".to_owned()).get_registry_path(), "./rapid/repos.springrts.com/repos.gz");
}

#[test]
fn paths_agree_with_std_join() {
    for root in ["", "/", "a", "a/", "/a/b", "./x", "test_folders/test_sprd"] {
        let store = RapidStore::new(root.to_owned());
        for md5 in ["d80d786597510d1358be3b04a7e9146e", ""] {
            let expected = std::path::Path::new(root).join(format!("packages/{}.sdp", md5));
            assert_eq!(store.get_sdp_path_from_md5(md5), expected.to_str().unwrap());
        }
    }
}

#[test]
fn repo_path_strips_the_scheme() {
    let store = RapidStore::new("r".to_owned());
    let path = |url: &str| store.get_repo_path(&Repo { name: "n".to_owned(), url: url.to_owned() });
    assert_eq!(path("https://repos.springrts.com/byar"), "r/rapid/repos.springrts.com/byar/versions.gz");
    assert_eq!(path("http://repos.springrts.com/byar"), "r/rapid/repos.springrts.com/byar/versions.gz");
    assert_eq!(path("repos.springrts.com/byar"), "r/rapid/repos.springrts.com/byar/versions.gz");
    assert_eq!(path("https://"), "r/rapid//versions.gz");
    assert_eq!(path("xhttp://h/p"), "r/rapid/xhttp://h/p/versions.gz");
    assert_eq!(path("http://a/http://b"), "r/rapid/a/http://b/versions.gz");
    assert_eq!(path(""), "r/rapid//versions.gz");
}

#[test]
fn sdp_path_is_named_by_the_hash() {
    let store = RapidStore::new("r".to_owned());
    let sdp = version("sbc:test", "d80d786597510d1358be3b04a7e9146e", "SpringBoard Core 0.5.2");
    assert_eq!(store.get_sdp_path(&sdp), "r/packages/d80d786597510d1358be3b04a7e9146e.sdp");
    assert_eq!(store.get_sdp_path_from_md5("abc"), "r/packages/abc.sdp");
}

#[test]
fn pool_path_is_sharded_by_the_first_two_digits() {
    let store = RapidStore::new("r".to_owned());
    let hash = [0xd8, 0x0d, 0x78, 0x65, 0x97, 0x51, 0x0d, 0x13, 0x58, 0xbe, 0x3b, 0x04, 0xa7, 0xe9, 0x14, 0x6e];
    assert_eq!(store.get_pool_path(&blob("x", hash)), "r/pool/d8/0d786597510d1358be3b04a7e9146e.gz");
    assert_eq!(store.get_pool_path(&blob("x", [0; 16])), "r/pool/00/000000000000000000000000000000.gz");
}

#[test]
fn pool_path_is_made_of_the_hash_alone() {
    let store = RapidStore::new("r".to_owned());
    let mut first = blob("one.lua", [7; 16]);
    let second = blob("another/name.txt", [7; 16]);
    first.size = 99;
    first.crc32 = [1, 2, 3, 4];
    first.md5 = [b'z'; 32];
    assert_eq!(store.get_pool_path(&first), store.get_pool_path(&second));
    assert_ne!(store.get_pool_path(&second), store.get_pool_path(&blob("another/name.txt", [8; 16])));
}

#[test]
fn missing_files_are_those_not_present_in_order() {
    let store = RapidStore::new("r".to_owned());
    let files = blobs(5);
    let missing = store.find_missing_files(&files, &[false, true, false, false, true]);
    assert_eq!(missing, vec![&files[0], &files[2], &files[3]]);
    assert_eq!(store.find_missing_files(&files, &[true; 5]), Vec::<&SdpPackage>::new());
    assert_eq!(store.find_missing_files(&files, &[false; 5]).len(), 5);
    assert_eq!(store.find_missing_files(&[], &[]), Vec::<&SdpPackage>::new());
}

#[test]
fn bitmap_has_a_bit_for_each_missing_blob() {
    let store = RapidStore::new("r".to_owned());
    assert_eq!(store.get_missing_files_indices(&blobs(3), &[false, true, false]), vec![0b0000_0101]);
    assert_eq!(store.get_missing_files_indices(&blobs(3), &[true, true, true]), vec![0]);
    assert_eq!(store.get_missing_files_indices(&blobs(8), &[false; 8]), vec![0xff]);
    assert_eq!(store.get_missing_files_indices(&blobs(9), &[false; 9]), vec![0xff, 0x01]);
    let mut present = [true; 17];
    present[7] = false;
    present[8] = false;
    present[16] = false;
    assert_eq!(store.get_missing_files_indices(&blobs(17), &present), vec![0x80, 0x01, 0x01]);
}

#[test]
fn bitmap_takes_one_byte_for_every_eight_blobs() {
    let store = RapidStore::new("r".to_owned());
    for n in 0..40usize {
        let map = store.get_missing_files_indices(&blobs(n), &vec![true; n]);
        assert_eq!(map.len(), (n + 7) / 8);
        assert!(!asks_for_any(&map));
    }
}

#[test]
fn bitmap_sets_exactly_the_missing_bits() {
    let store = RapidStore::new("r".to_owned());
    let n = 21;
    for pattern in [0u32, 1, 0x155555, 0x0aaaaa, 0x1fffff, 0x100001, 0x00ff00] {
        let present: Vec<bool> = (0..n).map(|i| pattern >> i & 1 == 1).collect();
        let map = store.get_missing_files_indices(&blobs(n), &present);
        for i in 0..8 * map.len() {
            let set = map[i / 8] >> (i % 8) & 1 == 1;
            assert_eq!(set, i < n && !present[i]);
        }
        assert_eq!(asks_for_any(&map), present.iter().any(|p| !p));
    }
}

#[test]
fn asks_for_any_sees_a_single_bit() {
    assert!(!asks_for_any(&[]));
    assert!(!asks_for_any(&[0, 0, 0]));
    assert!(asks_for_any(&[0, 0, 0x40]));
    assert!(asks_for_any(&[1]));
}

#[test]
fn test_find_sdp() {
    let rapid_store = RapidStore::new("test_folders/test_sprd".to_owned());
    let versions = gzip_data(VERSIONS.as_bytes()).unwrap();
    let sdp = rapid_store
        .find_sdp(&versions, "sbc:git:860aac5eb5ce292121b741ca8514516777ae14dc")
        .unwrap()
        .unwrap();

    assert_eq!(sdp.md5, "d80d786597510d1358be3b04a7e9146e");
    assert_eq!(sdp.archive_name, "SpringBoard Core 0.5.2");
}

#[test]
fn test_find_sdp_by_name() {
    let rapid_store = RapidStore::new("test_folders/test_sprd".to_owned());
    let versions = gzip_data(VERSIONS.as_bytes()).unwrap();
    let sdp = rapid_store.find_sdp(&versions, "SpringBoard Core 0.5.2").unwrap().unwrap();

    assert_eq!(sdp.md5, "d80d786597510d1358be3b04a7e9146e");
    assert_eq!(sdp.archive_name, "SpringBoard Core 0.5.2");
}

#[test]
fn find_sdp_takes_the_first_entry_that_goes_by_the_name() {
    let rapid_store = RapidStore::new("r".to_owned());
    let versions = gzip_data(b"a,1,,x\nb,2,,a\na,3,,y\n").unwrap();
    assert_eq!(rapid_store.find_sdp(&versions, "a"), Ok(Some(version("a", "1", "x"))));
    assert_eq!(rapid_store.find_sdp(&versions, "y"), Ok(Some(version("a", "3", "y"))));
    assert_eq!(rapid_store.find_sdp(&versions, "b"), Ok(Some(version("b", "2", "a"))));
}

#[test]
fn find_sdp_wants_the_whole_name() {
    let rapid_store = RapidStore::new("r".to_owned());
    let versions = gzip_data(VERSIONS.as_bytes()).unwrap();
    assert_eq!(rapid_store.find_sdp(&versions, "sbc"), Ok(None));
    assert_eq!(rapid_store.find_sdp(&versions, "SpringBoard Core"), Ok(None));
    assert_eq!(rapid_store.find_sdp(&versions, ""), Ok(None));
}

#[test]
fn find_sdp_fails_on_a_file_that_is_not_gzip() {
    let rapid_store = RapidStore::new("r".to_owned());
    assert_eq!(rapid_store.find_sdp(VERSIONS.as_bytes(), "sbc:test"), Err(GzReadError {}));
}

#[test]
fn find_by_name_in_an_empty_list_finds_nothing() {
    assert_eq!(find_by_name(vec![], "a"), None);
    assert_eq!(find_by_name(vec![version("a", "1", "x")], "x"), Some(version("a", "1", "x")));
}
