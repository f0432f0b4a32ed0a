use sprd::api::{DownloadOptions, MetadataSource};
use sprd::event::{Event, Progress};
use sprd::file_download::{checked_download, download_repo, download_repo_registry, download_sdp, FileDownloadError};
use sprd::gz::GzReadError;
use sprd::metadata::{
    find_md5, find_repo, find_sdp_by_md5, registry_step, repo_basename, rest_query_name,
    RegistryStep, REGISTRY_ATTEMPTS,
};
use sprd::rapid::parsing::{parse_repos_from_str, read_rapid_from_str, FormatError};
use sprd::rapid::rapid_store::{find_by_name, RapidStore};
use sprd::rapid::types::{Repo, Sdp, SdpPackage};
use sprd::text::chars_of;

const REGISTRY: &str = "byar,https://repos.springrts.com/byar,,Beyond All Reason\nsbc,https://repos.springrts.com/sbc,,SpringBoard Core\n";

const BYAR_VERSIONS: &str = "byar:test,aaaa786597510d1358be3b04a7e9146e,,Beyond All Reason test-1\nbyar:stable,bbbb786597510d1358be3b04a7e9146e,,Beyond All Reason 1.0\n";

const SBC_VERSIONS: &str = "sbc:git:860aac5eb5ce292121b741ca8514516777ae14dc,d80d786597510d1358be3b04a7e9146e,,SpringBoard Core 0.5.2\nsbc:test,d80d786597510d1358be3b04a7e9146e,,SpringBoard Core 0.5.2\nsbc:stable,d80d786597510d1358be3b04a7e9146e,,SpringBoard Core 0.5.2\n";

fn registry() -> Vec<Repo> {
    parse_repos_from_str(REGISTRY).unwrap()
}

fn versions(text: &str) -> Vec<Sdp> {
    read_rapid_from_str(text).unwrap()
}

#[test]
fn basename_is_what_stands_before_the_first_colon() {
    assert_eq!(repo_basename("byar:test"), "byar");
    assert_eq!(repo_basename("sbc:git:860aac5eb5ce292121b741ca8514516777ae14dc"), "sbc");
    assert_eq!(repo_basename("SpringBoard Core 0.5.2"), "SpringBoard Core 0.5.2");
    assert_eq!(repo_basename(":x"), "");
    assert_eq!(repo_basename(""), "");
}

#[test]
fn rest_name_is_repository_colon_tag() {
    let repo = Repo { name: "sbc".to_owned(), url: "u".to_owned() };
    assert_eq!(rest_query_name(&repo, "test"), "sbc:test");
    assert_eq!(rest_query_name(&repo, ""), "sbc:");
}

#[test]
fn metadata_file_test_query_repo() {
    let repo = find_repo(registry(), "byar").unwrap();
    assert_eq!(repo.name, "byar");
    assert_eq!(repo.url, "https://repos.springrts.com/byar");
}

#[test]
fn metadata_file_test_query_sdp() {
    let repo = find_repo(registry(), "byar").unwrap();
    assert_eq!(repo.name, repo_basename("byar:test"));
    let sdp = find_by_name(versions(BYAR_VERSIONS), "byar:test").unwrap();
    assert_eq!(sdp.rapid_name, "byar:test");
}

#[test]
fn test_query_by_rapid_version() {
    let query_names = [
        "sbc:git:860aac5eb5ce292121b741ca8514516777ae14dc",
        "SpringBoard Core 0.5.2",
        "sbc:test",
        "sbc:stable",
    ];

    for query_name in query_names {
        let result = find_by_name(versions(SBC_VERSIONS), query_name);
        assert!(result.is_some(), "Query is None: {query_name}");
    }
}

#[test]
fn mod_test_query_metadata() {
    let fullname = "sbc:git:860aac5eb5ce292121b741ca8514516777ae14dc";
    let repo = find_repo(registry(), &repo_basename(fullname)).unwrap();
    assert_eq!(repo.name, "sbc");
    let sdp = find_by_name(versions(SBC_VERSIONS), fullname).unwrap();

    assert_eq!(sdp.md5, "d80d786597510d1358be3b04a7e9146e");
}

#[test]
fn find_repo_takes_the_first_of_that_name() {
    let repos = vec![
        Repo { name: "a".to_owned(), url: "1".to_owned() },
        Repo { name: "b".to_owned(), url: "2".to_owned() },
        Repo { name: "a".to_owned(), url: "3".to_owned() },
    ];
    assert_eq!(find_repo(repos.clone(), "a").unwrap().url, "1");
    assert_eq!(find_repo(repos.clone(), "b").unwrap().url, "2");
    assert_eq!(find_repo(repos.clone(), "c"), None);
    assert_eq!(find_repo(repos, "A"), None);
    assert_eq!(find_repo(vec![], "a"), None);
}

#[test]
fn find_md5_gives_the_first_place_or_the_length() {
    let list = versions("a,1,,x\nb,2,,y\nc,1,,z\n");
    assert_eq!(find_md5(&list, &chars_of("1")), 0);
    assert_eq!(find_md5(&list, &chars_of("2")), 1);
    assert_eq!(find_md5(&list, &chars_of("3")), 3);
    assert_eq!(find_md5(&vec![], &chars_of("1")), 0);
}

#[test]
fn package_is_found_by_its_hash_in_the_first_repository_that_has_it() {
    let lists = || vec![Ok(versions(BYAR_VERSIONS)), Ok(versions(SBC_VERSIONS))];
    let (sdp, repo) = find_sdp_by_md5(registry(), lists(), "d80d786597510d1358be3b04a7e9146e").unwrap();
    assert_eq!(repo.name, "sbc");
    assert_eq!(sdp.rapid_name, "sbc:git:860aac5eb5ce292121b741ca8514516777ae14dc");
    let (sdp, repo) = find_sdp_by_md5(registry(), lists(), "bbbb786597510d1358be3b04a7e9146e").unwrap();
    assert_eq!(repo.name, "byar");
    assert_eq!(sdp.rapid_name, "byar:stable");
    assert_eq!(find_sdp_by_md5(registry(), lists(), "0000"), None);
    assert_eq!(find_sdp_by_md5(vec![], vec![], "0000"), None);
}

#[test]
fn search_by_hash_ends_at_a_list_that_cannot_be_read() {
    let lists = vec![Err(GzReadError {}), Ok(versions(SBC_VERSIONS))];
    assert_eq!(find_sdp_by_md5(registry(), lists, "d80d786597510d1358be3b04a7e9146e"), None);
    let lists = vec![Ok(versions(BYAR_VERSIONS)), Err(GzReadError {})];
    assert!(find_sdp_by_md5(registry(), lists, "aaaa786597510d1358be3b04a7e9146e").is_some());
}

#[test]
fn registry_is_read_five_times_at_most() {
    assert_eq!(REGISTRY_ATTEMPTS, 5);
    for failed in 0..4u32 {
        match registry_step(Err(FormatError::Unreadable), failed) {
            RegistryStep::Refetch { failed: now } => assert_eq!(now, failed + 1),
            other => panic!("{:?}", other),
        }
    }
    assert!(matches!(
        registry_step(Err(FormatError::MalformedLine), 4),
        RegistryStep::GiveUp(FormatError::MalformedLine)
    ));
    assert!(matches!(registry_step(Err(FormatError::Unreadable), u32::MAX), RegistryStep::GiveUp(_)));
    match registry_step(Ok(registry()), 3) {
        RegistryStep::Use(repos) => assert_eq!(repos, registry()),
        other => panic!("{:?}", other),
    }
}

#[test]
fn metadata_downloads_know_their_url_and_their_place() {
    let store = RapidStore::new("root".to_owned());
    let repo = find_repo(registry(), "sbc").unwrap();
    let sdp = find_by_name(versions(SBC_VERSIONS), "sbc:test").unwrap();

    let download = download_sdp(&store, &repo, &sdp).unwrap();
    assert_eq!(download.url, "https://repos.springrts.com/sbc/packages/d80d786597510d1358be3b04a7e9146e.sdp");
    assert_eq!(download.dest, "root/packages/d80d786597510d1358be3b04a7e9146e.sdp");

    let download = download_repo(&store, &repo).unwrap();
    assert_eq!(download.url, "https://repos.springrts.com/sbc/versions.gz");
    assert_eq!(download.dest, "root/rapid/repos.springrts.com/sbc/versions.gz");

    let download = download_repo_registry(&store);
    assert_eq!(download.url, "https://repos.springrts.com/repos.gz");
    assert_eq!(download.dest, "root/rapid/repos.springrts.com/repos.gz");
}

#[test]
fn metadata_download_from_what_is_no_uri_fails() {
    let store = RapidStore::new("root".to_owned());
    let repo = Repo { name: "bad".to_owned(), url: "ht tp://x".to_owned() };
    let sdp = find_by_name(versions(SBC_VERSIONS), "sbc:test").unwrap();
    assert_eq!(download_sdp(&store, &repo, &sdp).err(), Some(FileDownloadError::InvalidUri));
    assert_eq!(download_repo(&store, &repo).err(), Some(FileDownloadError::InvalidUri));
    let empty = Repo { name: "bad".to_owned(), url: "\u{7f}".to_owned() };
    assert_eq!(download_repo(&store, &empty).err(), Some(FileDownloadError::InvalidUri));
}

#[test]
fn checked_download_goes_by_the_flag() {
    let made = checked_download("u".to_owned(), true, "d".to_owned()).unwrap();
    assert_eq!(made.url, "u");
    assert_eq!(made.dest, "d");
    assert_eq!(
        checked_download("u".to_owned(), false, "d".to_owned()).err(),
        Some(FileDownloadError::InvalidUri)
    );
}

#[test]
fn options_keep_their_source() {
    assert_eq!(DownloadOptions::default().metadata_source, MetadataSource::FileApi);
    assert_eq!(DownloadOptions::new(MetadataSource::Local).metadata_source, MetadataSource::Local);
    let rest = MetadataSource::RestApi("http://localhost:8080".to_owned());
    assert_eq!(DownloadOptions::new(rest.clone()).metadata_source, rest);
}

#[test]
fn progress_adds_up_the_chunks() {
    let (mut progress, started) = Progress::start(1000);
    assert_eq!(started, Event::DownloadStarted(1000));
    assert_eq!(progress.chunk(0), Event::DownloadProgress(0));
    assert_eq!(progress.chunk(300), Event::DownloadProgress(300));
    assert_eq!(progress.chunk(700), Event::DownloadProgress(1000));
    assert!(progress.has_room(usize::MAX - 1000));
    assert!(!progress.has_room(usize::MAX - 999));
    assert_eq!(progress.finish(), Event::DownloadFinished);
}

#[test]
fn default_record_is_all_zero() {
    let record = SdpPackage::default();
    assert_eq!(record.name, "");
    assert_eq!(record.md5, [0u8; 32]);
    assert_eq!(record.md5_bin, [0u8; 16]);
    assert_eq!(record.crc32, [0u8; 4]);
    assert_eq!(record.size, 0);
}
