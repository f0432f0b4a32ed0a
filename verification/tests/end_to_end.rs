use md5::{Digest, Md5};
use sprd::gz::{gzip_data, read_binary_gz_from_data};
use sprd::hex::hash_to_hex;
use sprd::pool_downloader::download_sdp_files_with_url;
use sprd::rapid::parsing::{load_sdp_packages_from_file, save_sdp_packages, FormatError};
use sprd::rapid::rapid_store::RapidStore;
use sprd::rapid::types::{Repo, Sdp, SdpPackage};
use sprd::rapid_download::{count_missing, download, DownloadPlan};
use sprd::validation::{validate_by_sdp_md5, validate_sdp_package, StoredFile};

fn whole_blob(name: &str, content: &[u8]) -> SdpPackage {
    let mut hasher = Md5::new();
    hasher.update(content);
    let mut md5_bin = [0u8; 16];
    md5_bin.copy_from_slice(&hasher.finalize()[..]);
    SdpPackage {
        name: name.to_owned(),
        md5: hash_to_hex(&md5_bin),
        md5_bin,
        crc32: [1, 2, 3, 4],
        size: content.len() as u32,
    }
}

fn the_repo() -> Repo {
    Repo { name: "sbc".to_owned(), url: "https://repos.springrts.com/sbc".to_owned() }
}

fn the_sdp() -> Sdp {
    Sdp {
        rapid_name: "sbc:test".to_owned(),
        md5: "d80d786597510d1358be3b04a7e9146e".to_owned(),
        depends: String::new(),
        archive_name: "SpringBoard Core 0.5.2".to_owned(),
    }
}

#[test]
fn three_blobs_one_present() {
    let store = RapidStore::new("root".to_owned());
    let contents: [&[u8]; 3] = [b"zero", b"one one", b"two two two"];
    let records: Vec<SdpPackage> = contents.iter().enumerate().map(|(i, c)| whole_blob(&format!("f{}", i), c)).collect();

    // The descriptor as it is stored.
    let descriptor = gzip_data(&save_sdp_packages(&records).unwrap()).unwrap();
    let sdp_files = load_sdp_packages_from_file(&descriptor).unwrap();
    assert_eq!(sdp_files, records);

    // Blob 1 is present and valid, blobs 0 and 2 are missing.
    let mut files = vec![StoredFile::Absent, StoredFile::Present(gzip_data(contents[1]).unwrap()), StoredFile::Absent];
    let present = [false, true, false];
    assert_eq!(store.find_missing_files(&sdp_files, &present), vec![&sdp_files[0], &sdp_files[2]]);
    assert_eq!(count_missing(&present), 2);

    let plan = download(&store, &the_repo(), &the_sdp(), &sdp_files, &present).unwrap();
    let (request, download_map, expected) = match plan {
        DownloadPlan::Fetch { request, download_map, expected } => (request, download_map, expected),
        other => panic!("{:?}", other),
    };
    assert_eq!(download_map, vec![0b0000_0101]);
    assert_eq!(expected, 2);
    assert_eq!(request.url, "https://repos.springrts.com/sbc/streamer.cgi?d80d786597510d1358be3b04a7e9146e");

    // The server reads the bitmap and answers with the two blobs in order.
    let asked = read_binary_gz_from_data(&request.body).unwrap();
    assert_eq!(asked, vec![0b0000_0101]);
    let mut body = Vec::new();
    for i in [0usize, 2] {
        let payload = gzip_data(contents[i]).unwrap();
        body.extend_from_slice(&(payload.len() as u32).to_be_bytes());
        body.extend_from_slice(&payload);
    }

    let chunks: Vec<Vec<u8>> = body.chunks(3).map(|c| c.to_vec()).collect();
    let report = download_sdp_files_with_url(&store, &sdp_files, &present, &chunks, false);
    assert_eq!(report.result, Ok(()));
    assert_eq!(report.remaining, 0);
    assert_eq!(report.writes.len(), 2);
    assert_eq!(report.writes[0].path, store.get_pool_path(&sdp_files[0]));
    assert_eq!(report.writes[1].path, store.get_pool_path(&sdp_files[2]));
    for write in report.writes {
        assert_eq!(validate_sdp_package(&sdp_files[write.index], &StoredFile::Present(write.data.clone())), None);
        files[write.index] = StoredFile::Present(write.data);
    }

    // All three blobs validate.
    for (record, file) in sdp_files.iter().zip(files.iter()) {
        assert_eq!(validate_sdp_package(record, file), None);
    }
    assert!(validate_by_sdp_md5(&store, &Ok(sdp_files), &files).is_ok());
}

#[test]
fn complete_package_sends_nothing() {
    let store = RapidStore::new("root".to_owned());
    let records = vec![whole_blob("a", b"a"), whole_blob("b", b"b")];
    assert!(matches!(download(&store, &the_repo(), &the_sdp(), &records, &[true, true]), Ok(DownloadPlan::Complete)));
    assert!(matches!(download(&store, &the_repo(), &the_sdp(), &[], &[]), Ok(DownloadPlan::Complete)));
}

#[test]
fn plan_for_a_repository_without_a_uri_fails() {
    let store = RapidStore::new("root".to_owned());
    let records = vec![whole_blob("a", b"a")];
    let repo = Repo { name: "x".to_owned(), url: "not a uri".to_owned() };
    assert_eq!(
        download(&store, &repo, &the_sdp(), &records, &[false]).err(),
        Some(sprd::file_download::FileDownloadError::InvalidUri)
    );
    // With nothing missing the address is never looked at.
    assert!(matches!(download(&store, &repo, &the_sdp(), &records, &[true]), Ok(DownloadPlan::Complete)));
}

#[test]
fn descriptor_file_that_is_not_gzip_is_unreadable() {
    let records = vec![whole_blob("a", b"a")];
    let plain = save_sdp_packages(&records).unwrap();
    assert_eq!(load_sdp_packages_from_file(&plain), Err(FormatError::Unreadable));
    let cut = gzip_data(&plain[..plain.len() - 1]).unwrap();
    assert_eq!(load_sdp_packages_from_file(&cut), Err(FormatError::Truncated));
}
