use sprd::rapid::parsing::{load_sdp_package, load_sdp_packages, save_sdp_packages, FormatError};
use sprd::rapid::types::SdpPackage;

fn record(name: &str, seed: u8, size: u32) -> SdpPackage {
    let mut md5_bin = [0u8; 16];
    for (i, b) in md5_bin.iter_mut().enumerate() {
        *b = seed.wrapping_mul(31).wrapping_add(i as u8 * 17);
    }
    SdpPackage {
        name: name.to_owned(),
        md5: sprd::hex::hash_to_hex(&md5_bin),
        md5_bin,
        crc32: [seed, 1, 2, 3],
        size,
    }
}

#[test]
fn decode_inverts_encode_on_three_records() {
    let records = vec![record("a.lua", 1, 10), record("", 2, 0), record("dir/ünï.txt", 3, 0xdead_beef)];
    let bytes = save_sdp_packages(&records).unwrap();
    let decoded = load_sdp_packages(&bytes).unwrap();
    assert_eq!(decoded, records);
}

#[test]
fn decode_one_record_by_hand() {
    let mut data = vec![3u8, b'a', b'b', b'c'];
    data.extend_from_slice(&[0x00, 0x01, 0x02, 0x03, 0x04, 0x05, 0x06, 0x07, 0x08, 0x09, 0x0a, 0x0b, 0x0c, 0x0d, 0xfe, 0xff]);
    data.extend_from_slice(&[9, 8, 7, 6]);
    data.extend_from_slice(&[0x78, 0x56, 0x34, 0x12]);
    let decoded = load_sdp_packages(&data).unwrap();
    assert_eq!(decoded.len(), 1);
    assert_eq!(decoded[0].name, "abc");
    assert_eq!(&decoded[0].md5[..], b"000102030405060708090a0b0c0dfeff");
    assert_eq!(decoded[0].crc32, [9, 8, 7, 6]);
    assert_eq!(decoded[0].size, 0x12345678);
}

#[test]
fn truncated_record_is_an_error() {
    let records = vec![record("abc", 1, 10)];
    let bytes = save_sdp_packages(&records).unwrap();
    for cut in 1..bytes.len() {
        assert_eq!(load_sdp_packages(&bytes[..cut]), Err(FormatError::Truncated));
    }
    assert_eq!(load_sdp_packages(&[]), Ok(vec![]));
}

#[test]
fn name_that_is_not_utf8_is_an_error() {
    let mut data = vec![2u8, 0xff, 0xfe];
    data.extend_from_slice(&[0u8; 24]);
    assert_eq!(load_sdp_packages(&data), Err(FormatError::InvalidName));
}

#[test]
fn name_of_256_bytes_cannot_be_encoded() {
    let long = "x".repeat(256);
    assert_eq!(save_sdp_packages(&[record(&long, 1, 1)]), Err(FormatError::NameTooLong));
    let longest = "x".repeat(255);
    let bytes = save_sdp_packages(&[record(&longest, 1, 1)]).unwrap();
    assert_eq!(load_sdp_packages(&bytes).unwrap()[0].name, longest);
}

#[test]
fn one_record_is_read_from_the_start_of_the_data() {
    let records = vec![record("abc", 1, 10), record("de", 2, 20)];
    let bytes = save_sdp_packages(&records).unwrap();
    assert_eq!(load_sdp_package(&bytes), Ok(record("abc", 1, 10)));
    assert_eq!(load_sdp_package(&bytes[28..]), Ok(record("de", 2, 20)));
    assert_eq!(load_sdp_package(&[]), Err(FormatError::Truncated));
    assert_eq!(load_sdp_package(&[0]), Err(FormatError::Truncated));
    assert_eq!(load_sdp_package(&[1]), Err(FormatError::Truncated));
}

#[test]
fn bad_name_is_found_before_the_missing_fields() {
    // The name is there and is not UTF-8; the fields after it are not there.
    assert_eq!(load_sdp_packages(&[1, 0xff]), Err(FormatError::InvalidName));
    // The name itself runs past the end.
    assert_eq!(load_sdp_packages(&[2, 0xff]), Err(FormatError::Truncated));
}

#[test]
fn size_is_little_endian() {
    let mut data = vec![0u8];
    data.extend_from_slice(&[0u8; 16]);
    data.extend_from_slice(&[0u8; 4]);
    data.extend_from_slice(&[1, 0, 0, 0]);
    assert_eq!(load_sdp_packages(&data).unwrap()[0].size, 1);
    let n = data.len();
    data[n - 4..].copy_from_slice(&[0, 0, 0, 1]);
    assert_eq!(load_sdp_packages(&data).unwrap()[0].size, 0x0100_0000);
    data[n - 4..].copy_from_slice(&[0xff; 4]);
    assert_eq!(load_sdp_packages(&data).unwrap()[0].size, u32::MAX);
    assert_eq!(save_sdp_packages(&load_sdp_packages(&data).unwrap()), Ok(data));
}
