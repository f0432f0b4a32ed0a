//! The on-disk formats: the binary package descriptor, and the two
//! comma-separated text files that list repositories and package versions.

use vstd::prelude::*;
use vstd::slice::{slice_subrange, slice_to_vec};
use vstd::utf8::{decode_utf8, encode_utf8, valid_utf8};
use crate::gz::{gunzip, gunzip_text, read_binary_gz_from_data, read_gz_from_data, GzReadError};
use crate::hex::{hash_to_hex, hex_lower};
use crate::text::{
    chars_of, lines, split_fields, split_lines, split_on, string_from_utf8, string_views,
    char_seqs,
};
use super::types::{
    package_views, repo_views, sdp_views, Repo, RepoView, Sdp, SdpPackage, SdpPackageView,
    SdpView,
};

verus! {

/// Why bytes could not be read as one of the formats.
#[derive(Debug, Clone, Copy, PartialEq, Eq, Structural)]
pub enum FormatError {
    /// The file is not gzip, or its text is not UTF-8.
    Unreadable,
    /// A descriptor record runs past the end of the data.
    Truncated,
    /// The name of a descriptor record is not UTF-8.
    InvalidName,
    /// The name of a blob record takes more than 255 bytes.
    NameTooLong,
    /// A line of the registry has fewer than two fields.
    MalformedLine,
}

/// The number that four bytes spell in little-endian order.
pub open spec fn le_u32(b: Seq<u8>) -> int
    recommends
        b.len() == 4,
{
    b[0] as int + b[1] as int * 256 + b[2] as int * 65536 + b[3] as int * 16777216
}

/// The four bytes that spell `n` in little-endian order.
pub open spec fn le_bytes(n: u32) -> Seq<u8> {
    seq![
        (n as int % 256) as u8,
        (n as int / 256 % 256) as u8,
        (n as int / 65536 % 256) as u8,
        (n as int / 16777216) as u8,
    ]
}

/// How many bytes the record at the start of `data` takes, by its first
/// byte: the length byte, the name, a 16 byte hash, 4 bytes of checksum and
/// 4 bytes of size.
pub open spec fn record_len(data: Seq<u8>) -> int
    recommends
        data.len() > 0,
{
    25 + data[0] as int
}

/// The record at the start of `data`.
pub open spec fn parse_record(data: Seq<u8>) -> Result<SdpPackageView, FormatError> {
    let n = data[0] as int;
    if data.len() < 1 || data.len() < 1 + n {
        Err(FormatError::Truncated)
    } else if !valid_utf8(data.subrange(1, 1 + n)) {
        Err(FormatError::InvalidName)
    } else if data.len() < 25 + n {
        Err(FormatError::Truncated)
    } else {
        Ok(
            SdpPackageView {
                name: decode_utf8(data.subrange(1, 1 + n)),
                md5: hex_lower(data.subrange(1 + n, 17 + n)),
                md5_bin: data.subrange(1 + n, 17 + n),
                crc32: data.subrange(17 + n, 21 + n),
                size: le_u32(data.subrange(21 + n, 25 + n)) as u32,
            },
        )
    }
}

/// The records that `data` holds from its first byte to its last, or the
/// error of the first record that cannot be read.
pub open spec fn parse_records(data: Seq<u8>) -> Result<Seq<SdpPackageView>, FormatError>
    decreases data.len(),
{
    if data.len() == 0 {
        Ok(Seq::empty())
    } else {
        match parse_record(data) {
            Err(e) => Err(e),
            Ok(record) => match parse_records(data.skip(record_len(data))) {
                Err(e) => Err(e),
                Ok(more) => Ok(seq![record] + more),
            },
        }
    }
}

/// `found` followed by what `rest` holds, or the error of `rest`.
pub open spec fn after(found: Seq<SdpPackageView>, rest: Result<Seq<SdpPackageView>, FormatError>)
    -> Result<Seq<SdpPackageView>, FormatError> {
    match rest {
        Err(e) => Err(e),
        Ok(more) => Ok(found + more),
    }
}

fn read_u32_le(field: &[u8]) -> (n: u32)
    requires
        field@.len() == 4,
    ensures
        n == le_u32(field@),
{
    (field[0] as u32) + (field[1] as u32) * 256 + (field[2] as u32) * 65536 + (field[3] as u32)
        * 16777216
}

fn copy_hash(field: &[u8]) -> (hash: [u8; 16])
    requires
        field@.len() == 16,
    ensures
        hash@ == field@,
{
    let mut hash = [0u8; 16];
    let mut i: usize = 0;
    while i < 16
        invariant
            i <= 16,
            field@.len() == 16,
            forall|j: int| 0 <= j < i ==> hash@[j] == field@[j],
        decreases 16 - i,
    {
        hash[i] = field[i];
        i += 1;
    }
    assert(hash@ =~= field@);
    hash
}

/// Reads the record at the start of `data`.
pub fn load_sdp_package(data: &[u8]) -> (r: Result<SdpPackage, FormatError>)
    ensures
        match r {
            Ok(package) => parse_record(data@) == Ok::<SdpPackageView, FormatError>(package@)
                && package.wf(),
            Err(e) => parse_record(data@) == Err::<SdpPackageView, FormatError>(e),
        },
{
    if data.len() < 1 {
        return Err(FormatError::Truncated);
    }
    let n = data[0] as usize;
    if data.len() < 1 + n {
        return Err(FormatError::Truncated);
    }
    let name = match string_from_utf8(slice_to_vec(slice_subrange(data, 1, 1 + n))) {
        Some(name) => name,
        None => {
            return Err(FormatError::InvalidName);
        },
    };
    if data.len() < 25 + n {
        return Err(FormatError::Truncated);
    }
    let md5_bin = copy_hash(slice_subrange(data, 1 + n, 17 + n));
    let checksum = slice_subrange(data, 17 + n, 21 + n);
    let crc32 = [checksum[0], checksum[1], checksum[2], checksum[3]];
    assert(crc32@ =~= checksum@);
    let size = read_u32_le(slice_subrange(data, 21 + n, 25 + n));
    let md5 = hash_to_hex(&md5_bin);
    Ok(SdpPackage { name, md5, md5_bin, crc32, size })
}

/// Reads a package descriptor, already decompressed, into its blob records,
/// in the order of the file.
pub fn load_sdp_packages(data: &[u8]) -> (r: Result<Vec<SdpPackage>, FormatError>)
    ensures
        match r {
            Ok(packages) => {
                &&& parse_records(data@) == Ok::<Seq<SdpPackageView>, FormatError>(
                    package_views(packages@),
                )
                &&& forall|i: int| 0 <= i < packages@.len() ==> (#[trigger] packages@[i]).wf()
            },
            Err(e) => parse_records(data@) == Err::<Seq<SdpPackageView>, FormatError>(e),
        },
{
    let mut sdp_files: Vec<SdpPackage> = Vec::new();
    let mut index: usize = 0;
    assert(data@.skip(0) =~= data@);
    assert(package_views(sdp_files@) =~= Seq::<SdpPackageView>::empty());
    assert(after(Seq::empty(), parse_records(data@)) == parse_records(data@)) by {
        if parse_records(data@) is Ok {
            assert(Seq::<SdpPackageView>::empty() + parse_records(data@).unwrap()
                =~= parse_records(data@).unwrap());
        }
    }
    while index < data.len()
        invariant
            index <= data@.len(),
            parse_records(data@) == after(
                package_views(sdp_files@),
                parse_records(data@.skip(index as int)),
            ),
            forall|i: int| 0 <= i < sdp_files@.len() ==> (#[trigger] sdp_files@[i]).wf(),
        decreases data@.len() - index,
    {
        let rest = slice_subrange(data, index, data.len());
        assert(rest@ =~= data@.skip(index as int));
        let ghost found = package_views(sdp_files@);
        match load_sdp_package(rest) {
            Err(e) => {
                return Err(e);
            },
            Ok(package) => {
                let taken = 25 + rest[0] as usize;
                proof {
                    let more = parse_records(rest@.skip(taken as int));
                    assert(rest@.skip(taken as int) =~= data@.skip(index + taken));
                    if more is Ok {
                        assert(found + (seq![package@] + more.unwrap()) =~= found.push(package@)
                            + more.unwrap());
                    }
                }
                sdp_files.push(package);
                assert(package_views(sdp_files@) =~= found.push(package@));
                index = index + taken;
            },
        }
    }
    proof {
        assert(package_views(sdp_files@) + Seq::<SdpPackageView>::empty() =~= package_views(
            sdp_files@,
        ));
    }
    Ok(sdp_files)
}

/// Reads a package descriptor as it is stored, gzip-compressed.
pub fn load_sdp_packages_from_file(file: &[u8]) -> (r: Result<Vec<SdpPackage>, FormatError>)
    ensures
        match r {
            Ok(packages) => {
                &&& gunzip(file@) matches Some(data)
                &&& parse_records(data) == Ok::<Seq<SdpPackageView>, FormatError>(
                    package_views(packages@),
                )
                &&& forall|i: int| 0 <= i < packages@.len() ==> (#[trigger] packages@[i]).wf()
            },
            Err(e) => match gunzip(file@) {
                None => e == FormatError::Unreadable,
                Some(data) => parse_records(data) == Err::<Seq<SdpPackageView>, FormatError>(e),
            },
        },
{
    match read_binary_gz_from_data(file) {
        Err(_) => Err(FormatError::Unreadable),
        Ok(data) => load_sdp_packages(data.as_slice()),
    }
}

/// The bytes of one blob record.
pub open spec fn encode_record(record: SdpPackageView) -> Seq<u8> {
    seq![encode_utf8(record.name).len() as u8] + encode_utf8(record.name) + record.md5_bin
        + record.crc32 + le_bytes(record.size)
}

/// The bytes of a package descriptor that lists `records` in order.
pub open spec fn encode_records(records: Seq<SdpPackageView>) -> Seq<u8>
    decreases records.len(),
{
    if records.len() == 0 {
        Seq::empty()
    } else {
        encode_record(records[0]) + encode_records(records.skip(1))
    }
}

/// A record that the format can hold: it is well-formed and its name takes
/// at most 255 bytes.
pub open spec fn encodable(record: SdpPackageView) -> bool {
    record.wf() && encode_utf8(record.name).len() <= 255
}

/// Four bytes spell the number that they were made of.
pub proof fn le_bytes_spell(n: u32)
    ensures
        le_bytes(n).len() == 4,
        le_u32(le_bytes(n)) == n,
{
}

/// A record is read back from its bytes, whatever follows them.
pub proof fn parse_encoded_record(record: SdpPackageView, more: Seq<u8>)
    requires
        encodable(record),
    ensures
        (encode_record(record) + more).len() > 0,
        parse_record(encode_record(record) + more) == Ok::<SdpPackageView, FormatError>(record),
        record_len(encode_record(record) + more) == encode_record(record).len(),
{
    let name = encode_utf8(record.name);
    let n = name.len() as int;
    let data = encode_record(record) + more;
    vstd::utf8::encode_utf8_valid_utf8(record.name);
    vstd::utf8::encode_utf8_decode_utf8(record.name);
    le_bytes_spell(record.size);
    assert(data[0] == n as u8);
    assert(data.subrange(1, 1 + n) =~= name);
    assert(data.subrange(1 + n, 17 + n) =~= record.md5_bin);
    assert(data.subrange(17 + n, 21 + n) =~= record.crc32);
    assert(data.subrange(21 + n, 25 + n) =~= le_bytes(record.size));
}

/// Decoding what was encoded gives the records back: for every list of
/// well-formed records whose names take at most 255 bytes,
/// `parse_records(encode_records(records))` is `Ok(records)`.
pub proof fn decode_inverts_encode(records: Seq<SdpPackageView>)
    requires
        forall|i: int| 0 <= i < records.len() ==> encodable(#[trigger] records[i]),
    ensures
        parse_records(encode_records(records)) == Ok::<Seq<SdpPackageView>, FormatError>(records),
    decreases records.len(),
{
    if records.len() > 0 {
        let first = records[0];
        let rest = records.skip(1);
        let tail = encode_records(rest);
        let data = encode_records(records);
        assert(encodable(first));
        parse_encoded_record(first, tail);
        assert forall|i: int| 0 <= i < rest.len() implies encodable(#[trigger] rest[i]) by {
            assert(rest[i] == records[i + 1]);
        }
        decode_inverts_encode(rest);
        assert(data == encode_record(first) + tail);
        assert(data.skip(record_len(data)) =~= tail);
        assert(seq![first] + rest =~= records);
    } else {
        assert(records =~= Seq::<SdpPackageView>::empty());
    }
}

/// Four bytes are the spelling of the number that they spell.
pub proof fn le_bytes_of_spelt(b: Seq<u8>)
    requires
        b.len() == 4,
    ensures
        0 <= le_u32(b) <= u32::MAX,
        le_bytes(le_u32(b) as u32) == b,
{
    assert(le_bytes(le_u32(b) as u32) =~= b);
}

/// The bytes of a record that was read are the bytes it was read from.
pub proof fn encode_parsed_record(data: Seq<u8>)
    requires
        parse_record(data) is Ok,
    ensures
        encode_record(parse_record(data).unwrap()) == data.take(record_len(data)),
{
    let record = parse_record(data).unwrap();
    let n = data[0] as int;
    let name = data.subrange(1, 1 + n);
    vstd::utf8::decode_utf8_encode_utf8(name);
    le_bytes_of_spelt(data.subrange(21 + n, 25 + n));
    assert(encode_utf8(record.name) == name);
    assert(record.md5_bin == data.subrange(1 + n, 17 + n));
    assert(record.crc32 == data.subrange(17 + n, 21 + n));
    assert(le_bytes(record.size) == data.subrange(21 + n, 25 + n));
    let head = seq![n as u8] + name;
    assert(head =~= data.take(1 + n));
    assert(head + data.subrange(1 + n, 17 + n) =~= data.take(17 + n));
    assert(data.take(17 + n) + data.subrange(17 + n, 21 + n) =~= data.take(21 + n));
    assert(data.take(21 + n) + data.subrange(21 + n, 25 + n) =~= data.take(25 + n));
}

/// Encoding what was decoded gives the bytes back: a descriptor is the only
/// spelling of its records.
pub proof fn encode_inverts_decode(data: Seq<u8>)
    requires
        parse_records(data) is Ok,
    ensures
        encode_records(parse_records(data).unwrap()) == data,
    decreases data.len(),
{
    if data.len() > 0 {
        let record = parse_record(data).unwrap();
        let rest = data.skip(record_len(data));
        let more = parse_records(rest).unwrap();
        let all = parse_records(data).unwrap();
        encode_inverts_decode(rest);
        encode_parsed_record(data);
        assert(all == seq![record] + more);
        assert(all[0] == record);
        assert(all.skip(1) =~= more);
        assert(encode_records(all) == encode_record(record) + encode_records(more));
        assert(data.take(record_len(data)) + rest =~= data);
    } else {
        assert(data =~= Seq::<u8>::empty());
    }
}

/// The bytes of a list end with the bytes of its last record.
pub proof fn encode_records_push(records: Seq<SdpPackageView>, last: SdpPackageView)
    ensures
        encode_records(records.push(last)) == encode_records(records) + encode_record(last),
    decreases records.len(),
{
    let all = records.push(last);
    if records.len() == 0 {
        assert(all.skip(1) =~= Seq::<SdpPackageView>::empty());
        assert(encode_records(all.skip(1)) =~= Seq::<u8>::empty());
        assert(all[0] == last);
        assert(encode_records(all) =~= encode_record(last));
        assert(encode_records(records) + encode_record(last) =~= encode_record(last));
    } else {
        assert(all.skip(1) =~= records.skip(1).push(last));
        encode_records_push(records.skip(1), last);
        assert(encode_record(records[0]) + (encode_records(records.skip(1)) + encode_record(last))
            =~= encode_record(records[0]) + encode_records(records.skip(1)) + encode_record(
            last,
        ));
    }
}

fn write_u32_le(n: u32) -> (field: [u8; 4])
    ensures
        field@ == le_bytes(n),
{
    let field = [
        (n % 256) as u8,
        (n / 256 % 256) as u8,
        (n / 65536 % 256) as u8,
        (n / 16777216) as u8,
    ];
    assert(field@ =~= le_bytes(n));
    field
}

fn append(out: &mut Vec<u8>, bytes: &[u8])
    ensures
        final(out)@ == old(out)@ + bytes@,
{
    let ghost before = out@;
    out.extend_from_slice(bytes);
    assert(out@ =~= before + bytes@);
}

/// Writes blob records as a package descriptor, not compressed. Fails with
/// `NameTooLong`, and only so, where the name of a record takes more than
/// 255 bytes.
pub fn save_sdp_packages(packages: &[SdpPackage]) -> (r: Result<Vec<u8>, FormatError>)
    ensures
        match r {
            Ok(data) => {
                &&& data@ == encode_records(package_views(packages@))
                &&& forall|i: int|
                    0 <= i < packages@.len() ==> encode_utf8(
                        (#[trigger] packages@[i]).name@,
                    ).len() <= 255
            },
            Err(e) => {
                &&& e == FormatError::NameTooLong
                &&& exists|i: int|
                    0 <= i < packages@.len() && encode_utf8(
                        (#[trigger] packages@[i]).name@,
                    ).len() > 255
            },
        },
{
    let mut data: Vec<u8> = Vec::new();
    let mut i: usize = 0;
    assert(package_views(packages@).take(0) =~= Seq::<SdpPackageView>::empty());
    while i < packages.len()
        invariant
            i <= packages@.len(),
            data@ == encode_records(package_views(packages@).take(i as int)),
            forall|j: int|
                0 <= j < i ==> encode_utf8((#[trigger] packages@[j]).name@).len() <= 255,
        decreases packages@.len() - i,
    {
        let package = &packages[i];
        let name = package.name.as_str().as_bytes();
        if name.len() > 255 {
            return Err(FormatError::NameTooLong);
        }
        proof {
            let views = package_views(packages@);
            assert(views.take(i + 1) =~= views.take(i as int).push(package@));
            encode_records_push(views.take(i as int), package@);
        }
        let ghost before = data@;
        data.push(name.len() as u8);
        append(&mut data, name);
        append(&mut data, package.md5_bin.as_slice());
        append(&mut data, package.crc32.as_slice());
        let size = write_u32_le(package.size);
        append(&mut data, size.as_slice());
        assert(data@ =~= before + encode_record(package@));
        i += 1;
    }
    assert(package_views(packages@).take(i as int) =~= package_views(packages@));
    Ok(data)
}

/// The repository that a line of the registry names: its first field is the
/// name and its second the URL. Further fields are not read.
pub open spec fn repo_of_line(line: Seq<char>) -> Option<RepoView> {
    let fields = split_on(line, ',');
    if fields.len() >= 2 {
        Some(RepoView { name: fields[0], url: fields[1] })
    } else {
        None
    }
}

/// The repositories that the registry `text` lists, one per line, or
/// `MalformedLine` where a line has fewer than two fields.
pub open spec fn parse_repos(text: Seq<char>) -> Result<Seq<RepoView>, FormatError> {
    let all = lines(text);
    if forall|i: int| 0 <= i < all.len() ==> (#[trigger] repo_of_line(all[i])) is Some {
        Ok(all.map_values(|line: Seq<char>| repo_of_line(line).unwrap()))
    } else {
        Err(FormatError::MalformedLine)
    }
}

/// The package version that a line of a version list names: its four fields
/// are the rapid name, the hash, the dependencies and the archive name. A
/// line with another number of fields names none.
pub open spec fn sdp_of_line(line: Seq<char>) -> Option<SdpView> {
    let fields = split_on(line, ',');
    if fields.len() == 4 {
        Some(
            SdpView {
                rapid_name: fields[0],
                md5: fields[1],
                depends: fields[2],
                archive_name: fields[3],
            },
        )
    } else {
        None
    }
}

/// The package versions that the version list `text` names, in the order of
/// its lines. Lines that name none are passed over.
pub open spec fn parse_versions(text: Seq<char>) -> Seq<SdpView> {
    lines(text).filter(|line: Seq<char>| sdp_of_line(line) is Some).map_values(
        |line: Seq<char>| sdp_of_line(line).unwrap(),
    )
}

/// Reads the registry of repositories from its text.
pub fn parse_repos_from_str(s: &str) -> (r: Result<Vec<Repo>, FormatError>)
    ensures
        match r {
            Ok(repos) => parse_repos(s@) == Ok::<Seq<RepoView>, FormatError>(repo_views(repos@)),
            Err(e) => parse_repos(s@) == Err::<Seq<RepoView>, FormatError>(e),
        },
{
    let chars = chars_of(s);
    let all = split_lines(chars.as_slice());
    let ghost texts = lines(s@);
    let mut entries: Vec<Repo> = Vec::new();
    let mut i: usize = 0;
    assert(repo_views(entries@) =~= Seq::<RepoView>::empty());
    while i < all.len()
        invariant
            i <= all@.len(),
            texts == lines(s@),
            char_seqs(all@) == texts,
            entries@.len() == i,
            forall|j: int| 0 <= j < i ==> (#[trigger] repo_of_line(texts[j])) is Some,
            forall|j: int|
                0 <= j < i ==> (#[trigger] entries@[j])@ == repo_of_line(texts[j]).unwrap(),
        decreases all@.len() - i,
    {
        let line_entry = split_fields(all[i].as_slice(), ',');
        assert(string_views(line_entry@) == split_on(texts[i as int], ','));
        if line_entry.len() < 2 {
            assert(0 <= i < texts.len());
            assert(repo_of_line(texts[i as int]) is None);
            return Err(FormatError::MalformedLine);
        }
        let name = line_entry[0].clone();
        let url = line_entry[1].clone();
        assert(name@ == string_views(line_entry@)[0]);
        assert(url@ == string_views(line_entry@)[1]);
        entries.push(Repo { name, url });
        i += 1;
    }
    assert(repo_views(entries@) =~= texts.map_values(
        |line: Seq<char>| repo_of_line(line).unwrap(),
    ));
    Ok(entries)
}

/// Reads the registry of repositories as it is stored, gzip-compressed.
pub fn parse_repos_from_file(file: &[u8]) -> (r: Result<Vec<Repo>, FormatError>)
    ensures
        match r {
            Ok(repos) => {
                &&& gunzip_text(file@) matches Some(text)
                &&& parse_repos(text) == Ok::<Seq<RepoView>, FormatError>(repo_views(repos@))
            },
            Err(e) => match gunzip_text(file@) {
                None => e == FormatError::Unreadable,
                Some(text) => parse_repos(text) == Err::<Seq<RepoView>, FormatError>(e),
            },
        },
{
    match read_gz_from_data(file) {
        Err(_) => Err(FormatError::Unreadable),
        Ok(text) => parse_repos_from_str(text.as_str()),
    }
}

/// Reads a version list from its text. This never fails: a line that does
/// not have four fields is passed over.
pub fn read_rapid_from_str(parsed_gz: &str) -> (r: Result<Vec<Sdp>, FormatError>)
    ensures
        r matches Ok(sdps) && sdp_views(sdps@) == parse_versions(parsed_gz@),
{
    let chars = chars_of(parsed_gz);
    let all = split_lines(chars.as_slice());
    let ghost texts = lines(parsed_gz@);
    let ghost named = |line: Seq<char>| sdp_of_line(line) is Some;
    let ghost made = |line: Seq<char>| sdp_of_line(line).unwrap();
    let mut entries: Vec<Sdp> = Vec::new();
    let mut i: usize = 0;
    assert(sdp_views(entries@) =~= Seq::<SdpView>::empty());
    assert(texts.take(0).filter(named).map_values(made) =~= Seq::<SdpView>::empty()) by {
        reveal(Seq::filter);
    }
    while i < all.len()
        invariant
            i <= all@.len(),
            char_seqs(all@) == texts,
            named == |line: Seq<char>| sdp_of_line(line) is Some,
            made == |line: Seq<char>| sdp_of_line(line).unwrap(),
            sdp_views(entries@) == texts.take(i as int).filter(named).map_values(made),
        decreases all@.len() - i,
    {
        let line_entry = split_fields(all[i].as_slice(), ',');
        let ghost line = texts[i as int];
        let ghost before = texts.take(i as int);
        let ghost views = sdp_views(entries@);
        assert(string_views(line_entry@) == split_on(line, ','));
        proof {
            let now = texts.take(i + 1);
            reveal(Seq::filter);
            assert(0 <= i < texts.len());
            assert(now.drop_last() =~= before);
            assert(now.last() == line);
            assert(now.filter(named) == if named(line) {
                before.filter(named).push(line)
            } else {
                before.filter(named)
            });
        }
        if line_entry.len() == 4 {
            let rapid_name = line_entry[0].clone();
            let md5 = line_entry[1].clone();
            let depends = line_entry[2].clone();
            let archive_name = line_entry[3].clone();
            assert(rapid_name@ == string_views(line_entry@)[0]);
            assert(md5@ == string_views(line_entry@)[1]);
            assert(depends@ == string_views(line_entry@)[2]);
            assert(archive_name@ == string_views(line_entry@)[3]);
            let sdp = Sdp { rapid_name, md5, depends, archive_name };
            assert(sdp@ == made(line));
            entries.push(sdp);
            assert(sdp_views(entries@) =~= views.push(made(line)));
            assert(before.filter(named).push(line).map_values(made) =~= before.filter(
                named,
            ).map_values(made).push(made(line)));
        }
        i += 1;
    }
    assert(texts.take(i as int) =~= texts);
    Ok(entries)
}

/// Reads a version list as it is stored, gzip-compressed.
pub fn read_rapid_from_file(file: &[u8]) -> (r: Result<Vec<Sdp>, GzReadError>)
    ensures
        match r {
            Ok(sdps) => {
                &&& gunzip_text(file@) matches Some(text)
                &&& sdp_views(sdps@) == parse_versions(text)
            },
            Err(_) => gunzip_text(file@) is None,
        },
{
    match read_gz_from_data(file) {
        Err(e) => Err(e),
        Ok(text) => match read_rapid_from_str(text.as_str()) {
            Ok(sdps) => Ok(sdps),
            Err(_) => Err(GzReadError {}),
        },
    }
}

} // verus!
