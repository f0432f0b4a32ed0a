//! Gzip, as the store and the wire use it.
//!
//! Compression itself is the work of the `flate2` crate. What it computes is
//! not restated here: the two spec functions below only give its results a
//! name, so that the rest of the library can say which bytes it means.

use std::io::Read;
use vstd::prelude::*;
use vstd::utf8::{decode_utf8, valid_utf8};
use crate::text::string_from_utf8;

verus! {

/// The bytes did not make a gzip file, or its text was not UTF-8.
#[derive(Debug, Clone, Copy, PartialEq, Eq, Structural)]
pub struct GzReadError {}

/// What the first member of the gzip file `data` holds, or `None` where
/// `data` does not decompress.
pub uninterp spec fn gunzip(data: Seq<u8>) -> Option<Seq<u8>>;

/// The gzip file made of `data` at the default level of compression, or
/// `None` where the encoder reports an error.
pub uninterp spec fn gzip(data: Seq<u8>) -> Option<Seq<u8>>;

/// Decompresses a gzip file held in memory.
///
/// Trusted: calls `flate2::read::GzDecoder` and reads it to the end. The
/// contract claims no more than that the outcome is the one named `gunzip`:
/// the plain bytes where the decoder reads to the end without an error,
/// failure where it reports one.
#[verifier::external_body]
pub fn read_binary_gz_from_data(data: &[u8]) -> (r: Result<Vec<u8>, GzReadError>)
    ensures
        match r {
            Ok(plain) => gunzip(data@) == Some(plain@),
            Err(_) => gunzip(data@) is None,
        },
{
    let mut decoder = flate2::read::GzDecoder::new(data);
    let mut plain = Vec::new();
    match decoder.read_to_end(&mut plain) {
        Ok(_) => Ok(plain),
        Err(_) => Err(GzReadError {}),
    }
}

/// Compresses `data` into a gzip file.
///
/// Trusted: calls `flate2::read::GzEncoder` at `Compression::default()` and
/// reads it to the end. The contract claims that the outcome is the one
/// named `gzip`, the file where the encoder reads to the end without an
/// error and failure where it reports one, and that the file decompresses
/// to `data` again. It does not claim that the encoder succeeds.
#[verifier::external_body]
pub fn gzip_data(data: &[u8]) -> (r: Result<Vec<u8>, GzReadError>)
    ensures
        match r {
            Ok(packed) => gzip(data@) == Some(packed@) && gunzip(packed@) == Some(data@),
            Err(_) => gzip(data@) is None,
        },
{
    let mut encoder = flate2::read::GzEncoder::new(data, flate2::Compression::default());
    let mut packed = Vec::new();
    match encoder.read_to_end(&mut packed) {
        Ok(_) => Ok(packed),
        Err(_) => Err(GzReadError {}),
    }
}

/// The text that the gzip file `data` holds: `None` where it does not
/// decompress or what it holds is not UTF-8.
pub open spec fn gunzip_text(data: Seq<u8>) -> Option<Seq<char>> {
    match gunzip(data) {
        None => None,
        Some(plain) => if valid_utf8(plain) {
            Some(decode_utf8(plain))
        } else {
            None
        },
    }
}

/// The text of decompressed bytes: `None` where they are not UTF-8.
pub fn text_of(plain: Vec<u8>) -> (r: Result<String, GzReadError>)
    ensures
        match r {
            Ok(text) => valid_utf8(plain@) && text@ == decode_utf8(plain@),
            Err(_) => !valid_utf8(plain@),
        },
{
    match string_from_utf8(plain) {
        Some(text) => Ok(text),
        None => Err(GzReadError {}),
    }
}

/// Decompresses a gzip file held in memory and reads it as text.
pub fn read_gz_from_data(data: &[u8]) -> (r: Result<String, GzReadError>)
    ensures
        match r {
            Ok(text) => gunzip_text(data@) == Some(text@),
            Err(_) => gunzip_text(data@) is None,
        },
{
    match read_binary_gz_from_data(data) {
        Ok(plain) => text_of(plain),
        Err(e) => Err(e),
    }
}

} // verus!
