//! The framed blob stream: the body of a streamer response, cut into the
//! payloads of the blobs that were asked for.
//!
//! A response body is a run of records, one per requested blob, each a four
//! byte big-endian length followed by that many payload bytes. The transport
//! hands the body over in chunks whose boundaries mean nothing.

use vstd::prelude::*;
use vstd::slice::{slice_subrange, slice_to_vec};
use crate::file_download::{is_uri, uri_parses, FileDownloadError};
use crate::gz::{gunzip, gzip, gzip_data, GzReadError};
use crate::rapid::rapid_store::{
    join, missing_indices, missing_indices_are_the_absent, missing_positions, pool_path,
    RapidStore,
};
use crate::rapid::types::{Repo, Sdp, SdpPackage};
use crate::text::{chars_of, push_text, string_from_chars};

verus! {

/// Why reading from the response stream failed.
#[derive(Debug, Clone, Copy, PartialEq, Eq, Structural)]
pub enum ReadingError {
    /// The stream ended before the bytes asked for had arrived.
    NoMoreData,
    /// The transport failed.
    NetworkError,
}

/// The number that four bytes spell in big-endian order.
pub open spec fn be_u32(b: Seq<u8>) -> int
    recommends
        b.len() == 4,
{
    b[0] as int * 16777216 + b[1] as int * 65536 + b[2] as int * 256 + b[3] as int
}

/// One record of a response body, and the bytes that follow it.
pub struct Frame {
    pub payload: Seq<u8>,
    pub rest: Seq<u8>,
}

/// The leading records of a response body, and the bytes that follow them.
pub struct Frames {
    pub payloads: Seq<Seq<u8>>,
    pub tail: Seq<u8>,
}

/// The first record of `body`, if all of it is there.
pub open spec fn first_frame(body: Seq<u8>) -> Option<Frame> {
    if body.len() >= 4 && body.len() - 4 >= be_u32(body.take(4)) {
        let n = be_u32(body.take(4));
        Some(Frame { payload: body.subrange(4, 4 + n), rest: body.skip(4 + n) })
    } else {
        None
    }
}

/// The leading complete records of `body`, at most `limit` of them, and the
/// bytes after the last of these.
pub open spec fn split_frames(body: Seq<u8>, limit: nat) -> Frames
    decreases limit,
{
    if limit == 0 {
        Frames { payloads: Seq::empty(), tail: body }
    } else {
        match first_frame(body) {
            None => Frames { payloads: Seq::empty(), tail: body },
            Some(frame) => {
                let more = split_frames(frame.rest, (limit - 1) as nat);
                Frames { payloads: seq![frame.payload] + more.payloads, tail: more.tail }
            },
        }
    }
}

/// All the chunks of a stream, one after the other.
pub open spec fn joined(chunks: Seq<Seq<u8>>) -> Seq<u8>
    decreases chunks.len(),
{
    if chunks.len() == 0 {
        Seq::empty()
    } else {
        joined(chunks.drop_last()) + chunks.last()
    }
}

/// Bytes that arrive after a complete record do not change it.
pub proof fn first_frame_extends(body: Seq<u8>, more: Seq<u8>)
    requires
        first_frame(body) is Some,
    ensures
        first_frame(body + more) == Some(
            Frame {
                payload: first_frame(body).unwrap().payload,
                rest: first_frame(body).unwrap().rest + more,
            },
        ),
{
    let whole = body + more;
    assert(whole.take(4) =~= body.take(4));
    let n = be_u32(body.take(4));
    assert(whole.subrange(4, 4 + n) =~= body.subrange(4, 4 + n));
    assert(whole.skip(4 + n) =~= body.skip(4 + n) + more);
}

/// Bytes that arrive after `count` complete records leave them as they are
/// and lengthen what follows them.
pub proof fn split_frames_extends(body: Seq<u8>, count: nat, more: Seq<u8>)
    requires
        split_frames(body, count).payloads.len() == count,
    ensures
        split_frames(body + more, count) == (Frames {
            payloads: split_frames(body, count).payloads,
            tail: split_frames(body, count).tail + more,
        }),
    decreases count,
{
    if count > 0 {
        first_frame_extends(body, more);
        let rest = first_frame(body).unwrap().rest;
        split_frames_extends(rest, (count - 1) as nat, more);
    } else {
        assert(split_frames(body + more, 0).tail == split_frames(body, 0).tail + more);
    }
}

/// One more complete record after `count` of them is the next payload.
pub proof fn split_frames_step(body: Seq<u8>, count: nat)
    requires
        split_frames(body, count).payloads.len() == count,
        first_frame(split_frames(body, count).tail) is Some,
    ensures
        split_frames(body, count + 1) == (Frames {
            payloads: split_frames(body, count).payloads.push(
                first_frame(split_frames(body, count).tail).unwrap().payload,
            ),
            tail: first_frame(split_frames(body, count).tail).unwrap().rest,
        }),
    decreases count,
{
    if count == 0 {
        let frame = first_frame(body).unwrap();
        assert(split_frames(frame.rest, 0).payloads == Seq::<Seq<u8>>::empty());
        assert(seq![frame.payload] + Seq::<Seq<u8>>::empty() =~= Seq::<Seq<u8>>::empty().push(
            frame.payload,
        ));
    } else {
        let frame = first_frame(body).unwrap();
        split_frames_step(frame.rest, (count - 1) as nat);
        let before = split_frames(frame.rest, (count - 1) as nat);
        let next = first_frame(before.tail).unwrap().payload;
        assert(seq![frame.payload] + before.payloads.push(next) =~= (seq![frame.payload]
            + before.payloads).push(next));
    }
}

/// Where the record after `count` complete ones is not whole, asking for
/// more records finds no more.
pub proof fn split_frames_stalls(body: Seq<u8>, count: nat, limit: nat)
    requires
        split_frames(body, count).payloads.len() == count,
        first_frame(split_frames(body, count).tail) is None,
        count <= limit,
    ensures
        split_frames(body, limit) == split_frames(body, count),
    decreases count,
{
    if count > 0 {
        let frame = first_frame(body).unwrap();
        split_frames_stalls(frame.rest, (count - 1) as nat, (limit - 1) as nat);
    }
}

/// No more payloads come out than were asked for.
pub proof fn split_frames_bounded(body: Seq<u8>, limit: nat)
    ensures
        split_frames(body, limit).payloads.len() <= limit,
    decreases limit,
{
    if limit > 0 && first_frame(body) is Some {
        split_frames_bounded(first_frame(body).unwrap().rest, (limit - 1) as nat);
    }
}

/// Reads a slice of exactly four bytes as an array.
pub fn slice_to_u4(slice: &[u8]) -> (r: Option<[u8; 4]>)
    ensures
        r is Some <==> slice@.len() == 4,
        r matches Some(a) ==> a@ == slice@,
{
    if slice.len() != 4 {
        return None;
    }
    let a = [slice[0], slice[1], slice[2], slice[3]];
    assert(a@ =~= slice@);
    Some(a)
}

/// The length that a four byte big-endian field spells.
pub fn length_of(field: [u8; 4]) -> (n: u32)
    ensures
        n == be_u32(field@),
{
    (field[0] as u32) * 16777216 + (field[1] as u32) * 65536 + (field[2] as u32) * 256 + (
    field[3] as u32)
}

/// The bytes of a response that have arrived and have not been read yet.
pub struct BufferedReader {
    buf: Vec<u8>,
    current: usize,
}

impl View for BufferedReader {
    type V = Seq<u8>;

    /// The unread bytes, oldest first.
    closed spec fn view(&self) -> Seq<u8> {
        self.buf@.skip(self.current as int)
    }
}

impl BufferedReader {
    /// The cursor stands inside the buffer. Every reader made by [`new`]
    /// is well-formed, and every method keeps it so.
    ///
    /// [`new`]: BufferedReader::new
    pub closed spec fn wf(&self) -> bool {
        self.current <= self.buf@.len()
    }

    /// A reader that holds nothing.
    pub fn new() -> (reader: BufferedReader)
        ensures
            reader.wf(),
            reader@ == Seq::<u8>::empty(),
    {
        BufferedReader { buf: Vec::new(), current: 0 }
    }

    /// Takes in a chunk that the transport delivered.
    pub fn push_chunk(&mut self, chunk: &[u8])
        requires
            old(self).wf(),
        ensures
            final(self).wf(),
            final(self)@ == old(self)@ + chunk@,
    {
        if self.current > 0 {
            let unread = self.buf.split_off(self.current);
            self.current = 0;
            self.buf = unread;
        }
        let ghost before = self.buf@;
        self.buf.extend_from_slice(chunk);
        assert(self.buf@ =~= before + chunk@);
    }

    /// How many bytes are waiting to be read.
    pub fn available(&self) -> (n: usize)
        requires
            self.wf(),
        ensures
            n == self@.len(),
    {
        self.buf.len() - self.current
    }

    /// The next `size` bytes, left in place.
    pub fn peek(&self, size: usize) -> (r: Option<Vec<u8>>)
        requires
            self.wf(),
        ensures
            r is Some <==> size <= self@.len(),
            r matches Some(bytes) ==> bytes@ == self@.take(size as int),
    {
        if self.buf.len() - self.current < size {
            return None;
        }
        let part = slice_subrange(self.buf.as_slice(), self.current, self.current + size);
        let bytes = slice_to_vec(part);
        assert(bytes@ =~= self@.take(size as int));
        Some(bytes)
    }

    fn consume(&mut self, size: usize) -> (bytes: Vec<u8>)
        requires
            old(self).wf(),
            size <= old(self)@.len(),
        ensures
            final(self).wf(),
            bytes@ == old(self)@.take(size as int),
            final(self)@ == old(self)@.skip(size as int),
    {
        let ghost before = self@;
        assert(before.len() == self.buf@.len() - self.current);
        assert(self.buf@.len() == self.buf.len());
        let part = slice_subrange(self.buf.as_slice(), self.current, self.current + size);
        let bytes = slice_to_vec(part);
        self.current = self.current + size;
        assert(bytes@ =~= before.take(size as int));
        assert(self@ =~= before.skip(size as int));
        bytes
    }

    /// Reads exactly `size` bytes and moves past them. Where fewer have
    /// arrived, nothing is read and the answer is `NoMoreData`: the caller
    /// feeds the reader and asks again, or gives up if the stream has ended.
    pub fn read_amount(&mut self, size: usize) -> (r: Result<Vec<u8>, ReadingError>)
        requires
            old(self).wf(),
        ensures
            final(self).wf(),
            match r {
                Ok(bytes) => {
                    &&& size <= old(self)@.len()
                    &&& bytes@ == old(self)@.take(size as int)
                    &&& final(self)@ == old(self)@.skip(size as int)
                },
                Err(e) => {
                    &&& e == ReadingError::NoMoreData
                    &&& old(self)@.len() < size
                    &&& final(self)@ == old(self)@
                },
            },
    {
        if self.available() < size {
            Err(ReadingError::NoMoreData)
        } else {
            Ok(self.consume(size))
        }
    }

    /// A copy of everything that is waiting to be read.
    pub fn read_remainder(&self) -> (bytes: Vec<u8>)
        requires
            self.wf(),
        ensures
            bytes@ == self@,
    {
        let part = slice_subrange(self.buf.as_slice(), self.current, self.buf.len());
        let bytes = slice_to_vec(part);
        assert(bytes@ =~= self@);
        bytes
    }
}

/// What a [`StreamDecoder`] asks of its caller next.
#[derive(Debug)]
pub enum DecodeStep {
    /// The next record is not whole yet: feed the decoder another chunk, or
    /// tell it that the stream has ended.
    NeedData,
    /// The payload of the requested blob number `index`, counting the
    /// requested blobs from zero in the order of the blob list.
    Payload { index: usize, data: Vec<u8> },
    /// Every requested blob has been handed out.
    Done,
}

/// Cuts a response body that arrives chunk by chunk into the payloads of the
/// requested blobs.
///
/// The caller pushes each chunk as the transport delivers it and calls
/// [`next_step`] until it answers `NeedData` or `Done`. What is handed out
/// depends on the bytes received and not on where the chunks were cut.
///
/// [`next_step`]: StreamDecoder::next_step
pub struct StreamDecoder {
    reader: BufferedReader,
    expected: usize,
    delivered: usize,
    received: Ghost<Seq<u8>>,
    handed: Ghost<Seq<Seq<u8>>>,
}

impl StreamDecoder {
    /// How many payloads the response is to hold.
    pub closed spec fn expected(&self) -> nat {
        self.expected as nat
    }

    /// Every byte pushed so far, in order.
    pub closed spec fn received(&self) -> Seq<u8> {
        self.received@
    }

    /// The payloads handed out so far, in order.
    pub closed spec fn handed(&self) -> Seq<Seq<u8>> {
        self.handed@
    }

    /// The payloads handed out are the leading records of what was received,
    /// and the reader holds what follows them. Every decoder made by [`new`]
    /// is well-formed, and every method keeps it so.
    ///
    /// [`new`]: StreamDecoder::new
    pub closed spec fn wf(&self) -> bool {
        &&& self.reader.wf()
        &&& self.delivered <= self.expected
        &&& self.handed@.len() == self.delivered
        &&& split_frames(self.received@, self.delivered as nat) == (Frames {
            payloads: self.handed@,
            tail: self.reader@,
        })
    }

    /// What has been handed out is always a run of leading records of what
    /// has been received, and never more than was expected.
    pub proof fn handed_is_prefix(&self)
        requires
            self.wf(),
        ensures
            self.handed().len() <= self.expected(),
            self.handed() == split_frames(self.received(), self.handed().len()).payloads,
    {
    }

    /// A decoder for a response that is to hold `expected` payloads.
    pub fn new(expected: usize) -> (decoder: StreamDecoder)
        ensures
            decoder.wf(),
            decoder.expected() == expected,
            decoder.received() == Seq::<u8>::empty(),
            decoder.handed() == Seq::<Seq<u8>>::empty(),
    {
        StreamDecoder {
            reader: BufferedReader::new(),
            expected,
            delivered: 0,
            received: Ghost(Seq::empty()),
            handed: Ghost(Seq::empty()),
        }
    }

    /// Takes in a chunk that the transport delivered.
    pub fn push_chunk(&mut self, chunk: &[u8])
        requires
            old(self).wf(),
        ensures
            final(self).wf(),
            final(self).expected() == old(self).expected(),
            final(self).received() == old(self).received() + chunk@,
            final(self).handed() == old(self).handed(),
    {
        proof {
            split_frames_extends(self.received@, self.delivered as nat, chunk@);
        }
        self.reader.push_chunk(chunk);
        self.received = Ghost(self.received@ + chunk@);
    }

    /// Hands out the next payload if all of it has arrived.
    ///
    /// `NeedData` means that every complete record received so far has been
    /// handed out and more are expected. `Done` means that all the expected
    /// payloads have been handed out.
    pub fn next_step(&mut self) -> (step: DecodeStep)
        requires
            old(self).wf(),
        ensures
            final(self).wf(),
            final(self).expected() == old(self).expected(),
            final(self).received() == old(self).received(),
            match step {
                DecodeStep::Payload { index, data } => {
                    &&& index == old(self).handed().len()
                    &&& index < old(self).expected()
                    &&& final(self).handed() == old(self).handed().push(data@)
                },
                DecodeStep::NeedData => {
                    &&& final(self).handed() == old(self).handed()
                    &&& old(self).handed().len() < old(self).expected()
                    &&& old(self).handed() == split_frames(
                        old(self).received(),
                        old(self).expected(),
                    ).payloads
                },
                DecodeStep::Done => {
                    &&& final(self).handed() == old(self).handed()
                    &&& old(self).handed().len() == old(self).expected()
                },
            },
    {
        if self.delivered == self.expected {
            return DecodeStep::Done;
        }
        let ghost unread = self.reader@;
        let header = match self.reader.peek(4) {
            Some(h) => h,
            None => {
                proof {
                    split_frames_stalls(
                        self.received@,
                        self.delivered as nat,
                        self.expected as nat,
                    );
                }
                return DecodeStep::NeedData;
            },
        };
        let field = [header[0], header[1], header[2], header[3]];
        assert(field@ =~= unread.take(4));
        let length = length_of(field) as usize;
        if self.reader.available() - 4 < length {
            proof {
                split_frames_stalls(self.received@, self.delivered as nat, self.expected as nat);
            }
            return DecodeStep::NeedData;
        }
        proof {
            split_frames_step(self.received@, self.delivered as nat);
        }
        let _ = self.reader.consume(4);
        let data = self.reader.consume(length);
        assert(data@ =~= unread.subrange(4, 4 + length));
        assert(self.reader@ =~= unread.skip(4 + length));
        let index = self.delivered;
        self.delivered = self.delivered + 1;
        self.handed = Ghost(self.handed@.push(data@));
        DecodeStep::Payload { index, data }
    }

    /// Closes the decoding once the stream has ended without a transport
    /// failure: the bytes left over after the last expected payload, or
    /// `NoMoreData` where not all the expected payloads have been handed
    /// out.
    pub fn finish(&self) -> (end: Result<Vec<u8>, ReadingError>)
        requires
            self.wf(),
        ensures
            match end {
                Ok(rest) => {
                    &&& self.handed().len() == self.expected()
                    &&& rest@ == split_frames(self.received(), self.expected()).tail
                },
                Err(e) => {
                    &&& e == ReadingError::NoMoreData
                    &&& self.handed().len() < self.expected()
                },
            },
    {
        if self.delivered < self.expected {
            Err(ReadingError::NoMoreData)
        } else {
            Ok(self.reader.read_remainder())
        }
    }
}

/// The views of a list of byte strings, in order.
pub open spec fn byte_seqs(list: Seq<Vec<u8>>) -> Seq<Seq<u8>> {
    list.map_values(|bytes: Vec<u8>| bytes@)
}

/// How the reading of a response ends, once `expected` payloads have been
/// looked for in `body`: the bytes left over, or the reason for giving up.
pub open spec fn stream_end(body: Seq<u8>, transport_failed: bool, expected: nat) -> Result<
    Seq<u8>,
    ReadingError,
> {
    if transport_failed {
        Err(ReadingError::NetworkError)
    } else if split_frames(body, expected).payloads.len() < expected {
        Err(ReadingError::NoMoreData)
    } else {
        Ok(split_frames(body, expected).tail)
    }
}

/// What came of reading a whole response.
#[derive(Debug)]
pub struct StreamOutcome {
    /// The payloads that were complete, in the order of the requested blobs.
    /// They are to be written even where `end` is an error.
    pub payloads: Vec<Vec<u8>>,
    /// The bytes that followed the last expected payload, which should be
    /// none, or why the reading gave up.
    pub end: Result<Vec<u8>, ReadingError>,
}

/// Reads a response that arrived as `chunks` and is to hold `expected`
/// payloads. `transport_failed` says that the transport broke off after the
/// last chunk instead of ending the stream.
pub fn decode_stream(chunks: &[Vec<u8>], transport_failed: bool, expected: usize) -> (out:
    StreamOutcome)
    ensures
        byte_seqs(out.payloads@) == split_frames(
            joined(byte_seqs(chunks@)),
            expected as nat,
        ).payloads,
        match out.end {
            Ok(rest) => stream_end(joined(byte_seqs(chunks@)), transport_failed, expected as nat)
                == Ok::<Seq<u8>, ReadingError>(rest@),
            Err(e) => stream_end(joined(byte_seqs(chunks@)), transport_failed, expected as nat)
                == Err::<Seq<u8>, ReadingError>(e),
        },
{
    let mut decoder = StreamDecoder::new(expected);
    let mut payloads: Vec<Vec<u8>> = Vec::new();
    let mut next_chunk: usize = 0;
    assert(byte_seqs(chunks@).take(0) =~= Seq::<Seq<u8>>::empty());
    assert(byte_seqs(payloads@) =~= Seq::<Seq<u8>>::empty());
    loop
        invariant
            decoder.wf(),
            decoder.expected() == expected,
            next_chunk <= chunks@.len(),
            decoder.received() == joined(byte_seqs(chunks@).take(next_chunk as int)),
            decoder.handed() == byte_seqs(payloads@),
        ensures
            decoder.wf(),
            decoder.expected() == expected,
            decoder.received() == joined(byte_seqs(chunks@)),
            decoder.handed() == byte_seqs(payloads@),
            decoder.handed() == split_frames(decoder.received(), expected as nat).payloads,
        decreases chunks@.len() - next_chunk, expected - decoder.handed().len(),
    {
        proof {
            decoder.handed_is_prefix();
        }
        match decoder.next_step() {
            DecodeStep::Payload { index, data } => {
                let ghost views = byte_seqs(payloads@);
                payloads.push(data);
                assert(byte_seqs(payloads@) =~= views.push(data@));
            },
            _ => {
                if next_chunk == chunks.len() {
                    proof {
                        assert(byte_seqs(chunks@).take(next_chunk as int) =~= byte_seqs(chunks@));
                        decoder.handed_is_prefix();
                    }
                    break ;
                }
                let ghost fed = byte_seqs(chunks@).take(next_chunk as int);
                decoder.push_chunk(chunks[next_chunk].as_slice());
                next_chunk = next_chunk + 1;
                proof {
                    let now = byte_seqs(chunks@).take(next_chunk as int);
                    assert(now.drop_last() =~= fed);
                    assert(now.last() == chunks@[next_chunk - 1]@);
                }
            },
        }
    }
    let end = if transport_failed {
        Err(ReadingError::NetworkError)
    } else {
        decoder.finish()
    };
    StreamOutcome { payloads, end }
}

/// Where a response is cut into chunks does not matter: two runs of chunks
/// that spell the same body hold the same payloads and end the same way.
pub proof fn chunking_does_not_matter(
    first: Seq<Seq<u8>>,
    second: Seq<Seq<u8>>,
    transport_failed: bool,
    expected: nat,
)
    requires
        joined(first) == joined(second),
    ensures
        split_frames(joined(first), expected) == split_frames(joined(second), expected),
        stream_end(joined(first), transport_failed, expected) == stream_end(
            joined(second),
            transport_failed,
            expected,
        ),
{
}

/// Cutting a chunk in two changes nothing of the body.
pub proof fn joined_ignores_cut(before: Seq<Seq<u8>>, chunk: Seq<u8>, at: int, after: Seq<Seq<u8>>)
    requires
        0 <= at <= chunk.len(),
    ensures
        joined(before + seq![chunk] + after) == joined(
            before + seq![chunk.take(at), chunk.skip(at)] + after,
        ),
    decreases after.len(),
{
    if after.len() == 0 {
        let whole = before + seq![chunk] + after;
        let cut = before + seq![chunk.take(at), chunk.skip(at)] + after;
        let half = before + seq![chunk.take(at)];
        assert(whole.drop_last() =~= before);
        assert(cut.drop_last() =~= half);
        assert(half.drop_last() =~= before);
        assert(joined(half) == joined(before) + chunk.take(at));
        assert(joined(cut) == joined(half) + chunk.skip(at));
        assert(chunk.take(at) + chunk.skip(at) =~= chunk);
        assert(joined(cut) =~= joined(before) + chunk);
    } else {
        let whole = before + seq![chunk] + after;
        let cut = before + seq![chunk.take(at), chunk.skip(at)] + after;
        joined_ignores_cut(before, chunk, at, after.drop_last());
        assert(whole.drop_last() =~= before + seq![chunk] + after.drop_last());
        assert(cut.drop_last() =~= before + seq![chunk.take(at), chunk.skip(at)]
            + after.drop_last());
    }
}

/// The four bytes that spell `n` in big-endian order.
pub open spec fn be_bytes(n: int) -> Seq<u8>
    recommends
        0 <= n <= u32::MAX,
{
    seq![
        (n / 16777216) as u8,
        (n / 65536 % 256) as u8,
        (n / 256 % 256) as u8,
        (n % 256) as u8,
    ]
}

/// The record that carries `payload`.
pub open spec fn frame_of(payload: Seq<u8>) -> Seq<u8> {
    be_bytes(payload.len() as int) + payload
}

/// The response body that carries `payloads` in order.
pub open spec fn framed(payloads: Seq<Seq<u8>>) -> Seq<u8>
    decreases payloads.len(),
{
    if payloads.len() == 0 {
        Seq::empty()
    } else {
        frame_of(payloads[0]) + framed(payloads.skip(1))
    }
}

/// A record is read back from its bytes, whatever follows them.
pub proof fn first_frame_of_framed(payload: Seq<u8>, rest: Seq<u8>)
    requires
        payload.len() <= u32::MAX,
    ensures
        first_frame(frame_of(payload) + rest) == Some(Frame { payload, rest }),
{
    let body = frame_of(payload) + rest;
    let n = payload.len() as int;
    assert(body.take(4) =~= be_bytes(n));
    assert(be_u32(be_bytes(n)) == n);
    assert(body.subrange(4, 4 + n) =~= payload);
    assert(body.skip(4 + n) =~= rest);
}

/// A body made of `payloads`, none longer than a length field can say, is
/// cut into exactly these payloads, and what follows the body is left over.
pub proof fn split_frames_of_framed(payloads: Seq<Seq<u8>>, rest: Seq<u8>)
    requires
        forall|k: int| 0 <= k < payloads.len() ==> (#[trigger] payloads[k]).len() <= u32::MAX,
    ensures
        split_frames(framed(payloads) + rest, payloads.len()) == (Frames { payloads, tail: rest }),
    decreases payloads.len(),
{
    if payloads.len() == 0 {
        assert(framed(payloads) + rest =~= rest);
        assert(payloads =~= Seq::<Seq<u8>>::empty());
    } else {
        let first = payloads[0];
        let others = payloads.skip(1);
        let body = framed(payloads) + rest;
        assert(body =~= frame_of(first) + (framed(others) + rest));
        first_frame_of_framed(first, framed(others) + rest);
        assert forall|k: int| 0 <= k < others.len() implies (#[trigger] others[k]).len()
            <= u32::MAX by {
            assert(others[k] == payloads[k + 1]);
        }
        split_frames_of_framed(others, rest);
        assert(seq![first] + others =~= payloads);
    }
}

/// What is sent to the streamer: a POST to `url` with `body`.
#[derive(Debug)]
pub struct StreamRequest {
    pub url: String,
    pub body: Vec<u8>,
}

/// The address of the streamer of the repository at `repo_url`, for the
/// package with the hexadecimal hash `md5`.
pub open spec fn streamer_url(repo_url: Seq<char>, md5: Seq<char>) -> Seq<char> {
    repo_url + "/streamer.cgi?"@ + md5
}

/// Whether a download bitmap asks for any blob: a request for none is not
/// to be sent.
pub open spec fn asks_for_some(download_map: Seq<u8>) -> bool {
    exists|i: int| 0 <= i < download_map.len() && download_map[i] != 0
}

/// The request made of an address and a compressed bitmap, once it is known
/// whether the address is a URI and whether the compression went well. An
/// address that is no URI gives `InvalidUri`; failed compression, with a
/// good address, gives `FilesystemError`.
pub fn stream_request(url: String, url_is_uri: bool, packed: Result<Vec<u8>, GzReadError>) -> (r:
    Result<StreamRequest, FileDownloadError>)
    ensures
        match r {
            Ok(request) => {
                &&& url_is_uri
                &&& request.url@ == url@
                &&& packed matches Ok(body)
                &&& request.body@ == body@
            },
            Err(e) => if url_is_uri {
                packed is Err && e == FileDownloadError::FilesystemError
            } else {
                e == FileDownloadError::InvalidUri
            },
        },
{
    if !url_is_uri {
        return Err(FileDownloadError::InvalidUri);
    }
    match packed {
        Ok(body) => Ok(StreamRequest { url, body }),
        Err(_) => Err(FileDownloadError::FilesystemError),
    }
}

/// The request that asks the streamer of `repo` for the blobs of `sdp` that
/// `download_map` marks: a POST to the streamer's address whose body is the
/// gzip-compressed bitmap.
///
/// The blob list must not be empty and the bitmap must mark a blob. The
/// request is made exactly where the address is a URI and the bitmap
/// compresses; it fails with `InvalidUri` where the address is no URI, and
/// with `FilesystemError` where the address is one and the encoder fails.
pub fn download_sdp_files(
    repo: &Repo,
    sdp: &Sdp,
    download_map: &[u8],
    sdp_files: &[SdpPackage],
) -> (r: Result<StreamRequest, FileDownloadError>)
    requires
        sdp_files@.len() != 0,
        asks_for_some(download_map@),
    ensures
        match r {
            Ok(request) => {
                &&& uri_parses(streamer_url(repo.url@, sdp.md5@))
                &&& request.url@ == streamer_url(repo.url@, sdp.md5@)
                &&& gzip(download_map@) == Some(request.body@)
                &&& gunzip(request.body@) == Some(download_map@)
            },
            Err(e) => if uri_parses(streamer_url(repo.url@, sdp.md5@)) {
                gzip(download_map@) is None && e == FileDownloadError::FilesystemError
            } else {
                e == FileDownloadError::InvalidUri
            },
        },
{
    let mut url = chars_of(repo.url.as_str());
    push_text(&mut url, "/streamer.cgi?");
    push_text(&mut url, sdp.md5.as_str());
    let url = string_from_chars(url.as_slice());
    let ok = is_uri(url.as_str());
    if !ok {
        return Err(FileDownloadError::InvalidUri);
    }
    let gzipped = gzip_data(download_map);
    stream_request(url, ok, gzipped)
}

/// Where the payload of one missing blob goes.
#[derive(Debug)]
pub struct PoolTarget {
    /// The index of the blob in the blob list.
    pub index: usize,
    /// The pool path of the blob.
    pub path: String,
}

/// One blob to write: the payload that arrived for it, and where it goes.
#[derive(Debug)]
pub struct PoolWrite {
    /// The index of the blob in the blob list.
    pub index: usize,
    /// The pool path of the blob.
    pub path: String,
    /// What to write there.
    pub data: Vec<u8>,
}

/// Whether `targets` are the places of the missing blobs: target `k` names
/// the `k`-th blob that is not present and its path in the store rooted at
/// `root`.
pub open spec fn are_targets(
    targets: Seq<PoolTarget>,
    root: Seq<char>,
    sdp_files: Seq<SdpPackage>,
    present: Seq<bool>,
) -> bool {
    &&& targets.len() == missing_indices(present).len()
    &&& forall|k: int|
        0 <= k < targets.len() ==> {
            let target = #[trigger] targets[k];
            &&& target.index == missing_indices(present)[k]
            &&& target.path@ == join(
                root,
                pool_path(sdp_files[missing_indices(present)[k]].md5_bin@),
            )
        }
}

/// Whether `write` puts `payload` where `target` says.
pub open spec fn writes_to(write: PoolWrite, target: PoolTarget, payload: Seq<u8>) -> bool {
    &&& write.index == target.index
    &&& write.path@ == target.path@
    &&& write.data@ == payload
}

/// The places of the blobs of `sdp_files` that the store lacks, in the
/// order of the blob list: the order in which the streamer sends their
/// payloads. `present[i]` says whether the file of blob `i` is there.
pub fn pool_targets(rapid_store: &RapidStore, sdp_files: &[SdpPackage], present: &[bool]) -> (targets:
    Vec<PoolTarget>)
    requires
        present@.len() == sdp_files@.len(),
    ensures
        are_targets(targets@, rapid_store.root@, sdp_files@, present@),
{
    let missing_at = missing_positions(present);
    let ghost missing = missing_indices(present@);
    proof {
        missing_indices_are_the_absent(present@);
    }
    let mut targets: Vec<PoolTarget> = Vec::new();
    let mut k: usize = 0;
    while k < missing_at.len()
        invariant
            k <= missing_at@.len(),
            targets@.len() == k,
            present@.len() == sdp_files@.len(),
            missing == missing_indices(present@),
            missing_at@.len() == missing.len(),
            forall|j: int| 0 <= j < missing.len() ==> (#[trigger] missing_at@[j]) == missing[j],
            forall|j: int| 0 <= j < missing.len() ==> 0 <= (#[trigger] missing[j]) < present@.len(),
            forall|j: int|
                0 <= j < targets@.len() ==> {
                    let target = #[trigger] targets@[j];
                    &&& target.index == missing[j]
                    &&& target.path@ == join(
                        rapid_store.root@,
                        pool_path(sdp_files@[missing[j]].md5_bin@),
                    )
                },
        decreases missing_at@.len() - k,
    {
        let index = missing_at[k];
        assert(index == missing[k as int]);
        let path = rapid_store.get_pool_path(&sdp_files[index]);
        targets.push(PoolTarget { index, path });
        k += 1;
    }
    targets
}

/// The write for payload number `index` of a response, counting from zero:
/// it goes to target number `index`. There is none for a payload beyond the
/// last target.
pub fn pool_write(targets: &[PoolTarget], index: usize, data: Vec<u8>) -> (write: Option<
    PoolWrite,
>)
    ensures
        match write {
            Some(write) => index < targets@.len() && writes_to(write, targets@[index as int], data@),
            None => index >= targets@.len(),
        },
{
    if index >= targets.len() {
        return None;
    }
    let target = &targets[index];
    Some(PoolWrite { index: target.index, path: target.path.clone(), data })
}

/// What came of a whole streamer response.
#[derive(Debug)]
pub struct StreamReport {
    /// The files to write, in the order in which they arrived. They are to
    /// be written even where `result` is an error.
    pub writes: Vec<PoolWrite>,
    /// How many bytes followed the last expected payload. There should be
    /// none; any are reported and otherwise passed over.
    pub remaining: usize,
    /// Whether the response was read to its end.
    pub result: Result<(), FileDownloadError>,
}

/// Reads the streamer's response for the blobs of `sdp_files` that the store
/// lacks. `present[i]` says whether the file of blob `i` is there; the
/// response arrived as `chunks`, and `transport_failed` says that the
/// transport broke off after the last of them.
///
/// The blob list must not be empty and a blob must be missing: without
/// either there is no request, and so no response to read.
///
/// Payload `k` of the response is the file of the `k`-th missing blob. A
/// response that ends early or a transport that fails gives
/// `InvalidServerResponse`; the payloads that were complete by then are
/// still to be written.
pub fn download_sdp_files_with_url(
    rapid_store: &RapidStore,
    sdp_files: &[SdpPackage],
    present: &[bool],
    chunks: &[Vec<u8>],
    transport_failed: bool,
) -> (report: StreamReport)
    requires
        present@.len() == sdp_files@.len(),
        sdp_files@.len() != 0,
        missing_indices(present@).len() > 0,
    ensures
        ({
            let missing = missing_indices(present@);
            let body = joined(byte_seqs(chunks@));
            let frames = split_frames(body, missing.len());
            &&& report.writes@.len() == frames.payloads.len()
            &&& report.writes@.len() <= missing.len()
            &&& forall|k: int|
                0 <= k < report.writes@.len() ==> {
                    let write = #[trigger] report.writes@[k];
                    &&& write.index == missing[k]
                    &&& write.path@ == join(
                        rapid_store.root@,
                        pool_path(sdp_files@[missing[k]].md5_bin@),
                    )
                    &&& write.data@ == frames.payloads[k]
                }
            &&& match stream_end(body, transport_failed, missing.len()) {
                Ok(rest) => report.result is Ok && report.remaining == rest.len(),
                Err(_) => report.result == Err::<(), FileDownloadError>(
                    FileDownloadError::InvalidServerResponse,
                ) && report.remaining == 0,
            }
        }),
{
    let targets = pool_targets(rapid_store, sdp_files, present);
    let outcome = decode_stream(chunks, transport_failed, targets.len());
    let ghost missing = missing_indices(present@);
    let ghost frames = split_frames(joined(byte_seqs(chunks@)), missing.len());
    proof {
        split_frames_bounded(joined(byte_seqs(chunks@)), missing.len());
    }
    let mut writes: Vec<PoolWrite> = Vec::new();
    let ghost handed = byte_seqs(outcome.payloads@);
    for data in it: outcome.payloads
        invariant
            handed == frames.payloads,
            handed.len() <= missing.len(),
            byte_seqs(it.seq()) == handed,
            are_targets(targets@, rapid_store.root@, sdp_files@, present@),
            missing == missing_indices(present@),
            writes@.len() == it.index(),
            forall|k: int|
                0 <= k < writes@.len() ==> {
                    let write = #[trigger] writes@[k];
                    &&& write.index == missing[k]
                    &&& write.path@ == join(
                        rapid_store.root@,
                        pool_path(sdp_files@[missing[k]].md5_bin@),
                    )
                    &&& write.data@ == handed[k]
                },
    {
        let ghost at = writes@.len() as int;
        assert(data@ == handed[at]);
        assert(at < targets@.len());
        if let Some(write) = pool_write(targets.as_slice(), writes.len(), data) {
            assert(writes_to(write, targets@[at], handed[at]));
            writes.push(write);
        }
    }
    match outcome.end {
        Ok(rest) => StreamReport { writes, remaining: rest.len(), result: Ok(()) },
        Err(_) => StreamReport {
            writes,
            remaining: 0,
            result: Err(FileDownloadError::InvalidServerResponse),
        },
    }
}

} // verus!
