//! What a download reports while it runs.

use vstd::prelude::*;

verus! {

/// One report of a running operation, for whoever shows it to the user.
#[derive(Debug, Clone, PartialEq)]
pub enum Event {
    Info(String),
    Error(String),
    /// A download begins; the server announced this many bytes.
    DownloadStarted(usize),
    /// This many bytes have arrived so far.
    DownloadProgress(usize),
    DownloadFinished,
    DownloadFailed,
}

/// What an [`Event`] holds, as mathematical values.
pub enum EventView {
    Info(Seq<char>),
    Error(Seq<char>),
    DownloadStarted(nat),
    DownloadProgress(nat),
    DownloadFinished,
    DownloadFailed,
}

impl View for Event {
    type V = EventView;

    open spec fn view(&self) -> EventView {
        match self {
            Event::Info(text) => EventView::Info(text@),
            Event::Error(text) => EventView::Error(text@),
            Event::DownloadStarted(size) => EventView::DownloadStarted(*size as nat),
            Event::DownloadProgress(size) => EventView::DownloadProgress(*size as nat),
            Event::DownloadFinished => EventView::DownloadFinished,
            Event::DownloadFailed => EventView::DownloadFailed,
        }
    }
}

/// Counts the bytes of a download as its chunks arrive.
#[derive(Debug)]
pub struct Progress {
    downloaded_size: usize,
}

impl View for Progress {
    type V = nat;

    /// How many bytes have arrived.
    closed spec fn view(&self) -> nat {
        self.downloaded_size as nat
    }
}

impl Progress {
    /// The count before the first chunk, and the event that opens the
    /// download with the size that the server announced.
    pub fn start(size: usize) -> (r: (Progress, Event))
        ensures
            r.0@ == 0,
            r.1@ == EventView::DownloadStarted(size as nat),
    {
        (Progress { downloaded_size: 0 }, Event::DownloadStarted(size))
    }

    /// Counts a chunk of `len` bytes and reports the new total. The total
    /// must fit the machine's word.
    pub fn chunk(&mut self, len: usize) -> (event: Event)
        requires
            old(self)@ + len <= usize::MAX,
        ensures
            final(self)@ == old(self)@ + len,
            event@ == EventView::DownloadProgress(final(self)@),
    {
        self.downloaded_size = self.downloaded_size + len;
        Event::DownloadProgress(self.downloaded_size)
    }

    /// Whether a chunk of `len` bytes can still be counted.
    pub fn has_room(&self, len: usize) -> (room: bool)
        ensures
            room == (self@ + len <= usize::MAX),
    {
        len <= usize::MAX - self.downloaded_size
    }

    /// The event that closes the download.
    pub fn finish(self) -> (event: Event)
        ensures
            event@ == EventView::DownloadFinished,
    {
        Event::DownloadFinished
    }
}

} // verus!
