//! One step of reading a child's output without blocking.
//!
//! A driver reads from the stream, which is in non-blocking mode, and hands
//! each outcome to [`non_blocking_line_reading`]. It passes the lines that
//! come back to whoever wants them and goes on reading while the status is
//! [`ReadStatus::Continue`].
use crate::lines::{complete_lines, lines_view, pending_fragment, OutputBuffer};
use crate::text::{line_text, lossy_text, texts};
use vstd::prelude::*;

verus! {

/// What one read of the stream came back with.
#[derive(Debug, Clone, PartialEq, Eq)]
pub enum ReadOutcome {
    /// These bytes were available.
    Data(Vec<u8>),
    /// The stream has ended.
    EndOfData,
    /// Nothing is available now; more may come later.
    WouldBlock,
    /// The read failed for another reason.
    Failed,
}

/// Whether to read again.
#[derive(Debug, Clone, Copy, PartialEq, Eq, Structural)]
pub enum ReadStatus {
    /// More may be available: read again now.
    Continue,
    /// Nothing more is available for now: this round of reading ends
    /// cleanly.
    Done,
    /// The read failed: the pending output is dropped and the error is to
    /// be reported.
    Failed,
}

/// What follows one read: the lines that it completed, and whether to read
/// again.
#[derive(Debug, Clone, PartialEq, Eq)]
pub struct ReadStep {
    pub lines: Vec<String>,
    pub status: ReadStatus,
}

/// The text of each line.
pub open spec fn line_texts(lines: Seq<Seq<u8>>) -> Seq<Seq<char>> {
    lines.map_values(|line: Seq<u8>| line_text(line))
}

/// The bytes that a buffer holding `held` hands out as lines after a read.
pub open spec fn lines_after(held: Seq<u8>, outcome: ReadOutcome) -> Seq<Seq<u8>> {
    match outcome {
        ReadOutcome::Data(chunk) => complete_lines(held + chunk@),
        _ => Seq::empty(),
    }
}

/// What a buffer holding `held` holds after a read.
pub open spec fn held_after(held: Seq<u8>, outcome: ReadOutcome) -> Seq<u8> {
    match outcome {
        ReadOutcome::Data(chunk) => pending_fragment(held + chunk@),
        ReadOutcome::EndOfData => held,
        ReadOutcome::WouldBlock => held,
        ReadOutcome::Failed => Seq::empty(),
    }
}

/// Whether to read again after a read.
pub open spec fn status_after(outcome: ReadOutcome) -> ReadStatus {
    match outcome {
        ReadOutcome::Data(_) => ReadStatus::Continue,
        ReadOutcome::EndOfData => ReadStatus::Done,
        ReadOutcome::WouldBlock => ReadStatus::Done,
        ReadOutcome::Failed => ReadStatus::Failed,
    }
}

/// The texts of the lines, in order.
fn read_texts(lines: &Vec<Vec<u8>>) -> (read: Vec<String>)
    ensures
        texts(read@) == line_texts(lines_view(lines@)),
{
    let mut read: Vec<String> = Vec::new();
    let mut i: usize = 0;
    while i < lines.len()
        invariant
            i <= lines.len(),
            read@.len() == i,
            forall|j: int| 0 <= j < i ==> (#[trigger] read@[j])@ == line_text(lines@[j]@),
        decreases lines.len() - i,
    {
        read.push(lossy_text(lines[i].as_slice()));
        i += 1;
    }
    assert(texts(read@) =~= line_texts(lines_view(lines@)));
    read
}

/// Takes the outcome of one non-blocking read.
///
/// * Bytes are added to the pending output. Every line that they complete
///   is handed out, in order, as text and without its line feed, and leaves
///   the buffer; what follows the last line feed stays pending. The driver
///   reads again.
/// * At the end of the stream, or when nothing is available, nothing is
///   handed out and the pending output stays as it is, to be completed by
///   a later read. This round of reading is over, and that is no error.
/// * After a failed read the pending output is dropped, and the failure is
///   reported.
///
/// A line that is valid UTF-8 is handed out as the text that it encodes;
/// in any other line, U+FFFD stands for what could not be decoded.
pub fn non_blocking_line_reading(buffer: &mut OutputBuffer, outcome: &ReadOutcome) -> (step:
    ReadStep)
    ensures
        texts(step.lines@) == line_texts(lines_after(old(buffer)@, *outcome)),
        final(buffer)@ == held_after(old(buffer)@, *outcome),
        step.status == status_after(*outcome),
{
    match outcome {
        ReadOutcome::Data(chunk) => {
            let lines = buffer.take_lines(chunk.as_slice());
            let read = read_texts(&lines);
            ReadStep { lines: read, status: ReadStatus::Continue }
        },
        ReadOutcome::EndOfData => {
            let read: Vec<String> = Vec::new();
            assert(texts(read@) =~= line_texts(lines_after(old(buffer)@, *outcome)));
            ReadStep { lines: read, status: ReadStatus::Done }
        },
        ReadOutcome::WouldBlock => {
            let read: Vec<String> = Vec::new();
            assert(texts(read@) =~= line_texts(lines_after(old(buffer)@, *outcome)));
            ReadStep { lines: read, status: ReadStatus::Done }
        },
        ReadOutcome::Failed => {
            buffer.clear();
            let read: Vec<String> = Vec::new();
            assert(texts(read@) =~= line_texts(lines_after(old(buffer)@, *outcome)));
            ReadStep { lines: read, status: ReadStatus::Failed }
        },
    }
}

} // verus!
