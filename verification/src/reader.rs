//! Pulling lines out of a stream.

use vstd::prelude::*;
use crate::text::{is_terminated, normalize_terminator, terminated};

verus! {

/// The error of a failed read, `std::io::Error`. The pager only tells a failed
/// read from a successful one and never looks inside.
#[verifier::external_type_specification]
#[verifier::external_body]
pub struct ExIoError(std::io::Error);

/// A stream that hands out one line at a time.
///
/// `read_line` blocks until a line is there, appends it to `buf` with whatever
/// terminator the stream uses, and returns the number of bytes it appended;
/// zero means that the stream has ended.
pub trait LineReader {
    /// Reads the next line into `buf`. Nothing is promised of a stream: what
    /// it delivers is for the caller to judge.
    fn read_line(&mut self, buf: &mut String) -> (r: std::io::Result<usize>);
}

/// The line that a read delivered, if it delivered one: a failed read and the
/// end of the stream deliver nothing.
pub open spec fn delivered(read: std::io::Result<usize>, raw: Seq<char>) -> Option<Seq<char>> {
    match read {
        Ok(n) => if n == 0 {
            None
        } else {
            Some(terminated(raw))
        },
        Err(_) => None,
    }
}

/// Turns the outcome of a read into the line to store. `raw` is what the read
/// left in its buffer. `None` tells the ingestion unit to stop.
pub fn accept_read(read: std::io::Result<usize>, raw: &str) -> (r: Option<String>)
    ensures
        r is Some == delivered(read, raw@) is Some,
        r matches Some(line) ==> delivered(read, raw@) == Some(line@),
{
    match read {
        Ok(n) => {
            if n == 0 {
                None
            } else {
                Some(normalize_terminator(raw))
            }
        },
        Err(_) => None,
    }
}

/// Reads the next line of a stream and rewrites its terminator. `None` means
/// that no further line will come: the stream has ended or failed.
pub fn next_line<R: LineReader>(reader: &mut R) -> (r: Option<String>)
    ensures
        r matches Some(line) ==> is_terminated(line@),
{
    let mut buf: String = String::new();
    let read = reader.read_line(&mut buf);
    accept_read(read, buf.as_str())
}

/// What a reader that follows a growing file does next.
#[derive(Clone, Copy, Debug, PartialEq, Eq, Structural)]
pub enum TailStep {
    /// Nothing new is in the file: wait until it is reported to have changed.
    Wait,
    /// Seek to this byte and read a line.
    ReadAt(u64),
}

/// The place in a growing file up to which it has been consumed.
pub struct TailCursor {
    offset: u64,
}

impl TailCursor {
    /// Number of bytes consumed so far.
    pub closed spec fn consumed(&self) -> nat {
        self.offset as nat
    }

    /// A cursor at the start of the file.
    pub fn new() -> (r: Self)
        ensures
            r.consumed() == 0,
    {
        TailCursor { offset: 0 }
    }

    /// The byte at which the next read starts.
    pub fn offset(&self) -> (r: u64)
        ensures
            r == self.consumed(),
    {
        self.offset
    }

    /// Decides between reading and waiting, given the present length of the
    /// file. The end of what is there is not the end of the stream: the reader
    /// waits, and reads on from where it stopped once the file has grown.
    pub fn next_step(&self, file_len: u64) -> (r: TailStep)
        ensures
            file_len <= self.consumed() ==> r == TailStep::Wait,
            file_len > self.consumed() ==> r == TailStep::ReadAt(self.consumed() as u64),
    {
        if file_len <= self.offset {
            TailStep::Wait
        } else {
            TailStep::ReadAt(self.offset)
        }
    }

    /// Records that a read consumed `n` bytes. The cursor only ever moves
    /// forward, so no byte is handed out twice.
    pub fn advance(&mut self, n: usize)
        ensures
            old(self).consumed() + n <= u64::MAX ==> final(self).consumed() == old(
                self,
            ).consumed() + n,
            old(self).consumed() + n > u64::MAX ==> final(self).consumed() == u64::MAX,
            final(self).consumed() >= old(self).consumed(),
    {
        let step: u64 = n as u64;
        if step <= u64::MAX - self.offset {
            self.offset = self.offset + step;
        } else {
            self.offset = u64::MAX;
        }
    }
}

} // verus!
