//! What a reader following a log file decides: where it starts, what it does
//! when it cannot seek, how it numbers the lines it reads and hands them on,
//! how long it waits when there is nothing new, and what is done about a file
//! before reading it.
use vstd::prelude::*;
use crate::pipeline::RawLine;

verus! {

/// Where a reader stands in its file: the byte offset it reads from next and
/// the number of lines it has read.
#[derive(Clone, Copy, Debug, PartialEq, Eq, Structural)]
pub struct TailState {
    pub position: u64,
    pub line_number: u64,
}

impl TailState {
    /// A reader at the end of a file of `file_len` bytes when it is to read
    /// from the end, else at its start; no line read yet.
    pub fn start(read_from_end: bool, file_len: u64) -> (r: TailState)
        ensures
            r.position == (if read_from_end { file_len } else { 0 }),
            r.line_number == 0,
    {
        TailState { position: if read_from_end { file_len } else { 0 }, line_number: 0 }
    }

    /// The reader could not seek to its position: it reads from the start
    /// again, and keeps numbering lines where it was.
    pub fn seek_failed(&mut self)
        ensures
            final(self).position == 0,
            final(self).line_number == old(self).line_number,
    {
        self.position = 0;
    }

    /// Whether a line of `bytes` bytes can be taken in without the position or
    /// the line count passing `u64::MAX`.
    pub open spec fn can_take(self, bytes: u64) -> bool {
        self.position + bytes <= u64::MAX && self.line_number < u64::MAX
    }

    /// Takes in a line of `bytes` bytes read from `file`: the position moves
    /// past it, and the line goes to the workers with the next number, counting
    /// from 1. `None`, with nothing changed, where the position or the count
    /// would pass `u64::MAX`.
    pub fn line_read(&mut self, file: &String, bytes: u64, text: String) -> (r: Option<RawLine>)
        ensures
            if old(self).can_take(bytes) {
                &&& final(self).position == old(self).position + bytes
                &&& final(self).line_number == old(self).line_number + 1
                &&& r matches Some(raw) && raw.file@ == file@
                    && raw.line_number == final(self).line_number && raw.text == text
            } else {
                &&& r is None
                &&& *final(self) == *old(self)
            },
    {
        if bytes > u64::MAX - self.position || self.line_number == u64::MAX {
            return None;
        }
        self.position = self.position + bytes;
        self.line_number = self.line_number + 1;
        Some(RawLine { file: file.clone(), line_number: self.line_number, text })
    }
}

/// The fewest milliseconds a reader waits between looks at a file.
pub open spec fn min_poll_ms() -> u64 {
    50
}

/// How long a reader waits after a look that found nothing new: the poll
/// interval, but no less than 50 ms.
pub fn poll_wait_ms(poll_interval_ms: u64) -> (r: u64)
    ensures
        r == (if poll_interval_ms < min_poll_ms() { min_poll_ms() } else { poll_interval_ms }),
{
    if poll_interval_ms < 50 {
        50
    } else {
        poll_interval_ms
    }
}

/// What a reader does after a look at its file: where the look read lines, it
/// looks again at once (`None`); where it read none, it waits the poll time
/// first, unless it is told to stop meanwhile.
pub fn after_look(read_any: bool, poll_interval_ms: u64) -> (r: Option<u64>)
    ensures
        r == (if read_any {
            None
        } else {
            Some(if poll_interval_ms < min_poll_ms() { min_poll_ms() } else { poll_interval_ms })
        }),
{
    if read_any {
        None
    } else {
        Some(poll_wait_ms(poll_interval_ms))
    }
}

/// How many events the event channel holds: as asked, but no fewer than 64.
pub fn event_capacity(buffer: usize) -> (r: usize)
    ensures
        r == (if buffer < 64 { 64 } else { buffer }),
{
    if buffer < 64 {
        64
    } else {
        buffer
    }
}

/// What is done about a log file before it is read.
#[derive(Clone, Copy, Debug, PartialEq, Eq, Structural)]
pub enum FilePreparation {
    /// The file exists: it is opened to see that it can be read.
    Open,
    /// The file does not exist yet: its folder is made and the file is created
    /// empty, and the reader then waits for lines to be written to it.
    Create,
    /// The file does not exist and its path names no folder: it is refused.
    Refuse,
}

/// What is done about a log file before it is read, given whether it exists
/// and whether its path names a folder it would be in.
pub fn prepare_file(exists: bool, has_parent: bool) -> (r: FilePreparation)
    ensures
        r == (if exists {
            FilePreparation::Open
        } else if has_parent {
            FilePreparation::Create
        } else {
            FilePreparation::Refuse
        }),
{
    if exists {
        FilePreparation::Open
    } else if has_parent {
        FilePreparation::Create
    } else {
        FilePreparation::Refuse
    }
}

} // verus!
