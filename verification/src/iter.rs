use vstd::prelude::*;

use crate::error::Error;
use crate::format::read_at;
use crate::log::{flush_spec, Log, LogView};

verus! {

/// A single-pass, forward-only sequential cursor over a [`Log`].
///
/// Construction takes the log over (flushing it first, so every buffered
/// entry is visible to reads) and holds it exclusively for the cursor's
/// whole lifetime; [`EntryIterator::into_log`] gives it back.  Stepping
/// yields each payload in append order until the cursor has moved past the
/// recovery anchor; a failed read is yielded as the terminal item.
pub struct EntryIterator {
    log: Log,
    offset: u64,
}

impl EntryIterator {
    /// The state of the underlying log.
    pub closed spec fn log_view(&self) -> LogView {
        self.log@
    }

    /// The absolute offset the next step will read at.
    pub closed spec fn cursor(&self) -> int {
        self.offset as int
    }

    /// Builds a replay cursor over `log`, positioned at offset 0, after
    /// forcing a flush so that in-memory entries become visible to reads.
    pub fn with_log(log: Log) -> (r: Result<EntryIterator, Error>)
        requires
            log@.wf(),
            log@.offset + log@.block_size + 16 <= u64::MAX,
        ensures
            r is Ok,
            (match r {
                Ok(it) => {
                    &&& it.log_view() == flush_spec(log@)
                    &&& it.log_view().wf()
                    &&& it.cursor() == 0
                },
                Err(_) => true,
            }),
    {
        let mut log = log;
        match log.flush() {
            Ok(()) => Ok(EntryIterator { log, offset: 0 }),
            Err(e) => Err(e),
        }
    }

    /// Hands the underlying log back, ending the replay.
    pub fn into_log(self) -> (r: Log)
        ensures
            r@ == self.log_view(),
    {
        self.log
    }

    /// One replay step.  While the cursor has not moved past the recovery
    /// anchor, reads at the cursor: on success yields the payload and
    /// advances the cursor to the entry's end; on failure yields the error
    /// and stays put, and the sequence is to be treated as terminated.
    /// Once the cursor is past the anchor, yields nothing ever after.
    pub fn next(&mut self) -> (r: Option<Result<Vec<u8>, Error>>)
        requires
            old(self).log_view().wf(),
            old(self).log_view().file.len() + old(self).log_view().pad_size <= u64::MAX,
        ensures
            final(self).log_view() == old(self).log_view(),
            old(self).cursor() > old(self).log_view().anchor ==> r is None
                && final(self).cursor() == old(self).cursor(),
            old(self).cursor() <= old(self).log_view().anchor ==> (match read_at(
                old(self).log_view().file,
                old(self).log_view().pad_size,
                old(self).cursor(),
            ) {
                Ok(p) => {
                    &&& r matches Some(Ok(d)) && d@ == p.0
                    &&& final(self).cursor() == p.1
                },
                Err(e) => {
                    &&& r == Some(Err::<Vec<u8>, Error>(e))
                    &&& final(self).cursor() == old(self).cursor()
                },
            }),
    {
        if self.offset > self.log.last_data_off() {
            return None;
        }

        match self.log.read(self.offset) {
            Ok(chunk) => {
                self.offset = chunk.next;
                Some(Ok(chunk.data))
            },
            Err(err) => Some(Err(err)),
        }
    }
}

} // verus!
