use vstd::prelude::*;

use crate::error::Error;
use crate::format::{
    crc32, entry_bytes, entry_size, lemma_pad_len, pad_len, push_bytes, push_u32_be, push_u64_be,
    push_zeros, read_at, read_u32_be, read_u64_be, u64_be_bytes, u64_from_be, zeros,
};
use crate::iter::EntryIterator;
use crate::options::Options;

verus! {

/// The mathematical state of a [`Log`]: the durable container bytes, the
/// pending write buffer, the write cursor, the recovery anchor, and the
/// format parameters drawn from its [`Options`].
#[verifier::ext_equal]
pub struct LogView {
    /// The durable container bytes, as the host layer would persist them.
    pub file: Seq<u8>,
    /// Entries buffered in memory and not yet moved to the container.
    pub buffer: Seq<u8>,
    /// Absolute byte position of the next write.
    pub offset: int,
    /// Absolute offset of the most recently appended entry's header.
    pub anchor: int,
    /// Alignment that every trailer's end must land on.
    pub block_size: int,
    /// Alignment that every entry's end must satisfy.
    pub pad_size: int,
    /// The trailer sentinel.
    pub magic: u64,
}

impl LogView {
    /// Structural soundness of a log state: positive alignments, a write
    /// cursor that sits exactly past the container plus the buffer, and a
    /// block-aligned container.
    pub open spec fn wf(&self) -> bool {
        &&& self.block_size > 0
        &&& self.pad_size > 0
        &&& self.offset == self.file.len() + self.buffer.len()
        &&& self.file.len() as int % self.block_size == 0
        &&& 0 <= self.anchor <= u64::MAX
        &&& self.offset <= u64::MAX
    }
}

/// The state after buffering one entry with payload `data`: the encoded
/// entry joins the write buffer, the cursor advances past it, and the
/// anchor moves to the entry's header offset.
pub open spec fn append_spec(v: LogView, data: Seq<u8>) -> LogView {
    LogView {
        buffer: v.buffer + entry_bytes(data, v.offset, v.pad_size),
        offset: v.offset + entry_size(data.len() as int, v.offset, v.pad_size),
        anchor: v.offset,
        ..v
    }
}

/// The state after a flush: nothing changes for an empty buffer; otherwise
/// the buffer, zero padding that carries the trailer's end to a block
/// boundary, and the 16-byte trailer (anchor, then magic, both big-endian)
/// all move to the container.
pub open spec fn flush_spec(v: LogView) -> LogView {
    if v.buffer.len() == 0 {
        v
    } else {
        let pad = pad_len(v.offset + 16, v.block_size);
        LogView {
            file: v.file + v.buffer + zeros(pad) + u64_be_bytes(v.anchor as u64)
                + u64_be_bytes(v.magic),
            buffer: Seq::empty(),
            offset: v.offset + pad + 16,
            ..v
        }
    }
}

/// The state in which `open` yields a log over `contents`, or the error it
/// fails with: an empty container is a fresh log; a container whose size is
/// not block-aligned is refused; otherwise the final 16 bytes must be a
/// trailer carrying the configured magic, and its stored offset becomes the
/// recovery anchor.
pub open spec fn open_spec(contents: Seq<u8>, block_size: int, pad_size: int, magic: u64) -> Result<
    LogView,
    Error,
> {
    if contents.len() == 0 {
        Ok(
            LogView {
                file: contents,
                buffer: Seq::empty(),
                offset: 0,
                anchor: 0,
                block_size,
                pad_size,
                magic,
            },
        )
    } else if contents.len() as int % block_size != 0 {
        Err(Error::InvalidLength)
    } else if contents.len() < 16 {
        Err(Error::IO)
    } else if u64_from_be(contents.subrange(contents.len() - 8, contents.len() as int)) != magic {
        Err(Error::InvalidMagic)
    } else {
        Ok(
            LogView {
                file: contents,
                buffer: Seq::empty(),
                offset: contents.len() as int,
                anchor: u64_from_be(
                    contents.subrange(contents.len() - 16, contents.len() - 8),
                ) as int,
                block_size,
                pad_size,
                magic,
            },
        )
    }
}

/// The append-only log engine: the durable container bytes, an in-memory
/// write buffer, the write cursor, and the recovery anchor.
#[derive(Debug)]
pub struct Log {
    options: Options,
    file: Vec<u8>,
    buffer: Vec<u8>,
    offset: u64,
    last_data_off: u64,
}

/// A payload returned by a read, together with the absolute offset to
/// continue reading from.
#[derive(Debug)]
pub struct Chunk {
    /// The checksum-validated payload bytes.
    pub data: Vec<u8>,
    /// The offset of the next entry's header.
    pub next: u64,
}

impl View for Log {
    type V = LogView;

    closed spec fn view(&self) -> LogView {
        LogView {
            file: self.file@,
            buffer: self.buffer@,
            offset: self.offset as int,
            anchor: self.last_data_off as int,
            block_size: self.options.block_size as int,
            pad_size: self.options.pad_size as int,
            magic: self.options.magic,
        }
    }
}

impl Log {
    /// Opens a log over `contents` with the default options.
    pub fn open_default(contents: Vec<u8>) -> (r: Result<Log, Error>)
        ensures
            (match r {
                Ok(log) => {
                    &&& open_spec(contents@, 4096, 8, 0x3405_0d23_e85c_9e3au64) == Ok::<
                        LogView,
                        Error,
                    >(log@)
                    &&& log@.wf()
                },
                Err(e) => open_spec(contents@, 4096, 8, 0x3405_0d23_e85c_9e3au64) == Err::<
                    LogView,
                    Error,
                >(e),
            }),
    {
        Self::open(contents, Options::default())
    }

    /// Opens a log over the container bytes `contents`, validating them as
    /// the recovery protocol demands.  The host layer supplies the bytes it
    /// read from durable storage, or an empty vector for a fresh log.
    pub fn open(contents: Vec<u8>, options: Options) -> (r: Result<Log, Error>)
        requires
            options.wf(),
        ensures
            (match r {
                Ok(log) => {
                    &&& open_spec(
                        contents@,
                        options.block_size as int,
                        options.pad_size as int,
                        options.magic,
                    ) == Ok::<LogView, Error>(log@)
                    &&& log@.wf()
                },
                Err(e) => open_spec(
                    contents@,
                    options.block_size as int,
                    options.pad_size as int,
                    options.magic,
                ) == Err::<LogView, Error>(e),
            }),
    {
        let buffer: Vec<u8> = Vec::with_capacity(options.buffer_size);
        let mut log = Log { options, file: contents, buffer, offset: 0, last_data_off: 0 };
        match log.init() {
            Ok(()) => Ok(log),
            Err(e) => Err(e),
        }
    }

    /// The recovery check performed at open time: accept an empty container
    /// as a fresh log, refuse a size that is not block-aligned, and demand
    /// that the container end in a trailer carrying the configured magic.
    fn init(&mut self) -> (r: Result<(), Error>)
        requires
            old(self)@.buffer.len() == 0,
            old(self)@.offset == 0,
            old(self)@.anchor == 0,
            old(self)@.block_size > 0,
            old(self)@.pad_size > 0,
        ensures
            (match r {
                Ok(()) => {
                    &&& open_spec(
                        old(self)@.file,
                        old(self)@.block_size,
                        old(self)@.pad_size,
                        old(self)@.magic,
                    ) == Ok::<LogView, Error>(final(self)@)
                    &&& final(self)@.wf()
                },
                Err(e) => open_spec(
                    old(self)@.file,
                    old(self)@.block_size,
                    old(self)@.pad_size,
                    old(self)@.magic,
                ) == Err::<LogView, Error>(e),
            }),
    {
        let len = self.file.len();
        self.offset = len as u64;

        if len == 0 {
            proof {
                assert(self@ =~= LogView {
                    file: old(self)@.file,
                    buffer: Seq::empty(),
                    offset: 0,
                    anchor: 0,
                    block_size: old(self)@.block_size,
                    pad_size: old(self)@.pad_size,
                    magic: old(self)@.magic,
                });
            }
            return Ok(());
        }

        if len % self.options.block_size != 0 {
            return Err(Error::InvalidLength);
        }

        if len < 16 {
            return Err(Error::IO);
        }

        let stored_anchor = read_u64_be(&self.file, len - 16);
        let stored_magic = read_u64_be(&self.file, len - 8);

        if stored_magic != self.options.magic {
            return Err(Error::InvalidMagic);
        }

        self.last_data_off = stored_anchor;

        proof {
            assert(self@ =~= LogView {
                file: old(self)@.file,
                buffer: Seq::empty(),
                offset: old(self)@.file.len() as int,
                anchor: u64_from_be(
                    old(self)@.file.subrange(
                        old(self)@.file.len() - 16,
                        old(self)@.file.len() - 8,
                    ),
                ) as int,
                block_size: old(self)@.block_size,
                pad_size: old(self)@.pad_size,
                magic: old(self)@.magic,
            });
        }
        Ok(())
    }

    /// The current recovery anchor: the absolute offset of the most recently
    /// appended entry's header, 0 for an empty log.
    pub fn last_data_off(&self) -> (r: u64)
        ensures
            r as int == self@.anchor,
    {
        self.last_data_off
    }

    /// Reserved extension point for scan-and-truncate repair; always refuses.
    pub fn repair(&self) -> (r: Result<(), Error>)
        ensures
            r == Err::<(), Error>(Error::NotImplemented),
    {
        Err(Error::NotImplemented)
    }

    /// The durable container bytes, for the host layer to persist or reload.
    pub fn storage(&self) -> (r: &Vec<u8>)
        ensures
            r@ == self@.file,
    {
        &self.file
    }

    /// The write cursor: the absolute byte position of the next write.
    pub fn offset(&self) -> (r: u64)
        ensures
            r as int == self@.offset,
    {
        self.offset
    }

    /// The configuration this log was opened with.
    pub fn options(&self) -> (r: &Options)
        ensures
            r.block_size as int == self@.block_size,
            r.pad_size as int == self@.pad_size,
            r.magic == self@.magic,
    {
        &self.options
    }

    /// Buffers one entry holding `data` and returns the absolute offset of
    /// its header: the identifier under which the entry can be read back
    /// once flushed.  Pure in-memory buffering; it cannot fail.
    pub fn append(&mut self, data: &[u8]) -> (r: u64)
        requires
            old(self)@.wf(),
            old(self)@.offset + 12 + data@.len() + old(self)@.pad_size <= u64::MAX,
        ensures
            final(self)@ == append_spec(old(self)@, data@),
            final(self)@.wf(),
            r as int == old(self)@.offset,
    {
        self.last_data_off = self.offset;

        push_u64_be(&mut self.buffer, data.len() as u64);
        self.offset = self.offset + 8;

        let checksum = crc32(data);
        push_u32_be(&mut self.buffer, checksum);
        self.offset = self.offset + 4;

        push_bytes(&mut self.buffer, data);
        self.offset = self.offset + data.len() as u64;

        let pad_size = self.options.pad_size as u64;
        let pad = pad_size - (self.offset % pad_size);
        push_zeros(&mut self.buffer, pad as usize);
        self.offset = self.offset + pad;

        proof {
            lemma_pad_len(old(self)@.offset + 12 + data@.len(), old(self)@.pad_size);
            assert(self@ =~= append_spec(old(self)@, data@));
        }
        self.last_data_off
    }

    /// Reads the entry whose header sits at absolute offset `off` in the
    /// durable container.  Returns the checksum-validated payload and the
    /// offset to continue from, or the error that [`read_at`] assigns to
    /// these container bytes at this offset.  Entries still in the write
    /// buffer are not visible; flush first.
    pub fn read(&self, off: u64) -> (r: Result<Chunk, Error>)
        requires
            self@.wf(),
            self@.file.len() + self@.pad_size <= u64::MAX,
        ensures
            (match r {
                Ok(c) => read_at(self@.file, self@.pad_size, off as int) == Ok::<
                    (Seq<u8>, int),
                    Error,
                >((c.data@, c.next as int)),
                Err(e) => read_at(self@.file, self@.pad_size, off as int) == Err::<
                    (Seq<u8>, int),
                    Error,
                >(e),
            }),
    {
        let file_len = self.file.len() as u64;
        if off > u64::MAX - 12 || off + 12 > file_len {
            return Err(Error::IO);
        }
        let off_us = off as usize;

        let len = read_u64_be(&self.file, off_us);
        if len > file_len - off - 12 {
            return Err(Error::IO);
        }
        let stored = read_u32_be(&self.file, off_us + 8);

        let len_us = len as usize;
        let start = off_us + 12;
        let mut data: Vec<u8> = Vec::new();
        let mut i: usize = 0;
        while i < len_us
            invariant
                i <= len_us,
                start + len_us <= self@.file.len(),
                self@.file.len() <= usize::MAX,
                data@ == self@.file.subrange(start as int, start as int + i as int),
            decreases len_us - i,
        {
            data.push(self.file[start + i]);
            i = i + 1;
            proof {
                assert(data@ =~= self@.file.subrange(start as int, start as int + i as int));
            }
        }

        let checksum = crc32(data.as_slice());
        if checksum != stored {
            return Err(Error::InvalidChecksum);
        }

        let base = off + 12 + len;
        let pad_size = self.options.pad_size as u64;
        let next = base + (pad_size - (base % pad_size));
        Ok(Chunk { data, next })
    }

    /// Moves every buffered entry into the durable container, padded with
    /// zeros so that the 16-byte trailer that follows them ends on a block
    /// boundary.  A flush of an empty buffer changes nothing.  Afterwards
    /// the host layer persists the container bytes.
    pub fn flush(&mut self) -> (r: Result<(), Error>)
        requires
            old(self)@.wf(),
            old(self)@.offset + old(self)@.block_size + 16 <= u64::MAX,
        ensures
            r == Ok::<(), Error>(()),
            final(self)@ == flush_spec(old(self)@),
            final(self)@.wf(),
    {
        if self.buffer.is_empty() {
            return Ok(());
        }

        let block_size = self.options.block_size as u64;
        let pad = block_size - ((self.offset + 16) % block_size);
        push_zeros(&mut self.buffer, pad as usize);
        self.offset = self.offset + pad;

        push_u64_be(&mut self.buffer, self.last_data_off);
        self.offset = self.offset + 8;

        push_u64_be(&mut self.buffer, self.options.magic);
        self.offset = self.offset + 8;

        self.file.append(&mut self.buffer);

        proof {
            lemma_pad_len(old(self)@.offset + 16, old(self)@.block_size);
            assert(self@ =~= flush_spec(old(self)@));
        }
        Ok(())
    }

    /// Turns the log into a sequential replay cursor over its entries,
    /// flushing first so that every buffered entry is visible to reads.
    pub fn iter(self) -> (r: Result<EntryIterator, Error>)
        requires
            self@.wf(),
            self@.offset + self@.block_size + 16 <= u64::MAX,
        ensures
            r is Ok,
            (match r {
                Ok(it) => {
                    &&& it.log_view() == flush_spec(self@)
                    &&& it.log_view().wf()
                    &&& it.cursor() == 0
                },
                Err(_) => true,
            }),
    {
        EntryIterator::with_log(self)
    }
}

} // verus!
