use vstd::prelude::*;

verus! {

/// Immutable configuration bundle for a log.
///
/// `block_size` and `pad_size` are alignments and must both be positive;
/// `buffer_size` is only a capacity hint for the in-memory write buffer and
/// is never an enforced limit.
#[derive(Debug, Clone, Copy)]
pub struct Options {
    /// Alignment, in bytes, that every trailer's end must land on.
    /// Default: 4096.
    pub block_size: usize,

    /// Initial capacity hint for the write buffer. Default: 1048576 (1 MiB).
    pub buffer_size: usize,

    /// Alignment, in bytes, that every entry's end must satisfy. Default: 8.
    pub pad_size: usize,

    /// 64-bit sentinel distinguishing a valid trailer from arbitrary bytes.
    /// Default: 0x3405_0d23_e85c_9e3a.
    pub magic: u64,
}

impl Options {
    /// Both alignments are positive.
    pub open spec fn wf(&self) -> bool {
        self.block_size > 0 && self.pad_size > 0
    }
}

impl Default for Options {
    fn default() -> (r: Options)
        ensures
            r.block_size == 4096,
            r.buffer_size == 1048576,
            r.pad_size == 8,
            r.magic == 0x3405_0d23_e85c_9e3au64,
            r.wf(),
    {
        Options {
            block_size: 4096,
            buffer_size: 1_048_576,
            pad_size: 8,
            magic: 0x3405_0d23_e85c_9e3au64,
        }
    }
}

} // verus!
