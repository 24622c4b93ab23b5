//! Explicit configuration of a transfer: the chunk size of the copy loop and
//! the compression level of the encoder.

use vstd::prelude::*;

verus! {

/// The chunk size used when none is chosen: 8 KiB.
pub const DEFAULT_CHUNK_SIZE: usize = 8192;

/// The compression level used when none is chosen.
pub const DEFAULT_LEVEL: u32 = 6;

/// The highest compression level.
pub const MAX_LEVEL: u32 = 9;

/// A gzip compression level, from 0 (store) to 9 (smallest output).
#[derive(Clone, Copy, Debug)]
pub struct CompressionLevel {
    level: u32,
}

impl CompressionLevel {
    #[verifier::type_invariant]
    spec fn in_range(self) -> bool {
        self.level <= MAX_LEVEL
    }

    /// The level as a number.
    pub closed spec fn value(self) -> u32 {
        self.level
    }

    /// Accepts the levels 0 to 9 and rejects every other number.
    pub fn new(level: u32) -> (r: Option<CompressionLevel>)
        ensures
            level <= MAX_LEVEL ==> (r matches Some(l) && l.value() == level),
            level > MAX_LEVEL ==> r is None,
    {
        if level <= MAX_LEVEL {
            Some(CompressionLevel { level })
        } else {
            None
        }
    }

    /// The level as a number, which is at most 9.
    pub fn get(&self) -> (v: u32)
        ensures
            v == self.value(),
            v <= MAX_LEVEL,
    {
        proof {
            use_type_invariant(self);
        }
        self.level
    }
}

impl Default for CompressionLevel {
    /// Level 6.
    fn default() -> (r: CompressionLevel)
        ensures
            r.value() == DEFAULT_LEVEL,
    {
        CompressionLevel { level: DEFAULT_LEVEL }
    }
}

/// How the copy loop runs: how many bytes it moves per step, and whether it
/// reports progress after each of them.
#[derive(Clone, Copy, Debug)]
pub struct TransferConfig {
    chunk_size: usize,
    report_progress: bool,
}

impl TransferConfig {
    #[verifier::type_invariant]
    spec fn chunk_is_positive(self) -> bool {
        self.chunk_size >= 1
    }

    /// The largest number of bytes moved in one step.
    pub closed spec fn chunk(self) -> usize {
        self.chunk_size
    }

    /// Whether progress is reported after each step.
    pub closed spec fn reports(self) -> bool {
        self.report_progress
    }

    /// A configuration with the given chunk size. A chunk size of zero is
    /// rejected: a copy loop that asks for no bytes would see every source
    /// as empty.
    pub fn new(chunk_size: usize, report_progress: bool) -> (r: Option<TransferConfig>)
        ensures
            chunk_size >= 1 ==> (r matches Some(c) && c.chunk() == chunk_size && c.reports()
                == report_progress),
            chunk_size == 0 ==> r is None,
    {
        if chunk_size >= 1 {
            Some(TransferConfig { chunk_size, report_progress })
        } else {
            None
        }
    }

    /// The largest number of bytes moved in one step, which is at least one.
    pub fn chunk_size(&self) -> (n: usize)
        ensures
            n == self.chunk(),
            n >= 1,
    {
        proof {
            use_type_invariant(self);
        }
        self.chunk_size
    }

    /// Whether progress is reported after each step.
    pub fn report_progress(&self) -> (b: bool)
        ensures
            b == self.reports(),
    {
        self.report_progress
    }
}

impl Default for TransferConfig {
    /// Chunks of 8 KiB, with progress reports.
    fn default() -> (r: TransferConfig)
        ensures
            r.chunk() == DEFAULT_CHUNK_SIZE,
            r.reports(),
    {
        TransferConfig { chunk_size: DEFAULT_CHUNK_SIZE, report_progress: true }
    }
}

} // verus!
