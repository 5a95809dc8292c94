//! Preprocessed column layouts of the permutation-hash chip: plain data
//! describing the wire shape of its trace, fixed at the proof-data boundary.
use vstd::prelude::*;

verus! {

/// Number of lanes of the permutation state.
pub const WIDTH: usize = 16;

/// Per-row round bookkeeping: which kind of round is active, and the round
/// constants fed to the permutation.
#[derive(Clone, Copy, Debug)]
pub struct RoundCountersPreprocessedCols<T: Copy> {
    pub is_external_round: T,
    pub is_internal_round: T,
    pub is_first_round: T,
    pub round_constants: [T; WIDTH],
}

/// Preprocessed memory columns of one lane: the address it touches and its
/// read and write multiplicities.
#[derive(Clone, Copy, Debug)]
pub struct MemoryPreprocessedCols<T: Copy> {
    pub addr: T,
    pub read_mult: T,
    pub write_mult: T,
}

/// The full preprocessed layout: one memory column set per lane, plus the
/// round counters.
#[derive(Clone, Copy, Debug)]
pub struct Poseidon2PreprocessedCols<T: Copy> {
    pub memory_preprocessed: [MemoryPreprocessedCols<T>; WIDTH],
    pub round_counters_preprocessed: RoundCountersPreprocessedCols<T>,
}

} // verus!
