//! The data carried by a shard proof and its verifying key, and the errors
//! the verifier reports.
use vstd::prelude::*;
use vstd::string::StringExecFns;
use crate::field::Ext;
use crate::hashing::Digest;

verus! {

/// A multiplicative coset: a trace domain of size `2^log_n` with shift
/// `shift`. The polynomial-commitment capability interprets it.
#[derive(Debug, Clone, Copy, PartialEq, Eq, Structural)]
pub struct Domain {
    pub log_n: usize,
    pub shift: u64,
}

/// Declared dimensions of a chip's trace matrix.
#[derive(Debug, Clone, Copy, PartialEq, Eq, Structural)]
pub struct ChipDimensions {
    pub width: usize,
    pub height: usize,
}

/// One entry of a name-to-index mapping.
pub struct NameIndex {
    pub name: String,
    pub index: usize,
}

/// One entry of the verifying key's chip table.
pub struct ChipInfo {
    pub name: String,
    pub domain: Domain,
    pub shape: ChipDimensions,
}

/// The verifying key: the preprocessed commitment, the starting program
/// counter, and the chip table with its ordering.
pub struct StarkVerifyingKey {
    pub commit: Digest,
    pub pc_start: u64,
    pub chip_information: Vec<ChipInfo>,
    pub chip_ordering: Vec<NameIndex>,
}

/// Openings of one matrix at the evaluation point and its next point.
pub struct AirOpenedValues {
    pub local: Vec<Ext>,
    pub next: Vec<Ext>,
}

/// All openings claimed for one chip.
pub struct ChipOpenedValues {
    pub preprocessed: AirOpenedValues,
    pub main: AirOpenedValues,
    pub permutation: AirOpenedValues,
    pub quotient: Vec<Vec<Ext>>,
    pub cumulative_sum: Ext,
    pub log_degree: u32,
}

/// The per-chip openings of a shard proof.
pub struct ShardOpenedValues {
    pub chips: Vec<ChipOpenedValues>,
}

/// The three commitments of a shard proof.
pub struct ShardCommitment {
    pub main_commit: Digest,
    pub permutation_commit: Digest,
    pub quotient_commit: Digest,
}

/// The opaque opening proof consumed by the polynomial-commitment scheme.
pub struct OpeningProof {
    pub data: Vec<u64>,
}

/// A proof for one shard.
pub struct ShardProof {
    pub commitment: ShardCommitment,
    pub opened_values: ShardOpenedValues,
    pub opening_proof: OpeningProof,
    pub chip_ordering: Vec<NameIndex>,
    pub public_values: Vec<u64>,
}

/// Rejection by the polynomial-commitment scheme, opaque to the verifier.
#[derive(Debug, Clone, Copy, PartialEq, Eq, Structural)]
pub struct OpeningError;

/// The out-of-domain constraint identity failed for a chip.
#[derive(Debug, Clone, Copy, PartialEq, Eq, Structural)]
pub struct OodEvaluationMismatch;

/// The shape of a chip's openings does not match its declared widths; each
/// variant carries the expected and the supplied count.
#[derive(Debug, Clone, Copy, PartialEq, Eq, Structural)]
pub enum OpeningShapeError {
    PreprocessedWidthMismatch(usize, usize),
    MainWidthMismatch(usize, usize),
    PermutationWidthMismatch(usize, usize),
    QuotientWidthMismatch(usize, usize),
    QuotientChunkSizeMismatch(usize, usize),
}

/// Why a shard proof was rejected.
#[derive(Debug, PartialEq, Eq)]
pub enum VerificationError {
    /// The polynomial-commitment scheme rejected the opening proof.
    InvalidOpeningArgument(OpeningError),
    /// `constraints(zeta)` did not match `quotient(zeta) * Z_H(zeta)` for the
    /// named chip.
    OodEvaluationMismatch(String),
    /// The named chip's openings have the wrong shape.
    OpeningShapeError(String, OpeningShapeError),
    /// The cpu chip is missing from the shard.
    MissingCpuChip,
    /// The number of chips and the number of chip openings differ.
    ChipOpeningLengthMismatch,
}

impl OpeningShapeError {
    /// A short description of the mismatch; the expected and supplied counts
    /// are the variant's fields.
    pub fn message(&self) -> String {
        let s: &str = match self {
            OpeningShapeError::PreprocessedWidthMismatch(_, _) => "preprocessed width mismatch",
            OpeningShapeError::MainWidthMismatch(_, _) => "main width mismatch",
            OpeningShapeError::PermutationWidthMismatch(_, _) => "permutation width mismatch",
            OpeningShapeError::QuotientWidthMismatch(_, _) => "quotient width mismatch",
            OpeningShapeError::QuotientChunkSizeMismatch(_, _) => "quotient chunk size mismatch",
        };
        String::from_str(s)
    }
}

impl VerificationError {
    /// A short description of the rejection; the offending chip's name is
    /// the variant's field.
    pub fn message(&self) -> String {
        let s: &str = match self {
            VerificationError::InvalidOpeningArgument(_) => "invalid opening argument",
            VerificationError::OodEvaluationMismatch(_) => "out-of-domain evaluation mismatch",
            VerificationError::OpeningShapeError(_, _) => "invalid opening shape",
            VerificationError::MissingCpuChip => "missing cpu chip",
            VerificationError::ChipOpeningLengthMismatch => "chip opening length mismatch",
        };
        String::from_str(s)
    }
}

/// The index bound to `name` by the first matching entry.
pub open spec fn spec_lookup(entries: Seq<NameIndex>, name: Seq<char>) -> Option<int>
    decreases entries.len(),
{
    if entries.len() == 0 {
        Option::None
    } else if entries[0].name@ == name {
        Option::Some(entries[0].index as int)
    } else {
        spec_lookup(entries.subrange(1, entries.len() as int), name)
    }
}

/// Look a name up in an ordering table.
pub fn lookup_index(entries: &Vec<NameIndex>, name: &String) -> (r: Option<usize>)
    ensures
        (match r {
            Option::Some(i) => spec_lookup(entries@, name@) == Option::Some(i as int),
            Option::None => spec_lookup(entries@, name@) is None,
        }),
{
    let mut k: usize = 0;
    proof {
        assert(entries@.subrange(0, entries@.len() as int) =~= entries@);
    }
    while k < entries.len()
        invariant
            k <= entries@.len(),
            spec_lookup(entries@.subrange(k as int, entries@.len() as int), name@) == spec_lookup(
                entries@,
                name@,
            ),
        decreases entries@.len() - k,
    {
        let ghost rest: Seq<NameIndex> = entries@.subrange(k as int, entries@.len() as int);
        proof {
            assert(rest[0] == entries@[k as int]);
            assert(rest.subrange(1, rest.len() as int) =~= entries@.subrange(
                (k + 1) as int,
                entries@.len() as int,
            ));
        }
        if entries[k].name.eq(name) {
            return Option::Some(entries[k].index);
        }
        k += 1;
    }
    proof {
        assert(entries@.subrange(entries@.len() as int, entries@.len() as int)
            =~= Seq::<NameIndex>::empty());
    }
    Option::None
}

} // verus!
