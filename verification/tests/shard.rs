use stark_verifier::challenger::DuplexChallenger;
use stark_verifier::field::FieldConfig;
use stark_verifier::pcs::Pcs;
use stark_verifier::sample::{SampleChip, SamplePcs, SmallConfig};
use stark_verifier::shard_verifier::Verifier;
use stark_verifier::types::{
    AirOpenedValues, ChipDimensions, ChipInfo, ChipOpenedValues, Domain, NameIndex, OpeningProof,
    OpeningShapeError, ShardCommitment, ShardOpenedValues, ShardProof, StarkVerifyingKey,
    VerificationError,
};

fn ext(v: u64) -> Vec<u64> {
    vec![v % 257; 4]
}

fn digest(seed: u64) -> Vec<u64> {
    (0..8).map(|i| (seed * 31 + i * 7 + 1) % 257).collect()
}

fn cpu_chip(constrained: bool) -> SampleChip {
    SampleChip {
        chip_name: String::from("cpu"),
        preprocessed_w: 0,
        main_w: 1,
        perm_w: 0,
        log_qd: 0,
        constrained,
    }
}

fn empty_air() -> AirOpenedValues {
    AirOpenedValues { local: vec![], next: vec![] }
}

fn opening_with(m0: u64, quotient_chunk: Vec<Vec<u64>>) -> ChipOpenedValues {
    ChipOpenedValues {
        preprocessed: empty_air(),
        main: AirOpenedValues { local: vec![ext(m0)], next: vec![ext(m0 + 1)] },
        permutation: empty_air(),
        quotient: vec![quotient_chunk],
        cumulative_sum: ext(0),
        log_degree: 3,
    }
}

fn sample_vk() -> StarkVerifyingKey {
    StarkVerifyingKey {
        commit: digest(1),
        pc_start: 0,
        chip_information: vec![],
        chip_ordering: vec![],
    }
}

fn challenger_after_main(fc: &SmallConfig, main_commit: &Vec<u64>) -> DuplexChallenger {
    let mut c = DuplexChallenger::new(fc);
    c.observe_digest(fc, main_commit);
    c
}

/// Build a proof that verifies: derive the challenges the verifier will
/// derive, evaluate the constraint, and pick the quotient opening that makes
/// the out-of-domain identity hold.
fn valid_proof(public_value: u64) -> (StarkVerifyingKey, Vec<SampleChip>, ShardProof) {
    let fc = SmallConfig;
    let pcs = SamplePcs;
    let vk = sample_vk();
    let chip = cpu_chip(true);
    let main_commit = digest(2);
    let perm_commit = digest(3);
    let quotient_commit = digest(4);

    // replay the transcript to learn alpha and zeta
    let mut c = challenger_after_main(&fc, &main_commit);
    let pc1 = c.sample_ext_element(&fc);
    let pc2 = c.sample_ext_element(&fc);
    c.observe_digest(&fc, &perm_commit);
    let alpha = c.sample_ext_element(&fc);
    c.observe_digest(&fc, &quotient_commit);
    let zeta = c.sample_ext_element(&fc);
    let perm_challenges = vec![pc1, pc2];

    // evaluate the folded constraints at zeta
    let td = pcs.natural_domain_for_degree(1 << 3);
    let sels = pcs.selectors_at_point(&fc, &td, &zeta);
    let placeholder = opening_with(7, vec![ext(0), ext(0), ext(0), ext(0)]);
    let public_values = vec![public_value];
    let folded = Verifier::eval_constraints(
        &fc,
        &chip,
        &placeholder,
        &sels,
        &alpha,
        &perm_challenges,
        &public_values,
    );
    let target = fc.mul(&folded, &sels.inv_zeroifier);

    // one quotient chunk whose monomial recombination equals the target
    let chunk: Vec<Vec<u64>> = (0..4).map(|e| ext(target[e])).collect();
    let opening = opening_with(7, chunk);

    let checksum = pcs.digests_checksum(&vec![
        vk.commit.clone(),
        main_commit.clone(),
        perm_commit.clone(),
        quotient_commit.clone(),
    ]);
    let proof = ShardProof {
        commitment: ShardCommitment {
            main_commit,
            permutation_commit: perm_commit,
            quotient_commit,
        },
        opened_values: ShardOpenedValues { chips: vec![opening] },
        opening_proof: OpeningProof { data: vec![checksum] },
        chip_ordering: vec![],
        public_values,
    };
    (vk, vec![chip], proof)
}

#[test]
fn valid_shard_accepted() {
    let fc = SmallConfig;
    let pcs = SamplePcs;
    let (vk, chips, proof) = valid_proof(3);
    let mut challenger = challenger_after_main(&fc, &proof.commitment.main_commit);
    let r = Verifier::verify_shard(&fc, &pcs, &vk, &chips, &mut challenger, &proof);
    assert_eq!(r, Ok(()));
}

#[test]
fn tampered_public_value_rejected() {
    let fc = SmallConfig;
    let pcs = SamplePcs;
    let (vk, chips, mut proof) = valid_proof(3);
    proof.public_values[0] = 4;
    let mut challenger = challenger_after_main(&fc, &proof.commitment.main_commit);
    let r = Verifier::verify_shard(&fc, &pcs, &vk, &chips, &mut challenger, &proof);
    assert_eq!(
        r,
        Err(VerificationError::OodEvaluationMismatch(String::from("cpu")))
    );
}

#[test]
fn tampered_observed_commitment_rejected() {
    let fc = SmallConfig;
    let pcs = SamplePcs;
    let (vk, chips, mut proof) = valid_proof(3);
    // flip one element of the permutation commitment and fix the checksum so
    // the commitment scheme still accepts: the derived challenges change and
    // the out-of-domain identity no longer holds
    proof.commitment.permutation_commit[0] ^= 1;
    let checksum = pcs.digests_checksum(&vec![
        vk.commit.clone(),
        proof.commitment.main_commit.clone(),
        proof.commitment.permutation_commit.clone(),
        proof.commitment.quotient_commit.clone(),
    ]);
    proof.opening_proof.data = vec![checksum];
    let mut challenger = challenger_after_main(&fc, &proof.commitment.main_commit);
    let r = Verifier::verify_shard(&fc, &pcs, &vk, &chips, &mut challenger, &proof);
    assert!(matches!(r, Err(VerificationError::OodEvaluationMismatch(_))));
}

#[test]
fn invalid_opening_proof_rejected() {
    let fc = SmallConfig;
    let pcs = SamplePcs;
    let (vk, chips, mut proof) = valid_proof(3);
    proof.opening_proof.data[0] = (proof.opening_proof.data[0] + 1) % 257;
    let mut challenger = challenger_after_main(&fc, &proof.commitment.main_commit);
    let r = Verifier::verify_shard(&fc, &pcs, &vk, &chips, &mut challenger, &proof);
    assert!(matches!(r, Err(VerificationError::InvalidOpeningArgument(_))));
}

#[test]
fn chip_count_mismatch_rejected() {
    let fc = SmallConfig;
    let pcs = SamplePcs;
    let vk = sample_vk();
    let chips = vec![cpu_chip(false), cpu_chip(false), cpu_chip(false)];
    let opening_a = opening_with(1, vec![ext(0), ext(0), ext(0), ext(0)]);
    let opening_b = opening_with(2, vec![ext(0), ext(0), ext(0), ext(0)]);
    let proof = ShardProof {
        commitment: ShardCommitment {
            main_commit: digest(2),
            permutation_commit: digest(3),
            quotient_commit: digest(4),
        },
        opened_values: ShardOpenedValues { chips: vec![opening_a, opening_b] },
        opening_proof: OpeningProof { data: vec![0] },
        chip_ordering: vec![],
        public_values: vec![],
    };
    let mut challenger = challenger_after_main(&fc, &proof.commitment.main_commit);
    let r = Verifier::verify_shard(&fc, &pcs, &vk, &chips, &mut challenger, &proof);
    assert_eq!(r, Err(VerificationError::ChipOpeningLengthMismatch));
}

#[test]
fn main_width_mismatch_rejected() {
    let fc = SmallConfig;
    let pcs = SamplePcs;
    let vk = sample_vk();
    let mut chip = cpu_chip(false);
    chip.main_w = 7;
    let chips = vec![chip];
    // the opening supplies six main columns where the chip declares seven
    let opening = ChipOpenedValues {
        preprocessed: empty_air(),
        main: AirOpenedValues {
            local: (0..6).map(|i| ext(i)).collect(),
            next: (0..6).map(|i| ext(i + 10)).collect(),
        },
        permutation: empty_air(),
        quotient: vec![vec![ext(0), ext(0), ext(0), ext(0)]],
        cumulative_sum: ext(0),
        log_degree: 3,
    };
    let proof = ShardProof {
        commitment: ShardCommitment {
            main_commit: digest(2),
            permutation_commit: digest(3),
            quotient_commit: digest(4),
        },
        opened_values: ShardOpenedValues { chips: vec![opening] },
        opening_proof: OpeningProof { data: vec![0] },
        chip_ordering: vec![],
        public_values: vec![],
    };
    let mut challenger = challenger_after_main(&fc, &proof.commitment.main_commit);
    let r = Verifier::verify_shard(&fc, &pcs, &vk, &chips, &mut challenger, &proof);
    assert_eq!(
        r,
        Err(VerificationError::OpeningShapeError(
            String::from("cpu"),
            OpeningShapeError::MainWidthMismatch(7, 6)
        ))
    );
}

#[test]
fn quotient_chunk_arity_mismatch_rejected() {
    let fc = SmallConfig;
    let pcs = SamplePcs;
    let vk = sample_vk();
    let chips = vec![cpu_chip(false)];
    // the chunk supplies three coefficients where the extension degree is four
    let opening = opening_with(5, vec![ext(0), ext(0), ext(0)]);
    let proof = ShardProof {
        commitment: ShardCommitment {
            main_commit: digest(2),
            permutation_commit: digest(3),
            quotient_commit: digest(4),
        },
        opened_values: ShardOpenedValues { chips: vec![opening] },
        opening_proof: OpeningProof { data: vec![0] },
        chip_ordering: vec![],
        public_values: vec![],
    };
    let mut challenger = challenger_after_main(&fc, &proof.commitment.main_commit);
    let r = Verifier::verify_shard(&fc, &pcs, &vk, &chips, &mut challenger, &proof);
    assert_eq!(
        r,
        Err(VerificationError::OpeningShapeError(
            String::from("cpu"),
            OpeningShapeError::QuotientChunkSizeMismatch(4, 3)
        ))
    );
}

#[test]
fn verifier_deterministic() {
    let fc = SmallConfig;
    let pcs = SamplePcs;
    let (vk, chips, proof) = valid_proof(3);
    let mut c1 = challenger_after_main(&fc, &proof.commitment.main_commit);
    let mut c2 = challenger_after_main(&fc, &proof.commitment.main_commit);
    let r1 = Verifier::verify_shard(&fc, &pcs, &vk, &chips, &mut c1, &proof);
    let r2 = Verifier::verify_shard(&fc, &pcs, &vk, &chips, &mut c2, &proof);
    assert_eq!(r1, r2);
    // the transcripts agree too
    assert_eq!(c1.sponge_state, c2.sponge_state);
    assert_eq!(c1.input_buffer, c2.input_buffer);
    assert_eq!(c1.output_buffer, c2.output_buffer);

    let (vk_b, chips_b, mut proof_b) = valid_proof(3);
    proof_b.public_values[0] = 9;
    let mut c3 = challenger_after_main(&fc, &proof_b.commitment.main_commit);
    let mut c4 = challenger_after_main(&fc, &proof_b.commitment.main_commit);
    let r3 = Verifier::verify_shard(&fc, &pcs, &vk_b, &chips_b, &mut c3, &proof_b);
    let r4 = Verifier::verify_shard(&fc, &pcs, &vk_b, &chips_b, &mut c4, &proof_b);
    assert_eq!(r3, r4);
    assert!(r3.is_err());
}

#[test]
fn transcript_sensitivity_of_challenges() {
    let fc = SmallConfig;
    let mut c1 = DuplexChallenger::new(&fc);
    let mut c2 = DuplexChallenger::new(&fc);
    let mut d = digest(5);
    c1.observe_digest(&fc, &d);
    d[3] ^= 1;
    c2.observe_digest(&fc, &d);
    let z1 = c1.sample_ext_element(&fc);
    let z2 = c2.sample_ext_element(&fc);
    assert_ne!(z1, z2);
}

#[test]
fn unconstrained_chip_with_zero_quotient_accepted() {
    let fc = SmallConfig;
    let pcs = SamplePcs;
    let vk = sample_vk();
    let chips = vec![cpu_chip(false)];
    let opening = opening_with(5, vec![ext(0), ext(0), ext(0), ext(0)]);
    let main_commit = digest(2);
    let perm_commit = digest(3);
    let quotient_commit = digest(4);
    let checksum = pcs.digests_checksum(&vec![
        vk.commit.clone(),
        main_commit.clone(),
        perm_commit.clone(),
        quotient_commit.clone(),
    ]);
    let proof = ShardProof {
        commitment: ShardCommitment {
            main_commit,
            permutation_commit: perm_commit,
            quotient_commit,
        },
        opened_values: ShardOpenedValues { chips: vec![opening] },
        opening_proof: OpeningProof { data: vec![checksum] },
        chip_ordering: vec![],
        public_values: vec![],
    };
    let mut challenger = challenger_after_main(&fc, &proof.commitment.main_commit);
    let r = Verifier::verify_shard(&fc, &pcs, &vk, &chips, &mut challenger, &proof);
    assert_eq!(r, Ok(()));
}

#[test]
fn recompute_quotient_single_chunk_exact() {
    let fc = SmallConfig;
    let pcs = SamplePcs;
    // with one chunk the weight is one, and the monomial recombination of
    // diagonal chunk coefficients picks out one coefficient per lane
    let opening = opening_with(5, vec![ext(5), ext(6), ext(7), ext(8)]);
    let td = pcs.natural_domain_for_degree(8);
    let qd = pcs.create_disjoint_domain(&td, 8);
    let qc = pcs.split_domains(&fc, &qd, 1);
    let zeta = ext(11);
    let r = Verifier::recompute_quotient(&fc, &pcs, &opening, &qc, &zeta);
    assert_eq!(r, Some(vec![5, 6, 7, 8]));
}

#[test]
fn eval_constraints_exact() {
    let fc = SmallConfig;
    let pcs = SamplePcs;
    let chip = cpu_chip(true);
    // alpha is zero, so the accumulator is exactly the single constraint
    // is_first_row + pv0 - m0
    let opening = opening_with(2, vec![ext(0), ext(0), ext(0), ext(0)]);
    let td = pcs.natural_domain_for_degree(8);
    let zeta = ext(0);
    let sels = pcs.selectors_at_point(&fc, &td, &zeta);
    // the sample selectors give is_first_row = zeta + shift = 0 + 8 lanewise
    assert_eq!(sels.is_first_row, vec![8, 8, 8, 8]);
    let folded = Verifier::eval_constraints(
        &fc,
        &chip,
        &opening,
        &sels,
        &ext(0),
        &vec![ext(0), ext(0)],
        &vec![3],
    );
    // 8 + 3 - 2 == 9 in every lane
    assert_eq!(folded, vec![9, 9, 9, 9]);
}

#[test]
fn unconstrained_chip_accumulator_is_zero() {
    let fc = SmallConfig;
    let pcs = SamplePcs;
    let chip = cpu_chip(false);
    let opening = opening_with(2, vec![ext(0), ext(0), ext(0), ext(0)]);
    let td = pcs.natural_domain_for_degree(8);
    let sels = pcs.selectors_at_point(&fc, &td, &ext(1));
    let folded = Verifier::eval_constraints(
        &fc,
        &chip,
        &opening,
        &sels,
        &ext(5),
        &vec![ext(0), ext(0)],
        &vec![],
    );
    assert_eq!(folded, vec![0, 0, 0, 0]);
}

#[test]
fn preprocessed_chip_accepted() {
    let fc = SmallConfig;
    let pcs = SamplePcs;
    // a verifying key with one preprocessed chip, bound through the ordering
    let vk = StarkVerifyingKey {
        commit: digest(1),
        pc_start: 0,
        chip_information: vec![ChipInfo {
            name: String::from("cpu"),
            domain: Domain { log_n: 3, shift: 5 },
            shape: ChipDimensions { width: 1, height: 8 },
        }],
        chip_ordering: vec![NameIndex { name: String::from("cpu"), index: 0 }],
    };
    let mut chip = cpu_chip(false);
    chip.preprocessed_w = 2;
    let chips = vec![chip];
    let opening = ChipOpenedValues {
        preprocessed: AirOpenedValues {
            local: vec![ext(21), ext(22)],
            next: vec![ext(23), ext(24)],
        },
        main: AirOpenedValues { local: vec![ext(5)], next: vec![ext(6)] },
        permutation: empty_air(),
        quotient: vec![vec![ext(0), ext(0), ext(0), ext(0)]],
        cumulative_sum: ext(0),
        log_degree: 3,
    };
    let main_commit = digest(2);
    let perm_commit = digest(3);
    let quotient_commit = digest(4);
    let checksum = pcs.digests_checksum(&vec![
        vk.commit.clone(),
        main_commit.clone(),
        perm_commit.clone(),
        quotient_commit.clone(),
    ]);
    let proof = ShardProof {
        commitment: ShardCommitment {
            main_commit,
            permutation_commit: perm_commit,
            quotient_commit,
        },
        opened_values: ShardOpenedValues { chips: vec![opening] },
        opening_proof: OpeningProof { data: vec![checksum] },
        chip_ordering: vec![NameIndex { name: String::from("cpu"), index: 0 }],
        public_values: vec![],
    };
    let mut challenger = challenger_after_main(&fc, &proof.commitment.main_commit);
    let r = Verifier::verify_shard(&fc, &pcs, &vk, &chips, &mut challenger, &proof);
    assert_eq!(r, Ok(()));
}
