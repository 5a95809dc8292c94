//! The polynomial-commitment capability: trace domains, their Lagrange
//! selectors and vanishing polynomials, and batched opening verification.
use vstd::prelude::*;
use crate::field::{Ext, FieldConfig};
use crate::hashing::Digest;
use crate::challenger::{ChalState, DuplexChallenger};
use crate::types::{Domain, OpeningError, OpeningProof};

verus! {

/// An opening batch entry: claimed values of one batch of polynomials at one
/// point.
pub struct PointOpening {
    pub point: Ext,
    pub values: Vec<Ext>,
}

/// All claimed openings of one committed matrix over one domain.
pub struct DomainOpenings {
    pub domain: Domain,
    pub openings: Vec<PointOpening>,
}

/// One round handed to the scheme: a commitment with its claimed openings.
pub struct Round {
    pub commitment: Digest,
    pub openings: Vec<DomainOpenings>,
}

pub ghost struct PointOpeningModel {
    pub point: Seq<u64>,
    pub values: Seq<Seq<u64>>,
}

pub ghost struct DomainOpeningsModel {
    pub domain: Domain,
    pub openings: Seq<PointOpeningModel>,
}

pub ghost struct RoundModel {
    pub commitment: Seq<u64>,
    pub openings: Seq<DomainOpeningsModel>,
}

impl View for PointOpening {
    type V = PointOpeningModel;

    open spec fn view(&self) -> PointOpeningModel {
        PointOpeningModel { point: self.point@, values: self.values.deep_view() }
    }
}

impl View for DomainOpenings {
    type V = DomainOpeningsModel;

    open spec fn view(&self) -> DomainOpeningsModel {
        DomainOpeningsModel {
            domain: self.domain,
            openings: Seq::new(self.openings@.len(), |i: int| self.openings@[i]@),
        }
    }
}

impl View for Round {
    type V = RoundModel;

    open spec fn view(&self) -> RoundModel {
        RoundModel {
            commitment: self.commitment@,
            openings: Seq::new(self.openings@.len(), |i: int| self.openings@[i]@),
        }
    }
}

/// The model of a whole batch of rounds.
pub open spec fn rounds_model(rounds: Seq<Round>) -> Seq<RoundModel> {
    Seq::new(rounds.len(), |i: int| rounds[i]@)
}

/// The Lagrange selectors of a domain at one point.
pub struct LagrangeSelectors {
    pub is_first_row: Ext,
    pub is_last_row: Ext,
    pub is_transition: Ext,
    pub inv_zeroifier: Ext,
}

pub ghost struct SelectorsModel {
    pub is_first_row: Seq<u64>,
    pub is_last_row: Seq<u64>,
    pub is_transition: Seq<u64>,
    pub inv_zeroifier: Seq<u64>,
}

impl View for LagrangeSelectors {
    type V = SelectorsModel;

    open spec fn view(&self) -> SelectorsModel {
        SelectorsModel {
            is_first_row: self.is_first_row@,
            is_last_row: self.is_last_row@,
            is_transition: self.is_transition@,
            inv_zeroifier: self.inv_zeroifier@,
        }
    }
}

/// All four selectors are extension elements.
pub open spec fn wf_selectors<FC: FieldConfig>(fc: &FC, s: SelectorsModel) -> bool {
    &&& s.is_first_row.len() == fc.spec_degree()
    &&& s.is_last_row.len() == fc.spec_degree()
    &&& s.is_transition.len() == fc.spec_degree()
    &&& s.inv_zeroifier.len() == fc.spec_degree()
}

/// The polynomial-commitment scheme, consumed as a black box: every
/// operation is pinned to a specification-level function of the same
/// implementation.
pub trait Pcs<FC: FieldConfig>: Sized {
    /// The trace domain assigned to a trace of the given size.
    spec fn spec_natural_domain(&self, degree: nat) -> Domain;

    /// The evaluation point advanced by the domain's generator.
    spec fn spec_next_point(&self, fc: &FC, d: Domain, zeta: Seq<u64>) -> Seq<u64>;

    /// The first point of the domain.
    spec fn spec_first_point(&self, fc: &FC, d: Domain) -> Seq<u64>;

    /// The vanishing polynomial of the domain at a point.
    spec fn spec_zp_at_point(&self, fc: &FC, d: Domain, point: Seq<u64>) -> Seq<u64>;

    /// The Lagrange selectors of the domain at a point.
    spec fn spec_selectors(&self, fc: &FC, d: Domain, point: Seq<u64>) -> SelectorsModel;

    /// A domain of the given size disjoint from `d`.
    spec fn spec_create_disjoint_domain(&self, d: Domain, size: nat) -> Domain;

    /// `d` split into `n` chunk domains.
    spec fn spec_split_domains(&self, d: Domain, n: nat) -> Seq<Domain>;

    /// Whether the scheme accepts the claimed openings.
    spec fn spec_verify_ok(
        &self,
        fc: &FC,
        rounds: Seq<RoundModel>,
        proof: Seq<u64>,
        st: ChalState,
    ) -> bool;

    /// The transcript state the scheme leaves behind.
    spec fn spec_verify_state(
        &self,
        fc: &FC,
        rounds: Seq<RoundModel>,
        proof: Seq<u64>,
        st: ChalState,
    ) -> ChalState;

    /// Every point and selector the scheme produces is an extension element.
    proof fn lemma_pcs_shapes(&self, fc: &FC)
        ensures
            forall|d: Domain, z: Seq<u64>|
                (#[trigger] self.spec_next_point(fc, d, z)).len() == fc.spec_degree(),
            forall|d: Domain| (#[trigger] self.spec_first_point(fc, d)).len() == fc.spec_degree(),
            forall|d: Domain, z: Seq<u64>|
                (#[trigger] self.spec_zp_at_point(fc, d, z)).len() == fc.spec_degree(),
            forall|d: Domain, z: Seq<u64>| wf_selectors(fc, #[trigger] self.spec_selectors(fc, d, z)),
    ;

    fn natural_domain_for_degree(&self, degree: usize) -> (r: Domain)
        ensures
            r == self.spec_natural_domain(degree as nat),
    ;

    fn next_point(&self, fc: &FC, d: &Domain, zeta: &Ext) -> (r: Ext)
        requires
            zeta@.len() == fc.spec_degree(),
        ensures
            r@ == self.spec_next_point(fc, *d, zeta@),
    ;

    fn first_point(&self, fc: &FC, d: &Domain) -> (r: Ext)
        ensures
            r@ == self.spec_first_point(fc, *d),
    ;

    fn zp_at_point(&self, fc: &FC, d: &Domain, point: &Ext) -> (r: Ext)
        requires
            point@.len() == fc.spec_degree(),
        ensures
            r@ == self.spec_zp_at_point(fc, *d, point@),
    ;

    fn selectors_at_point(&self, fc: &FC, d: &Domain, point: &Ext) -> (r: LagrangeSelectors)
        requires
            point@.len() == fc.spec_degree(),
        ensures
            r@ == self.spec_selectors(fc, *d, point@),
    ;

    fn create_disjoint_domain(&self, d: &Domain, size: usize) -> (r: Domain)
        ensures
            r == self.spec_create_disjoint_domain(*d, size as nat),
    ;

    /// Split a (disjoint) quotient domain into chunk domains. The chunks come
    /// with the guarantee that lets the quotient be recombined: the vanishing
    /// polynomial of any chunk is invertible at any other chunk's first point.
    fn split_domains(&self, fc: &FC, d: &Domain, n: usize) -> (r: Vec<Domain>)
        ensures
            r@ == self.spec_split_domains(*d, n as nat),
            r@.len() == n as nat,
            forall|i: int, j: int|
                0 <= i < r@.len() && 0 <= j < r@.len() && i != j ==> fc.spec_has_inverse(
                    #[trigger] self.spec_zp_at_point(fc, r@[j], self.spec_first_point(fc, r@[i])),
                ),
    ;

    /// Check the claimed openings of all rounds against their commitments.
    /// The scheme may drive the transcript, but both its verdict and the
    /// transcript it leaves behind are functions of its inputs.
    fn verify(
        &self,
        fc: &FC,
        rounds: &Vec<Round>,
        proof: &OpeningProof,
        challenger: &mut DuplexChallenger,
    ) -> (r: Result<(), OpeningError>)
        requires
            old(challenger).wf(fc),
        ensures
            final(challenger).wf(fc),
            (r is Ok) == self.spec_verify_ok(
                fc,
                rounds_model(rounds@),
                proof.data@,
                old(challenger).state(),
            ),
            final(challenger).state() == self.spec_verify_state(
                fc,
                rounds_model(rounds@),
                proof.data@,
                old(challenger).state(),
            ),
    ;
}

/// The chunk domains let the quotient be recombined: every pairwise
/// denominator is invertible.
pub open spec fn spec_domains_invertible<FC: FieldConfig, P: Pcs<FC>>(
    fc: &FC,
    pcs: &P,
    qc: Seq<Domain>,
) -> bool {
    forall|i: int, j: int|
        0 <= i < qc.len() && 0 <= j < qc.len() && i != j ==> fc.spec_has_inverse(
            #[trigger] pcs.spec_zp_at_point(fc, qc[j], pcs.spec_first_point(fc, qc[i])),
        )
}

} // verus!
