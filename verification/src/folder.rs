//! The constraint folder: the write-only accumulator a chip's constraint
//! evaluation drives, and the chip capability itself.
use vstd::prelude::*;
use crate::field::{Ext, FieldConfig};
use crate::types::AirOpenedValues;

verus! {

pub ghost struct AirModel {
    pub local: Seq<Seq<u64>>,
    pub next: Seq<Seq<u64>>,
}

impl View for AirOpenedValues {
    type V = AirModel;

    open spec fn view(&self) -> AirModel {
        AirModel { local: self.local.deep_view(), next: self.next.deep_view() }
    }
}

/// The folder's state as the chip's evaluation sees it.
pub ghost struct FolderModel {
    pub preprocessed: AirModel,
    pub main: AirModel,
    pub perm: AirModel,
    pub perm_challenges: Seq<Seq<u64>>,
    pub cumulative_sum: Seq<u64>,
    pub is_first_row: Seq<u64>,
    pub is_last_row: Seq<u64>,
    pub is_transition: Seq<u64>,
    pub alpha: Seq<u64>,
    pub accumulator: Seq<u64>,
    pub public_values: Seq<u64>,
}

/// The view a chip evaluates its constraints against, with the running
/// α-powered accumulator.
pub struct ConstraintFolder {
    pub preprocessed: AirOpenedValues,
    pub main: AirOpenedValues,
    pub perm: AirOpenedValues,
    pub perm_challenges: Vec<Ext>,
    pub cumulative_sum: Ext,
    pub is_first_row: Ext,
    pub is_last_row: Ext,
    pub is_transition: Ext,
    pub alpha: Ext,
    pub accumulator: Ext,
    pub public_values: Vec<u64>,
}

impl View for ConstraintFolder {
    type V = FolderModel;

    open spec fn view(&self) -> FolderModel {
        FolderModel {
            preprocessed: self.preprocessed@,
            main: self.main@,
            perm: self.perm@,
            perm_challenges: self.perm_challenges.deep_view(),
            cumulative_sum: self.cumulative_sum@,
            is_first_row: self.is_first_row@,
            is_last_row: self.is_last_row@,
            is_transition: self.is_transition@,
            alpha: self.alpha@,
            accumulator: self.accumulator@,
            public_values: self.public_values@,
        }
    }
}

/// Every extension element of a sequence has the configured degree.
pub open spec fn wf_ext_seq<FC: FieldConfig>(fc: &FC, s: Seq<Seq<u64>>) -> bool {
    forall|i: int| 0 <= i < s.len() ==> (#[trigger] s[i]).len() == fc.spec_degree()
}

/// Every extension element of a folder has the configured degree.
pub open spec fn folder_wf<FC: FieldConfig>(fc: &FC, f: FolderModel) -> bool {
    &&& wf_ext_seq(fc, f.preprocessed.local)
    &&& wf_ext_seq(fc, f.preprocessed.next)
    &&& wf_ext_seq(fc, f.main.local)
    &&& wf_ext_seq(fc, f.main.next)
    &&& wf_ext_seq(fc, f.perm.local)
    &&& wf_ext_seq(fc, f.perm.next)
    &&& wf_ext_seq(fc, f.perm_challenges)
    &&& f.cumulative_sum.len() == fc.spec_degree()
    &&& f.is_first_row.len() == fc.spec_degree()
    &&& f.is_last_row.len() == fc.spec_degree()
    &&& f.is_transition.len() == fc.spec_degree()
    &&& f.alpha.len() == fc.spec_degree()
    &&& f.accumulator.len() == fc.spec_degree()
}

/// The accumulator after folding in one more constraint.
pub open spec fn spec_fold_constraint<FC: FieldConfig>(
    fc: &FC,
    f: FolderModel,
    constraint: Seq<u64>,
) -> FolderModel {
    FolderModel { accumulator: fc.spec_add(fc.spec_mul(f.accumulator, f.alpha), constraint), ..f }
}

impl ConstraintFolder {
    /// Fold one constraint into the accumulator with the α-powering
    /// discipline: the accumulator is multiplied by α, then the constraint
    /// is added.
    pub fn assert_zero<FC: FieldConfig>(&mut self, fc: &FC, constraint: &Ext)
        requires
            old(self).accumulator@.len() == fc.spec_degree(),
            old(self).alpha@.len() == fc.spec_degree(),
            constraint@.len() == fc.spec_degree(),
        ensures
            final(self)@ == spec_fold_constraint(fc, old(self)@, constraint@),
            final(self).accumulator@.len() == fc.spec_degree(),
    {
        proof {
            fc.lemma_op_shapes();
        }
        let scaled = fc.mul(&self.accumulator, &self.alpha);
        let folded = fc.add(&scaled, constraint);
        self.accumulator = folded;
    }
}

/// The chip capability: declared widths and a constraint evaluation that
/// folds the chip's constraints into the folder's accumulator.
pub trait Chip<FC: FieldConfig>: Sized {
    spec fn spec_name(&self) -> Seq<char>;

    spec fn spec_preprocessed_width(&self) -> nat;

    spec fn spec_width(&self) -> nat;

    spec fn spec_permutation_width(&self) -> nat;

    spec fn spec_log_quotient_degree(&self) -> nat;

    /// The accumulator the chip's evaluation leaves behind, as a function of
    /// the folder it was given.
    spec fn spec_eval(&self, fc: &FC, f: FolderModel) -> Seq<u64>;

    /// The evaluation result is an extension element.
    proof fn lemma_eval_shape(&self, fc: &FC, f: FolderModel)
        requires
            folder_wf(fc, f),
        ensures
            self.spec_eval(fc, f).len() == fc.spec_degree(),
    ;

    fn name(&self) -> (r: String)
        ensures
            r@ == self.spec_name(),
    ;

    fn preprocessed_width(&self) -> (r: usize)
        ensures
            r as nat == self.spec_preprocessed_width(),
    ;

    fn width(&self) -> (r: usize)
        ensures
            r as nat == self.spec_width(),
    ;

    fn permutation_width(&self) -> (r: usize)
        ensures
            r as nat == self.spec_permutation_width(),
    ;

    fn log_quotient_degree(&self) -> (r: usize)
        ensures
            r as nat == self.spec_log_quotient_degree(),
    ;

    /// The number of quotient chunks: `2^log_quotient_degree`.
    fn quotient_width(&self) -> (r: usize)
        ensures
            r as nat == vstd::arithmetic::power2::pow2(self.spec_log_quotient_degree()),
    ;

    /// Evaluate the chip's constraints against the folder; the final
    /// accumulator is `spec_eval` of the folder it started from.
    fn eval(&self, fc: &FC, folder: &mut ConstraintFolder)
        requires
            folder_wf(fc, old(folder)@),
            old(folder).main.local@.len() == self.spec_width(),
            old(folder).main.next@.len() == self.spec_width(),
            old(folder).preprocessed.local@.len() == self.spec_preprocessed_width(),
            old(folder).preprocessed.next@.len() == self.spec_preprocessed_width(),
            old(folder).perm.local@.len() == self.spec_permutation_width(),
            old(folder).perm.next@.len() == self.spec_permutation_width(),
        ensures
            final(folder).accumulator@ == self.spec_eval(fc, old(folder)@),
            final(folder).accumulator@.len() == fc.spec_degree(),
    ;
}

} // verus!
