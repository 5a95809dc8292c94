//! The shard verifier: transcript-driven challenge derivation, opening-shape
//! validation, quotient recombination from chunked commitments, constraint
//! folding, and the out-of-domain identity check.
use vstd::prelude::*;
use vstd::arithmetic::power2::pow2;
use crate::bits::pow2_usize;
use vstd::arithmetic::div_mod::{lemma_fundamental_div_mod, lemma_div_multiples_vanish};
use vstd::arithmetic::mul::{lemma_mul_inequality, lemma_mul_is_distributive_add_other_way};
use crate::field::{copy_felts, felts_eq, Ext, FieldConfig};
use crate::challenger::{ChalState, DuplexChallenger, spec_observe_many, spec_sample_ext};
use crate::folder::{folder_wf, wf_ext_seq, AirModel, Chip, ConstraintFolder, FolderModel, spec_fold_constraint};
use crate::pcs::{
    rounds_model, spec_domains_invertible, wf_selectors, DomainOpenings, DomainOpeningsModel,
    LagrangeSelectors, Pcs, PointOpening, PointOpeningModel, Round, RoundModel, SelectorsModel,
};
use crate::types::{
    spec_lookup, lookup_index, AirOpenedValues, ChipOpenedValues, Domain, OodEvaluationMismatch,
    OpeningShapeError, ShardProof, StarkVerifyingKey, VerificationError,
};

verus! {

broadcast use crate::field::lemma_deep_view_felts;

/// A verifier for a collection of air chips.
pub struct Verifier;

/// `sum_{e < cnt} monomial(e) * v[start + e]`, the linear combination that
/// reassembles an extension element from base-field coefficients.
pub open spec fn spec_lin_comb<FC: FieldConfig>(fc: &FC, v: Seq<Seq<u64>>, start: int, cnt: nat) -> Seq<u64>
    decreases cnt,
{
    if cnt == 0 {
        fc.spec_zero()
    } else {
        fc.spec_add(
            spec_lin_comb(fc, v, start, (cnt - 1) as nat),
            fc.spec_mul(fc.spec_monomial(cnt - 1), v[start + cnt - 1]),
        )
    }
}

/// The flat vector split into extension elements of the monomial basis.
pub open spec fn spec_unflatten<FC: FieldConfig>(fc: &FC, v: Seq<Seq<u64>>) -> Seq<Seq<u64>> {
    Seq::new(
        v.len() / fc.spec_degree(),
        |k: int| spec_lin_comb(fc, v, k * fc.spec_degree(), fc.spec_degree()),
    )
}

/// Every element of the sequence is an extension element of the right degree.
pub open spec fn wf_opening<FC: FieldConfig>(fc: &FC, o: ChipOpenedValues) -> bool {
    &&& wf_ext_seq(fc, o.preprocessed.local.deep_view())
    &&& wf_ext_seq(fc, o.preprocessed.next.deep_view())
    &&& wf_ext_seq(fc, o.main.local.deep_view())
    &&& wf_ext_seq(fc, o.main.next.deep_view())
    &&& wf_ext_seq(fc, o.permutation.local.deep_view())
    &&& wf_ext_seq(fc, o.permutation.next.deep_view())
    &&& forall|i: int|
        0 <= i < o.quotient@.len() ==> wf_ext_seq(fc, #[trigger] o.quotient@[i].deep_view())
    &&& o.cumulative_sum@.len() == fc.spec_degree()
}

/// The first quotient chunk whose arity differs from the extension degree.
pub open spec fn spec_first_bad_chunk<FC: FieldConfig>(fc: &FC, q: Seq<Vec<Ext>>, k: nat) -> Option<
    (int, nat),
>
    decreases q.len() - k,
{
    if k >= q.len() {
        Option::None
    } else if q[k as int]@.len() != fc.spec_degree() {
        Option::Some((k as int, q[k as int]@.len()))
    } else {
        spec_first_bad_chunk(fc, q, (k + 1) as nat)
    }
}

/// A scan that found no bad chunk vouches for every chunk from its start.
pub proof fn lemma_no_bad_chunk<FC: FieldConfig>(fc: &FC, q: Seq<Vec<Ext>>, k: nat)
    requires
        spec_first_bad_chunk(fc, q, k) is None,
    ensures
        forall|i: int| k <= i < q.len() ==> (#[trigger] q[i])@.len() == fc.spec_degree(),
    decreases q.len() - k,
{
    if k < q.len() {
        lemma_no_bad_chunk(fc, q, (k + 1) as nat);
    }
}

/// The weight of a chunk is an extension element.
pub proof fn lemma_zps_prod_len<FC: FieldConfig, P: Pcs<FC>>(
    fc: &FC,
    pcs: &P,
    qc: Seq<Domain>,
    zeta: Seq<u64>,
    i: int,
    j_cnt: nat,
)
    ensures
        spec_zps_prod(fc, pcs, qc, zeta, i, j_cnt).len() == fc.spec_degree(),
    decreases j_cnt,
{
    fc.lemma_op_shapes();
    if j_cnt > 0 {
        lemma_zps_prod_len(fc, pcs, qc, zeta, i, (j_cnt - 1) as nat);
    }
}

/// The first of the five shape rules the opening violates, if any: the
/// preprocessed, main and permutation widths, the number of quotient chunks,
/// and the arity of each chunk.
pub open spec fn spec_shape_error<FC: FieldConfig, C: Chip<FC>>(
    fc: &FC,
    chip: C,
    o: ChipOpenedValues,
) -> Option<OpeningShapeError> {
    if o.preprocessed.local@.len() != chip.spec_preprocessed_width() {
        Option::Some(
            OpeningShapeError::PreprocessedWidthMismatch(
                chip.spec_preprocessed_width() as usize,
                o.preprocessed.local@.len() as usize,
            ),
        )
    } else if o.preprocessed.next@.len() != chip.spec_preprocessed_width() {
        Option::Some(
            OpeningShapeError::PreprocessedWidthMismatch(
                chip.spec_preprocessed_width() as usize,
                o.preprocessed.next@.len() as usize,
            ),
        )
    } else if o.main.local@.len() != chip.spec_width() {
        Option::Some(
            OpeningShapeError::MainWidthMismatch(
                chip.spec_width() as usize,
                o.main.local@.len() as usize,
            ),
        )
    } else if o.main.next@.len() != chip.spec_width() {
        Option::Some(
            OpeningShapeError::MainWidthMismatch(
                chip.spec_width() as usize,
                o.main.next@.len() as usize,
            ),
        )
    } else if o.permutation.local@.len() != chip.spec_permutation_width() * fc.spec_degree() {
        Option::Some(
            OpeningShapeError::PermutationWidthMismatch(
                chip.spec_permutation_width() as usize,
                o.permutation.local@.len() as usize,
            ),
        )
    } else if o.permutation.next@.len() != chip.spec_permutation_width() * fc.spec_degree() {
        Option::Some(
            OpeningShapeError::PermutationWidthMismatch(
                chip.spec_permutation_width() as usize,
                o.permutation.next@.len() as usize,
            ),
        )
    } else if o.quotient@.len() != pow2(chip.spec_log_quotient_degree()) {
        Option::Some(
            OpeningShapeError::QuotientWidthMismatch(
                pow2(chip.spec_log_quotient_degree()) as usize,
                o.quotient@.len() as usize,
            ),
        )
    } else {
        match spec_first_bad_chunk(fc, o.quotient@, 0) {
            Option::Some((i, l)) => Option::Some(
                OpeningShapeError::QuotientChunkSizeMismatch(fc.spec_degree() as usize, l as usize),
            ),
            Option::None => Option::None,
        }
    }
}

/// The weight of quotient chunk `i`: the product over the first `j_cnt`
/// other chunks `j` of `zp_j(zeta) / zp_j(first_point_i)`.
pub open spec fn spec_zps_prod<FC: FieldConfig, P: Pcs<FC>>(
    fc: &FC,
    pcs: &P,
    qc: Seq<Domain>,
    zeta: Seq<u64>,
    i: int,
    j_cnt: nat,
) -> Seq<u64>
    decreases j_cnt,
{
    if j_cnt == 0 {
        fc.spec_one()
    } else {
        let j = j_cnt - 1;
        let prev = spec_zps_prod(fc, pcs, qc, zeta, i, (j_cnt - 1) as nat);
        if j == i {
            prev
        } else {
            fc.spec_mul(
                prev,
                fc.spec_mul(
                    pcs.spec_zp_at_point(fc, qc[j], zeta),
                    fc.spec_inverse(pcs.spec_zp_at_point(fc, qc[j], pcs.spec_first_point(fc, qc[i]))),
                ),
            )
        }
    }
}

/// The recombined quotient restricted to the first `k` chunks.
pub open spec fn spec_quotient_partial<FC: FieldConfig, P: Pcs<FC>>(
    fc: &FC,
    pcs: &P,
    q: Seq<Vec<Ext>>,
    qc: Seq<Domain>,
    zeta: Seq<u64>,
    k: nat,
) -> Seq<u64>
    decreases k,
{
    if k == 0 {
        fc.spec_zero()
    } else {
        fc.spec_add(
            spec_quotient_partial(fc, pcs, q, qc, zeta, (k - 1) as nat),
            fc.spec_mul(
                spec_zps_prod(fc, pcs, qc, zeta, k - 1, qc.len()),
                spec_lin_comb(fc, q[k - 1].deep_view(), 0, fc.spec_degree()),
            ),
        )
    }
}

/// `quotient(zeta)`, recombined from all chunk openings.
pub open spec fn spec_recompute_quotient<FC: FieldConfig, P: Pcs<FC>>(
    fc: &FC,
    pcs: &P,
    q: Seq<Vec<Ext>>,
    qc: Seq<Domain>,
    zeta: Seq<u64>,
) -> Seq<u64> {
    spec_quotient_partial(fc, pcs, q, qc, zeta, q.len())
}

/// The folded constraint evaluation of a chip at the opening: the chip's
/// evaluation of a folder whose permutation openings are unflattened into
/// extension elements and whose accumulator starts at zero.
pub open spec fn spec_eval_constraints<FC: FieldConfig, C: Chip<FC>>(
    fc: &FC,
    chip: C,
    o: ChipOpenedValues,
    sels: SelectorsModel,
    alpha: Seq<u64>,
    perm_challenges: Seq<Seq<u64>>,
    public_values: Seq<u64>,
) -> Seq<u64> {
    let f = FolderModel {
        preprocessed: o.preprocessed@,
        main: o.main@,
        perm: AirModel {
            local: spec_unflatten(fc, o.permutation.local.deep_view()),
            next: spec_unflatten(fc, o.permutation.next.deep_view()),
        },
        perm_challenges: perm_challenges,
        cumulative_sum: o.cumulative_sum@,
        is_first_row: sels.is_first_row,
        is_last_row: sels.is_last_row,
        is_transition: sels.is_transition,
        alpha: alpha,
        accumulator: fc.spec_zero(),
        public_values: public_values,
    };
    chip.spec_eval(fc, f)
}

/// Whether the out-of-domain identity holds for one chip:
/// `folded_constraints(zeta) * inv_zeroifier == quotient(zeta)`.
pub open spec fn spec_chip_ood_ok<FC: FieldConfig, C: Chip<FC>, P: Pcs<FC>>(
    fc: &FC,
    pcs: &P,
    chip: C,
    o: ChipOpenedValues,
    zeta: Seq<u64>,
    alpha: Seq<u64>,
    perm_challenges: Seq<Seq<u64>>,
    public_values: Seq<u64>,
) -> bool {
    let trace_domain = pcs.spec_natural_domain(pow2(o.log_degree as nat));
    let qc = spec_qc_domains(fc, pcs, chip, o);
    let sels = pcs.spec_selectors(fc, trace_domain, zeta);
    fc.spec_mul(
        spec_eval_constraints(fc, chip, o, sels, alpha, perm_challenges, public_values),
        sels.inv_zeroifier,
    ) == spec_recompute_quotient(fc, pcs, o.quotient@, qc, zeta)
}

/// The quotient chunk domains of a chip: the disjoint domain of the right
/// size, split into `2^log_quotient_degree` chunks.
pub open spec fn spec_qc_domains<FC: FieldConfig, C: Chip<FC>, P: Pcs<FC>>(
    fc: &FC,
    pcs: &P,
    chip: C,
    o: ChipOpenedValues,
) -> Seq<Domain> {
    let trace_domain = pcs.spec_natural_domain(pow2(o.log_degree as nat));
    pcs.spec_split_domains(
        pcs.spec_create_disjoint_domain(
            trace_domain,
            pow2(o.log_degree as nat + chip.spec_log_quotient_degree()),
        ),
        pow2(chip.spec_log_quotient_degree()),
    )
}

/// An element-wise copy of a vector of extension elements.
fn copy_exts(v: &Vec<Ext>) -> (r: Vec<Ext>)
    ensures
        r.deep_view() == v.deep_view(),
        r@.len() == v@.len(),
{
    let mut r: Vec<Ext> = Vec::new();
    let mut i: usize = 0;
    while i < v.len()
        invariant
            i <= v@.len(),
            r@.len() == i as nat,
            forall|k: int| 0 <= k < i ==> r.deep_view()[k] == v.deep_view()[k],
        decreases v@.len() - i,
    {
        let ghost pre: Seq<Seq<u64>> = r.deep_view();
        let d = copy_felts(&v[i]);
        r.push(d);
        proof {
            assert forall|k: int| 0 <= k < i + 1 implies r.deep_view()[k] == v.deep_view()[k] by {
                if k < i {
                    assert(r.deep_view()[k] == pre[k]);
                } else {
                    assert(r.deep_view()[k] == d.deep_view());
                }
            }
        }
        i += 1;
    }
    proof {
        assert(r.deep_view() =~= v.deep_view());
    }
    r
}

impl Verifier {
    /// Check the five shape rules of an opening against the chip's declared
    /// widths, reporting the first violated one.
    pub fn verify_opening_shape<FC: FieldConfig, C: Chip<FC>>(
        fc: &FC,
        chip: &C,
        opening: &ChipOpenedValues,
    ) -> (r: Result<(), OpeningShapeError>)
        requires
            chip.spec_permutation_width() * fc.spec_degree() <= usize::MAX as nat,
        ensures
            (match r {
                Result::Ok(()) => spec_shape_error(fc, *chip, *opening) is None,
                Result::Err(e) => spec_shape_error(fc, *chip, *opening) == Option::Some(e),
            }),
    {
        let d = fc.degree();
        if opening.preprocessed.local.len() != chip.preprocessed_width() {
            return Result::Err(
                OpeningShapeError::PreprocessedWidthMismatch(
                    chip.preprocessed_width(),
                    opening.preprocessed.local.len(),
                ),
            );
        }
        if opening.preprocessed.next.len() != chip.preprocessed_width() {
            return Result::Err(
                OpeningShapeError::PreprocessedWidthMismatch(
                    chip.preprocessed_width(),
                    opening.preprocessed.next.len(),
                ),
            );
        }
        if opening.main.local.len() != chip.width() {
            return Result::Err(
                OpeningShapeError::MainWidthMismatch(chip.width(), opening.main.local.len()),
            );
        }
        if opening.main.next.len() != chip.width() {
            return Result::Err(
                OpeningShapeError::MainWidthMismatch(chip.width(), opening.main.next.len()),
            );
        }
        if opening.permutation.local.len() != chip.permutation_width() * d {
            return Result::Err(
                OpeningShapeError::PermutationWidthMismatch(
                    chip.permutation_width(),
                    opening.permutation.local.len(),
                ),
            );
        }
        if opening.permutation.next.len() != chip.permutation_width() * d {
            return Result::Err(
                OpeningShapeError::PermutationWidthMismatch(
                    chip.permutation_width(),
                    opening.permutation.next.len(),
                ),
            );
        }
        if opening.quotient.len() != chip.quotient_width() {
            return Result::Err(
                OpeningShapeError::QuotientWidthMismatch(
                    chip.quotient_width(),
                    opening.quotient.len(),
                ),
            );
        }
        match Self::first_bad_chunk(fc, &opening.quotient) {
            Option::Some((_, l)) => Result::Err(
                OpeningShapeError::QuotientChunkSizeMismatch(d, l),
            ),
            Option::None => Result::Ok(()),
        }
    }

    /// The first quotient chunk whose arity is not the extension degree.
    fn first_bad_chunk<FC: FieldConfig>(fc: &FC, q: &Vec<Vec<Ext>>) -> (r: Option<(usize, usize)>)
        ensures
            (match r {
                Option::Some((i, l)) => spec_first_bad_chunk(fc, q@, 0) == Option::Some((
                    i as int,
                    l as nat,
                )),
                Option::None => spec_first_bad_chunk(fc, q@, 0) is None,
            }),
    {
        let d = fc.degree();
        let mut k: usize = 0;
        while k < q.len()
            invariant
                k <= q@.len(),
                d as nat == fc.spec_degree(),
                spec_first_bad_chunk(fc, q@, k as nat) == spec_first_bad_chunk(fc, q@, 0),
            decreases q@.len() - k,
        {
            if q[k].len() != d {
                return Option::Some((k, q[k].len()));
            }
            k += 1;
        }
        Option::None
    }

    /// Recombine `quotient(zeta)` from the chunk openings; `None` exactly
    /// when some pairwise denominator has no inverse.
    pub fn recompute_quotient<FC: FieldConfig, P: Pcs<FC>>(
        fc: &FC,
        pcs: &P,
        opening: &ChipOpenedValues,
        qc_domains: &Vec<Domain>,
        zeta: &Ext,
    ) -> (r: Option<Ext>)
        requires
            zeta@.len() == fc.spec_degree(),
            opening.quotient@.len() == qc_domains@.len(),
            forall|i: int|
                0 <= i < opening.quotient@.len() ==> (#[trigger] opening.quotient@[i])@.len()
                    == fc.spec_degree(),
            forall|i: int|
                0 <= i < opening.quotient@.len() ==> wf_ext_seq(
                    fc,
                    #[trigger] opening.quotient@[i].deep_view(),
                ),
        ensures
            (r is Some) == spec_domains_invertible(fc, pcs, qc_domains@),
            (match r {
                Option::Some(v) => v@ == spec_recompute_quotient(
                    fc,
                    pcs,
                    opening.quotient@,
                    qc_domains@,
                    zeta@,
                ) && v@.len() == fc.spec_degree(),
                Option::None => true,
            }),
    {
        proof {
            fc.lemma_op_shapes();
            pcs.lemma_pcs_shapes(fc);
        }
        let n = qc_domains.len();
        let mut zps: Vec<Ext> = Vec::new();
        let mut i: usize = 0;
        while i < n
            invariant
                i <= n,
                n as nat == qc_domains@.len(),
                zeta@.len() == fc.spec_degree(),
                zps@.len() == i as nat,
                forall|a: int|
                    0 <= a < i ==> zps.deep_view()[a] == spec_zps_prod(
                        fc,
                        pcs,
                        qc_domains@,
                        zeta@,
                        a,
                        qc_domains@.len(),
                    ),
                forall|a: int, b: int|
                    0 <= a < i && 0 <= b < n && a != b ==> fc.spec_has_inverse(
                        #[trigger] pcs.spec_zp_at_point(
                            fc,
                            qc_domains@[b],
                            pcs.spec_first_point(fc, qc_domains@[a]),
                        ),
                    ),
            decreases n - i,
        {
            proof {
                fc.lemma_op_shapes();
                pcs.lemma_pcs_shapes(fc);
            }
            let first_i = pcs.first_point(fc, &qc_domains[i]);
            let mut acc: Ext = fc.one();
            let mut j: usize = 0;
            while j < n
                invariant
                    j <= n,
                    i < n,
                    n as nat == qc_domains@.len(),
                    zeta@.len() == fc.spec_degree(),
                    first_i@ == pcs.spec_first_point(fc, qc_domains@[i as int]),
                    first_i@.len() == fc.spec_degree(),
                    acc@ == spec_zps_prod(fc, pcs, qc_domains@, zeta@, i as int, j as nat),
                    acc@.len() == fc.spec_degree(),
                    forall|b: int|
                        0 <= b < j && b != i ==> fc.spec_has_inverse(
                            #[trigger] pcs.spec_zp_at_point(
                                fc,
                                qc_domains@[b],
                                pcs.spec_first_point(fc, qc_domains@[i as int]),
                            ),
                        ),
                decreases n - j,
            {
                proof {
                    fc.lemma_op_shapes();
                    pcs.lemma_pcs_shapes(fc);
                }
                if j != i {
                    let zp_zeta = pcs.zp_at_point(fc, &qc_domains[j], zeta);
                    let zp_first = pcs.zp_at_point(fc, &qc_domains[j], &first_i);
                    match fc.try_inverse(&zp_first) {
                        Option::Some(inv) => {
                            let term = fc.mul(&zp_zeta, &inv);
                            acc = fc.mul(&acc, &term);
                        },
                        Option::None => {
                            proof {
                                assert(!fc.spec_has_inverse(
                                    pcs.spec_zp_at_point(
                                        fc,
                                        qc_domains@[j as int],
                                        pcs.spec_first_point(fc, qc_domains@[i as int]),
                                    ),
                                ));
                            }
                            return Option::None;
                        },
                    }
                }
                j += 1;
            }
            let ghost prezps: Seq<Seq<u64>> = zps.deep_view();
            zps.push(acc);
            proof {
                assert forall|a: int|
                    0 <= a < i + 1 implies zps.deep_view()[a] == spec_zps_prod(
                    fc,
                    pcs,
                    qc_domains@,
                    zeta@,
                    a,
                    qc_domains@.len(),
                ) by {
                    if a < i {
                        assert(zps.deep_view()[a] == prezps[a]);
                    } else {
                        assert(zps.deep_view()[a] == acc.deep_view());
                    }
                }
            }
            i += 1;
        }
        // all pairwise denominators were invertible
        proof {
            assert forall|a: int| 0 <= a < n implies (#[trigger] zps@[a])@.len()
                == fc.spec_degree() by {
                lemma_zps_prod_len(fc, pcs, qc_domains@, zeta@, a, qc_domains@.len());
                assert(zps.deep_view()[a] == zps@[a]@);
            }
        }
        let mut q: Ext = fc.zero();
        let mut c: usize = 0;
        let d = fc.degree();
        while c < n
            invariant
                c <= n,
                n as nat == qc_domains@.len(),
                n as nat == opening.quotient@.len(),
                d as nat == fc.spec_degree(),
                zeta@.len() == fc.spec_degree(),
                zps@.len() == n as nat,
                forall|a: int|
                    0 <= a < n ==> (#[trigger] zps.deep_view()[a]) == spec_zps_prod(
                        fc,
                        pcs,
                        qc_domains@,
                        zeta@,
                        a,
                        qc_domains@.len(),
                    ),
                forall|a: int|
                    0 <= a < n ==> (#[trigger] zps@[a])@.len() == fc.spec_degree(),
                forall|a: int|
                    0 <= a < opening.quotient@.len() ==> (#[trigger] opening.quotient@[a])@.len()
                        == fc.spec_degree(),
                forall|a: int|
                    0 <= a < opening.quotient@.len() ==> wf_ext_seq(
                        fc,
                        #[trigger] opening.quotient@[a].deep_view(),
                    ),
                q@ == spec_quotient_partial(fc, pcs, opening.quotient@, qc_domains@, zeta@, c as nat),
                q@.len() == fc.spec_degree(),
            decreases n - c,
        {
            proof {
                fc.lemma_op_shapes();
            }
            // sum_{e < d} monomial(e) * chunk[e]
            let chunk = &opening.quotient[c];
            let mut inner: Ext = fc.zero();
            let mut e: usize = 0;
            while e < d
                invariant
                    e <= d,
                    d as nat == fc.spec_degree(),
                    c < opening.quotient@.len(),
                    chunk@ == opening.quotient@[c as int]@,
                    chunk@.len() == fc.spec_degree(),
                    wf_ext_seq(fc, chunk.deep_view()),
                    inner@ == spec_lin_comb(fc, chunk.deep_view(), 0, e as nat),
                    inner@.len() == fc.spec_degree(),
                decreases d - e,
            {
                proof {
                    fc.lemma_op_shapes();
                    assert(chunk.deep_view()[e as int] == chunk@[e as int]@);
                }
                let m = fc.monomial(e);
                let t = fc.mul(&m, &chunk[e]);
                inner = fc.add(&inner, &t);
                e += 1;
            }
            proof {
                assert(chunk.deep_view() =~= opening.quotient@[c as int].deep_view());
                assert(zps.deep_view()[c as int] == zps@[c as int]@);
            }
            let term = fc.mul(&zps[c], &inner);
            q = fc.add(&q, &term);
            c += 1;
        }
        Option::Some(q)
    }

    /// Unflatten a vector of base-coefficient openings into extension
    /// elements by the monomial basis.
    fn unflatten<FC: FieldConfig>(fc: &FC, v: &Vec<Ext>) -> (r: Vec<Ext>)
        requires
            wf_ext_seq(fc, v.deep_view()),
        ensures
            r.deep_view() == spec_unflatten(fc, v.deep_view()),
            r@.len() == v@.len() / fc.spec_degree(),
            wf_ext_seq(fc, r.deep_view()),
    {
        proof {
            fc.lemma_op_shapes();
        }
        let d = fc.degree();
        let vl = v.len();
        let n = vl / d;
        let mut r: Vec<Ext> = Vec::new();
        let mut k: usize = 0;
        proof {
            lemma_fundamental_div_mod(v@.len() as int, d as int);
            assert(vl as nat == v@.len());
        }
        while k < n
            invariant
                k <= n,
                d as nat == fc.spec_degree(),
                d >= 1,
                n as nat == v@.len() / (d as nat),
                (n as int) * (d as int) <= v@.len() as int,
                v@.len() <= usize::MAX as nat,
                wf_ext_seq(fc, v.deep_view()),
                r@.len() == k as nat,
                forall|a: int|
                    0 <= a < k ==> r.deep_view()[a] == spec_unflatten(fc, v.deep_view())[a],
            decreases n - k,
        {
            proof {
                fc.lemma_op_shapes();
                lemma_mul_inequality((k + 1) as int, n as int, d as int);
                lemma_mul_is_distributive_add_other_way(d as int, k as int, 1);
                assert((k as int) * (d as int) + d <= v@.len() as int);
            }
            let mut acc: Ext = fc.zero();
            let mut e: usize = 0;
            while e < d
                invariant
                    e <= d,
                    d as nat == fc.spec_degree(),
                    k < n,
                    (k as int) * (d as int) + d <= v@.len() as int,
                    v@.len() <= usize::MAX as nat,
                    wf_ext_seq(fc, v.deep_view()),
                    acc@ == spec_lin_comb(fc, v.deep_view(), (k as int) * (d as int), e as nat),
                    acc@.len() == fc.spec_degree(),
                decreases d - e,
            {
                proof {
                    fc.lemma_op_shapes();
                    assert(v.deep_view()[(k as int) * (d as int) + e] == v@[(k as int) * (d as int)
                        + e]@);
                }
                let m = fc.monomial(e);
                let idx = k * d + e;
                let t = fc.mul(&m, &v[idx]);
                acc = fc.add(&acc, &t);
                e += 1;
            }
            let ghost pre: Seq<Seq<u64>> = r.deep_view();
            r.push(acc);
            proof {
                assert forall|a: int|
                    0 <= a < k + 1 implies r.deep_view()[a] == spec_unflatten(fc, v.deep_view())[a] by {
                    if a < k {
                        assert(r.deep_view()[a] == pre[a]);
                    } else {
                        assert(r.deep_view()[a] == acc.deep_view());
                    }
                }
            }
            k += 1;
        }
        proof {
            assert(r.deep_view() =~= spec_unflatten(fc, v.deep_view()));
            assert forall|a: int|
                0 <= a < r.deep_view().len() implies (#[trigger] r.deep_view()[a]).len()
                == fc.spec_degree() by {
                lemma_lin_comb_len(fc, v.deep_view(), a * (fc.spec_degree() as int), fc.spec_degree());
            }
        }
        r
    }

    /// Evaluate a chip's folded constraints at the opening: build the folder
    /// with unflattened permutation openings and a zero accumulator, and let
    /// the chip fold its constraints.
    pub fn eval_constraints<FC: FieldConfig, C: Chip<FC>>(
        fc: &FC,
        chip: &C,
        opening: &ChipOpenedValues,
        selectors: &LagrangeSelectors,
        alpha: &Ext,
        permutation_challenges: &Vec<Ext>,
        public_values: &Vec<u64>,
    ) -> (r: Ext)
        requires
            spec_shape_error(fc, *chip, *opening) is None,
            wf_opening(fc, *opening),
            wf_selectors(fc, selectors@),
            alpha@.len() == fc.spec_degree(),
            wf_ext_seq(fc, permutation_challenges.deep_view()),
        ensures
            r@ == spec_eval_constraints(
                fc,
                *chip,
                *opening,
                selectors@,
                alpha@,
                permutation_challenges.deep_view(),
                public_values@,
            ),
            r@.len() == fc.spec_degree(),
    {
        proof {
            fc.lemma_op_shapes();
        }
        let perm_local = Self::unflatten(fc, &opening.permutation.local);
        let perm_next = Self::unflatten(fc, &opening.permutation.next);
        proof {
            // the unflattened permutation openings have the declared width
            lemma_div_multiples_vanish(
                chip.spec_permutation_width() as int,
                fc.spec_degree() as int,
            );
        }
        let mut folder = ConstraintFolder {
            preprocessed: AirOpenedValues {
                local: copy_exts(&opening.preprocessed.local),
                next: copy_exts(&opening.preprocessed.next),
            },
            main: AirOpenedValues {
                local: copy_exts(&opening.main.local),
                next: copy_exts(&opening.main.next),
            },
            perm: AirOpenedValues { local: perm_local, next: perm_next },
            perm_challenges: copy_exts(permutation_challenges),
            cumulative_sum: copy_felts(&opening.cumulative_sum),
            is_first_row: copy_felts(&selectors.is_first_row),
            is_last_row: copy_felts(&selectors.is_last_row),
            is_transition: copy_felts(&selectors.is_transition),
            alpha: copy_felts(alpha),
            accumulator: fc.zero(),
            public_values: copy_felts(public_values),
        };
        proof {
            let expected = FolderModel {
                preprocessed: opening.preprocessed@,
                main: opening.main@,
                perm: AirModel {
                    local: spec_unflatten(fc, opening.permutation.local.deep_view()),
                    next: spec_unflatten(fc, opening.permutation.next.deep_view()),
                },
                perm_challenges: permutation_challenges.deep_view(),
                cumulative_sum: opening.cumulative_sum@,
                is_first_row: selectors@.is_first_row,
                is_last_row: selectors@.is_last_row,
                is_transition: selectors@.is_transition,
                alpha: alpha@,
                accumulator: fc.spec_zero(),
                public_values: public_values@,
            };
            assert(folder@ == expected);
        }
        chip.eval(fc, &mut folder);
        let r = folder.accumulator;
        r
    }

    /// Check the out-of-domain identity for one chip:
    /// `folded_constraints(zeta) * inv_zeroifier == quotient(zeta)`; `Ok`
    /// exactly when the identity holds.
    pub fn verify_constraints<FC: FieldConfig, C: Chip<FC>, P: Pcs<FC>>(
        fc: &FC,
        pcs: &P,
        chip: &C,
        opening: &ChipOpenedValues,
        trace_domain: &Domain,
        qc_domains: &Vec<Domain>,
        zeta: &Ext,
        alpha: &Ext,
        permutation_challenges: &Vec<Ext>,
        public_values: &Vec<u64>,
    ) -> (r: Result<(), OodEvaluationMismatch>)
        requires
            spec_shape_error(fc, *chip, *opening) is None,
            wf_opening(fc, *opening),
            zeta@.len() == fc.spec_degree(),
            alpha@.len() == fc.spec_degree(),
            wf_ext_seq(fc, permutation_challenges.deep_view()),
            opening.quotient@.len() == qc_domains@.len(),
            spec_domains_invertible(fc, pcs, qc_domains@),
            *trace_domain == pcs.spec_natural_domain(pow2(opening.log_degree as nat)),
            qc_domains@ == spec_qc_domains(fc, pcs, *chip, *opening),
        ensures
            (r is Ok) == spec_chip_ood_ok(
                fc,
                pcs,
                *chip,
                *opening,
                zeta@,
                alpha@,
                permutation_challenges.deep_view(),
                public_values@,
            ),
    {
        proof {
            fc.lemma_op_shapes();
            pcs.lemma_pcs_shapes(fc);
            lemma_no_bad_chunk(fc, opening.quotient@, 0);
        }
        let sels = pcs.selectors_at_point(fc, trace_domain, zeta);
        let quotient = match Self::recompute_quotient(fc, pcs, opening, qc_domains, zeta) {
            Option::Some(q) => q,
            Option::None => {
                proof {
                    assert(false);
                }
                fc.zero()
            },
        };
        let folded_constraints = Self::eval_constraints(
            fc,
            chip,
            opening,
            &sels,
            alpha,
            permutation_challenges,
            public_values,
        );
        let lhs = fc.mul(&folded_constraints, &sels.inv_zeroifier);
        if felts_eq(&lhs, &quotient) {
            Result::Ok(())
        } else {
            Result::Err(OodEvaluationMismatch)
        }
    }
}

/// A linear combination of extension elements is an extension element.
pub proof fn lemma_lin_comb_len<FC: FieldConfig>(fc: &FC, v: Seq<Seq<u64>>, start: int, cnt: nat)
    ensures
        spec_lin_comb(fc, v, start, cnt).len() == fc.spec_degree(),
    decreases cnt,
{
    fc.lemma_op_shapes();
    if cnt > 0 {
        lemma_lin_comb_len(fc, v, start, (cnt - 1) as nat);
    }
}

/// The challenge schedule of a shard: two permutation challenges, then
/// observe the permutation commitment, sample alpha, observe the quotient
/// commitment, sample zeta. The main commitment was observed before entry.
pub open spec fn spec_challenges<FC: FieldConfig>(
    fc: &FC,
    st0: ChalState,
    perm_commit: Seq<u64>,
    quotient_commit: Seq<u64>,
) -> (Seq<u64>, Seq<u64>, Seq<u64>, Seq<u64>, ChalState) {
    let (pc1, st1) = spec_sample_ext(fc, st0);
    let (pc2, st2) = spec_sample_ext(fc, st1);
    let st3 = spec_observe_many(fc, st2, perm_commit);
    let (alpha, st4) = spec_sample_ext(fc, st3);
    let st5 = spec_observe_many(fc, st4, quotient_commit);
    let (zeta, st6) = spec_sample_ext(fc, st5);
    (pc1, pc2, alpha, zeta, st6)
}

/// A batch entry opening a matrix at `zeta` and at the domain's next point.
pub open spec fn spec_two_point_opens(
    domain: Domain,
    zeta: Seq<u64>,
    nextp: Seq<u64>,
    loc: Seq<Seq<u64>>,
    nxt: Seq<Seq<u64>>,
) -> DomainOpeningsModel {
    DomainOpeningsModel {
        domain,
        openings: seq![
            PointOpeningModel { point: zeta, values: loc },
            PointOpeningModel { point: nextp, values: nxt },
        ],
    }
}

/// The first `k` entries of the preprocessed batch: one per verifying-key
/// chip entry, at its own domain, looked up through the proof's ordering.
pub open spec fn spec_preproc_opens<FC: FieldConfig, P: Pcs<FC>>(
    fc: &FC,
    pcs: &P,
    vk: &StarkVerifyingKey,
    proof: &ShardProof,
    zeta: Seq<u64>,
    k: nat,
) -> Seq<DomainOpeningsModel>
    decreases k,
{
    if k == 0 {
        Seq::empty()
    } else {
        let prev = spec_preproc_opens(fc, pcs, vk, proof, zeta, (k - 1) as nat);
        let e = vk.chip_information@[k - 1];
        match spec_lookup(proof.chip_ordering@, e.name@) {
            Option::Some(i) => prev.push(
                spec_two_point_opens(
                    e.domain,
                    zeta,
                    pcs.spec_next_point(fc, e.domain, zeta),
                    proof.opened_values.chips@[i].preprocessed.local.deep_view(),
                    proof.opened_values.chips@[i].preprocessed.next.deep_view(),
                ),
            ),
            Option::None => prev.push(
                DomainOpeningsModel { domain: e.domain, openings: Seq::empty() },
            ),
        }
    }
}

/// The first `k` entries of the main batch: one per chip, on its trace
/// domain.
pub open spec fn spec_main_opens<FC: FieldConfig, P: Pcs<FC>>(
    fc: &FC,
    pcs: &P,
    opened: Seq<ChipOpenedValues>,
    zeta: Seq<u64>,
    k: nat,
) -> Seq<DomainOpeningsModel>
    decreases k,
{
    if k == 0 {
        Seq::empty()
    } else {
        let prev = spec_main_opens(fc, pcs, opened, zeta, (k - 1) as nat);
        let o = opened[k - 1];
        let td = pcs.spec_natural_domain(pow2(o.log_degree as nat));
        prev.push(
            spec_two_point_opens(
                td,
                zeta,
                pcs.spec_next_point(fc, td, zeta),
                o.main.local.deep_view(),
                o.main.next.deep_view(),
            ),
        )
    }
}

/// The first `k` entries of the permutation batch.
pub open spec fn spec_perm_opens<FC: FieldConfig, P: Pcs<FC>>(
    fc: &FC,
    pcs: &P,
    opened: Seq<ChipOpenedValues>,
    zeta: Seq<u64>,
    k: nat,
) -> Seq<DomainOpeningsModel>
    decreases k,
{
    if k == 0 {
        Seq::empty()
    } else {
        let prev = spec_perm_opens(fc, pcs, opened, zeta, (k - 1) as nat);
        let o = opened[k - 1];
        let td = pcs.spec_natural_domain(pow2(o.log_degree as nat));
        prev.push(
            spec_two_point_opens(
                td,
                zeta,
                pcs.spec_next_point(fc, td, zeta),
                o.permutation.local.deep_view(),
                o.permutation.next.deep_view(),
            ),
        )
    }
}

/// One chip's quotient batch entries: each chunk opened only at `zeta` on
/// its own chunk domain.
pub open spec fn spec_chip_quotient_opens<FC: FieldConfig, C: Chip<FC>, P: Pcs<FC>>(
    fc: &FC,
    pcs: &P,
    chip: C,
    o: ChipOpenedValues,
    zeta: Seq<u64>,
) -> Seq<DomainOpeningsModel> {
    let qcd = spec_qc_domains(fc, pcs, chip, o);
    Seq::new(
        o.quotient@.len(),
        |c: int| DomainOpeningsModel {
            domain: qcd[c],
            openings: seq![
                PointOpeningModel { point: zeta, values: o.quotient@[c].deep_view() },
            ],
        },
    )
}

/// The quotient batch of the first `k` chips, flattened chip by chip.
pub open spec fn spec_quotient_opens<FC: FieldConfig, C: Chip<FC>, P: Pcs<FC>>(
    fc: &FC,
    pcs: &P,
    chips: Seq<C>,
    opened: Seq<ChipOpenedValues>,
    zeta: Seq<u64>,
    k: nat,
) -> Seq<DomainOpeningsModel>
    decreases k,
{
    if k == 0 {
        Seq::empty()
    } else {
        spec_quotient_opens(fc, pcs, chips, opened, zeta, (k - 1) as nat)
            + spec_chip_quotient_opens(fc, pcs, chips[k - 1], opened[k - 1], zeta)
    }
}

/// The four rounds handed to the polynomial-commitment scheme, in order:
/// preprocessed, main, permutation, quotient.
pub open spec fn spec_rounds<FC: FieldConfig, C: Chip<FC>, P: Pcs<FC>>(
    fc: &FC,
    pcs: &P,
    vk: &StarkVerifyingKey,
    chips: Seq<C>,
    proof: &ShardProof,
    zeta: Seq<u64>,
) -> Seq<RoundModel> {
    let opened = proof.opened_values.chips@;
    seq![
        RoundModel {
            commitment: vk.commit@,
            openings: spec_preproc_opens(fc, pcs, vk, proof, zeta, vk.chip_information@.len()),
        },
        RoundModel {
            commitment: proof.commitment.main_commit@,
            openings: spec_main_opens(fc, pcs, opened, zeta, opened.len()),
        },
        RoundModel {
            commitment: proof.commitment.permutation_commit@,
            openings: spec_perm_opens(fc, pcs, opened, zeta, opened.len()),
        },
        RoundModel {
            commitment: proof.commitment.quotient_commit@,
            openings: spec_quotient_opens(fc, pcs, chips, opened, zeta, chips.len()),
        },
    ]
}

/// The first chip, from `k` on, whose opening violates a shape rule.
pub open spec fn spec_first_shape_error<FC: FieldConfig, C: Chip<FC>>(
    fc: &FC,
    chips: Seq<C>,
    opened: Seq<ChipOpenedValues>,
    k: nat,
) -> Option<(int, OpeningShapeError)>
    decreases chips.len() - k,
{
    if k >= chips.len() {
        Option::None
    } else {
        match spec_shape_error(fc, chips[k as int], opened[k as int]) {
            Option::Some(e) => Option::Some((k as int, e)),
            Option::None => spec_first_shape_error(fc, chips, opened, (k + 1) as nat),
        }
    }
}

/// The first chip, from `k` on, whose out-of-domain identity fails.
pub open spec fn spec_first_ood_failure<FC: FieldConfig, C: Chip<FC>, P: Pcs<FC>>(
    fc: &FC,
    pcs: &P,
    chips: Seq<C>,
    opened: Seq<ChipOpenedValues>,
    zeta: Seq<u64>,
    alpha: Seq<u64>,
    perm_challenges: Seq<Seq<u64>>,
    public_values: Seq<u64>,
    k: nat,
) -> Option<int>
    decreases chips.len() - k,
{
    if k >= chips.len() {
        Option::None
    } else if !spec_chip_ood_ok(
        fc,
        pcs,
        chips[k as int],
        opened[k as int],
        zeta,
        alpha,
        perm_challenges,
        public_values,
    ) {
        Option::Some(k as int)
    } else {
        spec_first_ood_failure(
            fc,
            pcs,
            chips,
            opened,
            zeta,
            alpha,
            perm_challenges,
            public_values,
            (k + 1) as nat,
        )
    }
}

/// The verdict of the shard verifier, as a mathematical outcome.
pub ghost enum VerifyOutcome {
    Accept,
    RejectLength,
    RejectShape { chip: Seq<char>, err: OpeningShapeError },
    RejectOpening,
    RejectOod { chip: Seq<char> },
}

/// Whether an executable result reports exactly the given outcome.
pub open spec fn outcome_matches(r: Result<(), VerificationError>, o: VerifyOutcome) -> bool {
    match o {
        VerifyOutcome::Accept => r is Ok,
        VerifyOutcome::RejectLength => match r {
            Result::Err(VerificationError::ChipOpeningLengthMismatch) => true,
            _ => false,
        },
        VerifyOutcome::RejectOpening => match r {
            Result::Err(VerificationError::InvalidOpeningArgument(_)) => true,
            _ => false,
        },
        VerifyOutcome::RejectShape { chip, err } => match r {
            Result::Err(VerificationError::OpeningShapeError(s, e)) => s@ == chip && e == err,
            _ => false,
        },
        VerifyOutcome::RejectOod { chip } => match r {
            Result::Err(VerificationError::OodEvaluationMismatch(s)) => s@ == chip,
            _ => false,
        },
    }
}

/// The whole verifier as a function of its inputs: the chip count check,
/// the challenge schedule, the shape rules of every chip (checked before
/// the commitment scheme is consulted), the scheme's verdict on the four
/// batches, and the per-chip out-of-domain identity.
pub open spec fn spec_verify_shard<FC: FieldConfig, C: Chip<FC>, P: Pcs<FC>>(
    fc: &FC,
    pcs: &P,
    vk: &StarkVerifyingKey,
    chips: Seq<C>,
    st0: ChalState,
    proof: &ShardProof,
) -> VerifyOutcome {
    let opened = proof.opened_values.chips@;
    if chips.len() != opened.len() {
        VerifyOutcome::RejectLength
    } else {
        let (pc1, pc2, alpha, zeta, st) = spec_challenges(
            fc,
            st0,
            proof.commitment.permutation_commit@,
            proof.commitment.quotient_commit@,
        );
        match spec_first_shape_error(fc, chips, opened, 0) {
            Option::Some((i, e)) => VerifyOutcome::RejectShape { chip: chips[i].spec_name(), err: e },
            Option::None => {
                if !pcs.spec_verify_ok(
                    fc,
                    spec_rounds(fc, pcs, vk, chips, proof, zeta),
                    proof.opening_proof.data@,
                    st,
                ) {
                    VerifyOutcome::RejectOpening
                } else {
                    match spec_first_ood_failure(
                        fc,
                        pcs,
                        chips,
                        opened,
                        zeta,
                        alpha,
                        seq![pc1, pc2],
                        proof.public_values@,
                        0,
                    ) {
                        Option::Some(i) => VerifyOutcome::RejectOod { chip: chips[i].spec_name() },
                        Option::None => VerifyOutcome::Accept,
                    }
                }
            },
        }
    }
}

/// The transcript verify_shard leaves behind, as a function of its inputs.
pub open spec fn spec_final_transcript<FC: FieldConfig, C: Chip<FC>, P: Pcs<FC>>(
    fc: &FC,
    pcs: &P,
    vk: &StarkVerifyingKey,
    chips: Seq<C>,
    st0: ChalState,
    proof: &ShardProof,
) -> ChalState {
    let opened = proof.opened_values.chips@;
    if chips.len() != opened.len() {
        st0
    } else {
        let (pc1, pc2, alpha, zeta, st) = spec_challenges(
            fc,
            st0,
            proof.commitment.permutation_commit@,
            proof.commitment.quotient_commit@,
        );
        match spec_first_shape_error(fc, chips, opened, 0) {
            Option::Some(_) => st,
            Option::None => pcs.spec_verify_state(
                fc,
                spec_rounds(fc, pcs, vk, chips, proof, zeta),
                proof.opening_proof.data@,
                st,
            ),
        }
    }
}

/// Every opening of the proof carries extension elements of the configured
/// degree.
pub open spec fn spec_proof_wf<FC: FieldConfig>(fc: &FC, proof: &ShardProof) -> bool {
    forall|i: int|
        0 <= i < proof.opened_values.chips@.len() ==> wf_opening(
            fc,
            #[trigger] proof.opened_values.chips@[i],
        )
}

/// Every chip named by the verifying key is bound to a valid opening index
/// by the proof's chip ordering.
pub open spec fn spec_ordering_ok(vk: &StarkVerifyingKey, proof: &ShardProof) -> bool {
    forall|k: int|
        0 <= k < vk.chip_information@.len() ==> match spec_lookup(
            proof.chip_ordering@,
            (#[trigger] vk.chip_information@[k]).name@,
        ) {
            Option::Some(i) => 0 <= i < proof.opened_values.chips@.len(),
            Option::None => false,
        }
}

/// The machine limits the verifier relies on: the quotient domains and the
/// flattened permutation widths fit a `usize`.
pub open spec fn spec_sizes_ok<FC: FieldConfig, C: Chip<FC>>(
    fc: &FC,
    chips: Seq<C>,
    opened: Seq<ChipOpenedValues>,
) -> bool {
    &&& forall|i: int|
        0 <= i < chips.len() ==> pow2(
            (#[trigger] opened[i]).log_degree as nat + chips[i].spec_log_quotient_degree(),
        ) <= usize::MAX as nat
    &&& forall|i: int|
        0 <= i < chips.len() ==> (#[trigger] chips[i]).spec_permutation_width() * fc.spec_degree()
            <= usize::MAX as nat
}

/// `pow2` is monotone.
proof fn lemma_pow2_le(a: nat, b: nat)
    requires
        a <= b,
    ensures
        pow2(a) <= pow2(b),
{
    if a < b {
        vstd::arithmetic::power2::lemma_pow2_strictly_increases(a, b);
    }
}

/// `pow2` exceeds its exponent.
proof fn lemma_pow2_exceeds(e: nat)
    ensures
        e < pow2(e),
    decreases e,
{
    vstd::arithmetic::power2::lemma2_to64();
    if e > 0 {
        lemma_pow2_exceeds((e - 1) as nat);
        vstd::arithmetic::power2::lemma_pow2_unfold(e);
    }
}

/// The models of a built batch, entry by entry.
pub open spec fn dom_opens_model(s: Seq<DomainOpenings>) -> Seq<DomainOpeningsModel> {
    Seq::new(s.len(), |i: int| s[i]@)
}

/// A prefix of shape-sound chips does not change the first violation found.
proof fn lemma_first_shape_skip<FC: FieldConfig, C: Chip<FC>>(
    fc: &FC,
    chips: Seq<C>,
    opened: Seq<ChipOpenedValues>,
    k: nat,
)
    requires
        k <= chips.len(),
        forall|m: int|
            0 <= m < k ==> spec_shape_error(fc, chips[m], #[trigger] opened[m]) is None,
    ensures
        spec_first_shape_error(fc, chips, opened, 0) == spec_first_shape_error(fc, chips, opened, k),
    decreases k,
{
    if k > 0 {
        lemma_first_shape_skip(fc, chips, opened, (k - 1) as nat);
    }
}

/// A prefix of passing chips does not change the first identity failure.
proof fn lemma_first_ood_skip<FC: FieldConfig, C: Chip<FC>, P: Pcs<FC>>(
    fc: &FC,
    pcs: &P,
    chips: Seq<C>,
    opened: Seq<ChipOpenedValues>,
    zeta: Seq<u64>,
    alpha: Seq<u64>,
    perm_challenges: Seq<Seq<u64>>,
    public_values: Seq<u64>,
    k: nat,
)
    requires
        k <= chips.len(),
        forall|m: int|
            0 <= m < k ==> spec_chip_ood_ok(
                fc,
                pcs,
                chips[m],
                #[trigger] opened[m],
                zeta,
                alpha,
                perm_challenges,
                public_values,
            ),
    ensures
        spec_first_ood_failure(fc, pcs, chips, opened, zeta, alpha, perm_challenges, public_values, 0)
            == spec_first_ood_failure(
            fc,
            pcs,
            chips,
            opened,
            zeta,
            alpha,
            perm_challenges,
            public_values,
            k,
        ),
    decreases k,
{
    if k > 0 {
        lemma_first_ood_skip(
            fc,
            pcs,
            chips,
            opened,
            zeta,
            alpha,
            perm_challenges,
            public_values,
            (k - 1) as nat,
        );
    }
}

/// If any chip violates a shape rule, the scan finds one.
proof fn lemma_first_shape_finds<FC: FieldConfig, C: Chip<FC>>(
    fc: &FC,
    chips: Seq<C>,
    opened: Seq<ChipOpenedValues>,
    k: nat,
    i: int,
)
    requires
        k <= i < chips.len(),
        spec_shape_error(fc, chips[i], opened[i]) is Some,
    ensures
        spec_first_shape_error(fc, chips, opened, k) is Some,
    decreases i - k,
{
    if (k as int) < i {
        if spec_shape_error(fc, chips[k as int], opened[k as int]) is None {
            lemma_first_shape_finds(fc, chips, opened, (k + 1) as nat, i);
        }
    }
}

/// What the scan reports is a real violation.
proof fn lemma_first_shape_sound<FC: FieldConfig, C: Chip<FC>>(
    fc: &FC,
    chips: Seq<C>,
    opened: Seq<ChipOpenedValues>,
    k: nat,
)
    ensures
        match spec_first_shape_error(fc, chips, opened, k) {
            Option::Some((j, e)) => k <= j < chips.len() && spec_shape_error(fc, chips[j], opened[j])
                == Option::Some(e),
            Option::None => true,
        },
    decreases chips.len() - k,
{
    if k < chips.len() {
        if spec_shape_error(fc, chips[k as int], opened[k as int]) is None {
            lemma_first_shape_sound(fc, chips, opened, (k + 1) as nat);
        }
    }
}

/// Shape totality: when the chip counts agree and any chip's opening
/// violates any of the five shape rules, the verifier's outcome is that
/// chip's shape error — the verdict of the polynomial-commitment scheme is
/// never consulted.
pub proof fn lemma_shape_totality<FC: FieldConfig, C: Chip<FC>, P: Pcs<FC>>(
    fc: &FC,
    pcs: &P,
    vk: &StarkVerifyingKey,
    chips: Seq<C>,
    st0: ChalState,
    proof: &ShardProof,
)
    requires
        chips.len() == proof.opened_values.chips@.len(),
        exists|i: int|
            0 <= i < chips.len() && spec_shape_error(
                fc,
                chips[i],
                #[trigger] proof.opened_values.chips@[i],
            ) is Some,
    ensures
        match spec_verify_shard(fc, pcs, vk, chips, st0, proof) {
            VerifyOutcome::RejectShape { chip, err } => exists|j: int|
                #![auto]
                0 <= j < chips.len() && chips[j].spec_name() == chip && spec_shape_error(
                    fc,
                    chips[j],
                    proof.opened_values.chips@[j],
                ) == Option::Some(err),
            _ => false,
        },
{
    let opened = proof.opened_values.chips@;
    let i = choose|i: int|
        0 <= i < chips.len() && spec_shape_error(fc, chips[i], #[trigger] opened[i]) is Some;
    lemma_first_shape_finds(fc, chips, opened, 0, i);
    lemma_first_shape_sound(fc, chips, opened, 0);
    let (j, e) = spec_first_shape_error(fc, chips, opened, 0)->Some_0;
    assert(0 <= j < chips.len() && chips[j].spec_name() == chips[j].spec_name()
        && spec_shape_error(fc, chips[j], opened[j]) == Option::Some(e));
}

/// Two rejections that report the same outcome agree on everything but the
/// identity of the `String` values they carry.
pub open spec fn errors_equivalent(e1: VerificationError, e2: VerificationError) -> bool {
    match (e1, e2) {
        (
            VerificationError::InvalidOpeningArgument(_),
            VerificationError::InvalidOpeningArgument(_),
        ) => true,
        (
            VerificationError::OodEvaluationMismatch(s1),
            VerificationError::OodEvaluationMismatch(s2),
        ) => s1@ == s2@,
        (
            VerificationError::OpeningShapeError(s1, x1),
            VerificationError::OpeningShapeError(s2, x2),
        ) => s1@ == s2@ && x1 == x2,
        (VerificationError::MissingCpuChip, VerificationError::MissingCpuChip) => true,
        (
            VerificationError::ChipOpeningLengthMismatch,
            VerificationError::ChipOpeningLengthMismatch,
        ) => true,
        _ => false,
    }
}

/// Verifier determinism: any two results that match the same outcome agree —
/// `verify_shard` pins its result to `spec_verify_shard`, a function of the
/// verifying key, chips, initial transcript and proof alone.
pub proof fn lemma_verifier_deterministic(
    r1: Result<(), VerificationError>,
    r2: Result<(), VerificationError>,
    o: VerifyOutcome,
)
    requires
        outcome_matches(r1, o),
        outcome_matches(r2, o),
    ensures
        r1 is Ok <==> r2 is Ok,
        (r1 is Err && r2 is Err) ==> errors_equivalent(r1->Err_0, r2->Err_0),
{
}

impl Verifier {
    /// Build a batch entry opening a matrix at `zeta` and at `nextp`.
    fn two_point_openings(domain: Domain, zeta: &Ext, nextp: Ext, loc: &Vec<Ext>, nxt: &Vec<Ext>) -> (r:
        DomainOpenings)
        ensures
            r@ == spec_two_point_opens(domain, zeta@, nextp@, loc.deep_view(), nxt.deep_view()),
    {
        let mut openings: Vec<PointOpening> = Vec::new();
        openings.push(PointOpening { point: copy_felts(zeta), values: copy_exts(loc) });
        openings.push(PointOpening { point: nextp, values: copy_exts(nxt) });
        let r = DomainOpenings { domain, openings };
        proof {
            assert(r@.openings =~= spec_two_point_opens(
                domain,
                zeta@,
                nextp@,
                loc.deep_view(),
                nxt.deep_view(),
            ).openings);
        }
        r
    }

    /// Verify a proof for a collection of air chips. The main commitment is
    /// assumed to have been observed before entry; the permutation and
    /// quotient commitments are observed here, in the protocol's order. The
    /// result is exactly `spec_verify_shard` of the inputs.
    pub fn verify_shard<FC: FieldConfig, C: Chip<FC>, P: Pcs<FC>>(
        config: &FC,
        pcs: &P,
        vk: &StarkVerifyingKey,
        chips: &Vec<C>,
        challenger: &mut DuplexChallenger,
        proof: &ShardProof,
    ) -> (r: Result<(), VerificationError>)
        requires
            old(challenger).wf(config),
            spec_proof_wf(config, proof),
            spec_ordering_ok(vk, proof),
            spec_sizes_ok(config, chips@, proof.opened_values.chips@),
        ensures
            outcome_matches(
                r,
                spec_verify_shard(config, pcs, vk, chips@, old(challenger).state(), proof),
            ),
            final(challenger).wf(config),
            final(challenger).state() == spec_final_transcript(
                config,
                pcs,
                vk,
                chips@,
                old(challenger).state(),
                proof,
            ),
    {
        proof {
            config.lemma_op_shapes();
            pcs.lemma_pcs_shapes(config);
        }
        let ghost st0: ChalState = challenger.state();
        let ghost opened_g: Seq<ChipOpenedValues> = proof.opened_values.chips@;

        if chips.len() != proof.opened_values.chips.len() {
            return Result::Err(VerificationError::ChipOpeningLengthMismatch);
        }
        let n_chips = chips.len();

        // challenges, in the protocol's order
        let pc1 = challenger.sample_ext_element(config);
        let pc2 = challenger.sample_ext_element(config);
        challenger.observe_digest(config, &proof.commitment.permutation_commit);
        let alpha = challenger.sample_ext_element(config);
        challenger.observe_digest(config, &proof.commitment.quotient_commit);
        let zeta = challenger.sample_ext_element(config);
        let ghost chs: (Seq<u64>, Seq<u64>, Seq<u64>, Seq<u64>, ChalState) = spec_challenges(
            config,
            st0,
            proof.commitment.permutation_commit@,
            proof.commitment.quotient_commit@,
        );
        proof {
            assert(pc1@ == chs.0 && pc2@ == chs.1 && alpha@ == chs.2 && zeta@ == chs.3
                && challenger.state() == chs.4);
        }
        let mut permutation_challenges: Vec<Ext> = Vec::new();
        permutation_challenges.push(pc1);
        permutation_challenges.push(pc2);
        proof {
            assert(permutation_challenges.deep_view() =~= seq![chs.0, chs.1]);
        }

        // every chip's opening shape, before the commitment scheme runs
        let mut i: usize = 0;
        while i < n_chips
            invariant
                i <= n_chips,
                n_chips as nat == chips@.len(),
                chips@.len() == opened_g.len(),
                opened_g == proof.opened_values.chips@,
                spec_sizes_ok(config, chips@, opened_g),
                config.spec_degree() >= 1,
                st0 == old(challenger).state(),
                chs == spec_challenges(
                    config,
                    st0,
                    proof.commitment.permutation_commit@,
                    proof.commitment.quotient_commit@,
                ),
                challenger.wf(config),
                challenger.state() == chs.4,
                forall|m: int|
                    0 <= m < i ==> spec_shape_error(config, chips@[m], #[trigger] opened_g[m]) is None,
            decreases n_chips - i,
        {
            proof {
                assert(chips@[i as int].spec_permutation_width() * config.spec_degree()
                    <= usize::MAX as nat);
            }
            match Self::verify_opening_shape(config, &chips[i], &proof.opened_values.chips[i]) {
                Result::Err(e) => {
                    proof {
                        lemma_first_shape_skip(config, chips@, opened_g, i as nat);
                    }
                    return Result::Err(VerificationError::OpeningShapeError(chips[i].name(), e));
                },
                Result::Ok(()) => {},
            }
            i += 1;
        }
        proof {
            lemma_first_shape_skip(config, chips@, opened_g, n_chips as nat);
        }

        // trace domains, one per chip
        let mut trace_domains: Vec<Domain> = Vec::new();
        let mut t: usize = 0;
        while t < n_chips
            invariant
                t <= n_chips,
                n_chips as nat == chips@.len(),
                chips@.len() == opened_g.len(),
                opened_g == proof.opened_values.chips@,
                spec_sizes_ok(config, chips@, opened_g),
                trace_domains@.len() == t as nat,
                st0 == old(challenger).state(),
                chs == spec_challenges(
                    config,
                    st0,
                    proof.commitment.permutation_commit@,
                    proof.commitment.quotient_commit@,
                ),
                challenger.wf(config),
                challenger.state() == chs.4,
                forall|m: int|
                    0 <= m < t ==> trace_domains@[m] == pcs.spec_natural_domain(
                        pow2((#[trigger] opened_g[m]).log_degree as nat),
                    ),
            decreases n_chips - t,
        {
            let ld: usize = proof.opened_values.chips[t].log_degree as usize;
            proof {
                lemma_pow2_le(
                    opened_g[t as int].log_degree as nat,
                    opened_g[t as int].log_degree as nat + chips@[t as int].spec_log_quotient_degree(),
                );
            }
            let sz = pow2_usize(ld);
            let td = pcs.natural_domain_for_degree(sz);
            trace_domains.push(td);
            t += 1;
        }

        // the four opening batches
        let mut preproc: Vec<DomainOpenings> = Vec::new();
        let mut k: usize = 0;
        proof {
            assert(dom_opens_model(preproc@) =~= spec_preproc_opens(config, pcs, vk, proof, zeta@, 0));
        }
        while k < vk.chip_information.len()
            invariant
                k <= vk.chip_information@.len(),
                spec_ordering_ok(vk, proof),
                opened_g == proof.opened_values.chips@,
                zeta@ == chs.3,
                zeta@.len() == config.spec_degree(),
                st0 == old(challenger).state(),
                chs == spec_challenges(
                    config,
                    st0,
                    proof.commitment.permutation_commit@,
                    proof.commitment.quotient_commit@,
                ),
                challenger.wf(config),
                challenger.state() == chs.4,
                dom_opens_model(preproc@) == spec_preproc_opens(config, pcs, vk, proof, zeta@, k as nat),
            decreases vk.chip_information@.len() - k,
        {
            let entry = &vk.chip_information[k];
            let idx: usize = match lookup_index(&proof.chip_ordering, &entry.name) {
                Option::Some(i3) => i3,
                Option::None => {
                    proof {
                        assert(false);
                    }
                    0
                },
            };
            let values = &proof.opened_values.chips[idx];
            let nextp = pcs.next_point(config, &entry.domain, &zeta);
            let dop = Self::two_point_openings(
                entry.domain,
                &zeta,
                nextp,
                &values.preprocessed.local,
                &values.preprocessed.next,
            );
            let ghost pre: Seq<DomainOpeningsModel> = dom_opens_model(preproc@);
            preproc.push(dop);
            proof {
                assert(dom_opens_model(preproc@) =~= pre.push(dop@));
            }
            k += 1;
        }

        let mut mains: Vec<DomainOpenings> = Vec::new();
        let mut k2: usize = 0;
        proof {
            assert(dom_opens_model(mains@) =~= spec_main_opens(config, pcs, opened_g, zeta@, 0));
        }
        while k2 < n_chips
            invariant
                k2 <= n_chips,
                n_chips as nat == opened_g.len(),
                opened_g == proof.opened_values.chips@,
                zeta@ == chs.3,
                zeta@.len() == config.spec_degree(),
                trace_domains@.len() == opened_g.len(),
                forall|m: int|
                    0 <= m < opened_g.len() ==> trace_domains@[m] == pcs.spec_natural_domain(
                        pow2((#[trigger] opened_g[m]).log_degree as nat),
                    ),
                st0 == old(challenger).state(),
                chs == spec_challenges(
                    config,
                    st0,
                    proof.commitment.permutation_commit@,
                    proof.commitment.quotient_commit@,
                ),
                challenger.wf(config),
                challenger.state() == chs.4,
                dom_opens_model(mains@) == spec_main_opens(config, pcs, opened_g, zeta@, k2 as nat),
            decreases n_chips - k2,
        {
            let values = &proof.opened_values.chips[k2];
            let nextp = pcs.next_point(config, &trace_domains[k2], &zeta);
            let dop = Self::two_point_openings(
                trace_domains[k2],
                &zeta,
                nextp,
                &values.main.local,
                &values.main.next,
            );
            let ghost pre: Seq<DomainOpeningsModel> = dom_opens_model(mains@);
            mains.push(dop);
            proof {
                assert(dom_opens_model(mains@) =~= pre.push(dop@));
            }
            k2 += 1;
        }

        let mut perms: Vec<DomainOpenings> = Vec::new();
        let mut k3: usize = 0;
        proof {
            assert(dom_opens_model(perms@) =~= spec_perm_opens(config, pcs, opened_g, zeta@, 0));
        }
        while k3 < n_chips
            invariant
                k3 <= n_chips,
                n_chips as nat == opened_g.len(),
                opened_g == proof.opened_values.chips@,
                zeta@ == chs.3,
                zeta@.len() == config.spec_degree(),
                trace_domains@.len() == opened_g.len(),
                forall|m: int|
                    0 <= m < opened_g.len() ==> trace_domains@[m] == pcs.spec_natural_domain(
                        pow2((#[trigger] opened_g[m]).log_degree as nat),
                    ),
                st0 == old(challenger).state(),
                chs == spec_challenges(
                    config,
                    st0,
                    proof.commitment.permutation_commit@,
                    proof.commitment.quotient_commit@,
                ),
                challenger.wf(config),
                challenger.state() == chs.4,
                dom_opens_model(perms@) == spec_perm_opens(config, pcs, opened_g, zeta@, k3 as nat),
            decreases n_chips - k3,
        {
            let values = &proof.opened_values.chips[k3];
            let nextp = pcs.next_point(config, &trace_domains[k3], &zeta);
            let dop = Self::two_point_openings(
                trace_domains[k3],
                &zeta,
                nextp,
                &values.permutation.local,
                &values.permutation.next,
            );
            let ghost pre: Seq<DomainOpeningsModel> = dom_opens_model(perms@);
            perms.push(dop);
            proof {
                assert(dom_opens_model(perms@) =~= pre.push(dop@));
            }
            k3 += 1;
        }

        let mut quot: Vec<DomainOpenings> = Vec::new();
        let mut m: usize = 0;
        proof {
            assert(dom_opens_model(quot@) =~= spec_quotient_opens(
                config,
                pcs,
                chips@,
                opened_g,
                zeta@,
                0,
            ));
        }
        while m < n_chips
            invariant
                m <= n_chips,
                n_chips as nat == chips@.len(),
                chips@.len() == opened_g.len(),
                opened_g == proof.opened_values.chips@,
                spec_sizes_ok(config, chips@, opened_g),
                zeta@ == chs.3,
                zeta@.len() == config.spec_degree(),
                trace_domains@.len() == opened_g.len(),
                forall|a: int|
                    0 <= a < opened_g.len() ==> trace_domains@[a] == pcs.spec_natural_domain(
                        pow2((#[trigger] opened_g[a]).log_degree as nat),
                    ),
                forall|a: int|
                    0 <= a < opened_g.len() ==> spec_shape_error(
                        config,
                        chips@[a],
                        #[trigger] opened_g[a],
                    ) is None,
                st0 == old(challenger).state(),
                chs == spec_challenges(
                    config,
                    st0,
                    proof.commitment.permutation_commit@,
                    proof.commitment.quotient_commit@,
                ),
                challenger.wf(config),
                challenger.state() == chs.4,
                dom_opens_model(quot@) == spec_quotient_opens(
                    config,
                    pcs,
                    chips@,
                    opened_g,
                    zeta@,
                    m as nat,
                ),
            decreases n_chips - m,
        {
            let o = &proof.opened_values.chips[m];
            let chip = &chips[m];
            let ld: usize = o.log_degree as usize;
            let lqd = chip.log_quotient_degree();
            proof {
                lemma_pow2_exceeds(ld as nat + lqd as nat);
            }
            let sz = pow2_usize(ld + lqd);
            let qd = pcs.create_disjoint_domain(&trace_domains[m], sz);
            let qw = chip.quotient_width();
            let qcs = pcs.split_domains(config, &qd, qw);
            let ghost chip_opens: Seq<DomainOpeningsModel> = spec_chip_quotient_opens(
                config,
                pcs,
                chips@[m as int],
                opened_g[m as int],
                zeta@,
            );
            proof {
                assert(qcs@ == spec_qc_domains(config, pcs, chips@[m as int], opened_g[m as int]));
                assert(o.quotient@.len() == pow2(chips@[m as int].spec_log_quotient_degree()));
            }
            let mut c: usize = 0;
            let nq = o.quotient.len();
            proof {
                assert(dom_opens_model(quot@) + chip_opens.take(0) =~= dom_opens_model(quot@));
            }
            let ghost base_q: Seq<DomainOpeningsModel> = dom_opens_model(quot@);
            while c < nq
                invariant
                    c <= nq,
                    m < n_chips,
                    n_chips as nat == chips@.len(),
                    chips@.len() == opened_g.len(),
                    nq as nat == opened_g[m as int].quotient@.len(),
                    o.quotient@ == opened_g[m as int].quotient@,
                    qcs@.len() == nq as nat,
                    zeta@.len() == config.spec_degree(),
                    qcs@ == spec_qc_domains(config, pcs, chips@[m as int], opened_g[m as int]),
                    chip_opens == spec_chip_quotient_opens(
                        config,
                        pcs,
                        chips@[m as int],
                        opened_g[m as int],
                        zeta@,
                    ),
                    chip_opens.len() == nq as nat,
                    base_q.len() + c as nat == quot@.len(),
                    dom_opens_model(quot@) == base_q + chip_opens.take(c as int),
                decreases nq - c,
            {
                let mut ops: Vec<PointOpening> = Vec::new();
                ops.push(
                    PointOpening { point: copy_felts(&zeta), values: copy_exts(&o.quotient[c]) },
                );
                let dop = DomainOpenings { domain: qcs[c], openings: ops };
                let ghost pre: Seq<DomainOpeningsModel> = dom_opens_model(quot@);
                proof {
                    assert(dop@.openings =~= chip_opens[c as int].openings);
                    assert(dop@ == chip_opens[c as int]);
                }
                quot.push(dop);
                proof {
                    assert(dom_opens_model(quot@) =~= pre.push(dop@));
                    assert(pre.push(chip_opens[c as int]) =~= base_q + chip_opens.take(c + 1));
                }
                c += 1;
            }
            proof {
                assert(chip_opens.take(nq as int) =~= chip_opens);
                assert(dom_opens_model(quot@) =~= spec_quotient_opens(
                    config,
                    pcs,
                    chips@,
                    opened_g,
                    zeta@,
                    (m + 1) as nat,
                ));
            }
            m += 1;
        }

        // the four rounds, in order
        let ghost preproc_m: Seq<DomainOpeningsModel> = dom_opens_model(preproc@);
        let ghost mains_m: Seq<DomainOpeningsModel> = dom_opens_model(mains@);
        let ghost perms_m: Seq<DomainOpeningsModel> = dom_opens_model(perms@);
        let ghost quot_m: Seq<DomainOpeningsModel> = dom_opens_model(quot@);
        let mut rounds: Vec<Round> = Vec::new();
        rounds.push(Round { commitment: copy_felts(&vk.commit), openings: preproc });
        rounds.push(
            Round { commitment: copy_felts(&proof.commitment.main_commit), openings: mains },
        );
        rounds.push(
            Round { commitment: copy_felts(&proof.commitment.permutation_commit), openings: perms },
        );
        rounds.push(
            Round { commitment: copy_felts(&proof.commitment.quotient_commit), openings: quot },
        );
        proof {
            assert(rounds@[0]@.openings =~= preproc_m);
            assert(rounds@[1]@.openings =~= mains_m);
            assert(rounds@[2]@.openings =~= perms_m);
            assert(rounds@[3]@.openings =~= quot_m);
            assert(rounds_model(rounds@) =~= spec_rounds(config, pcs, vk, chips@, proof, zeta@));
        }

        match pcs.verify(config, &rounds, &proof.opening_proof, challenger) {
            Result::Err(e) => {
                return Result::Err(VerificationError::InvalidOpeningArgument(e));
            },
            Result::Ok(()) => {},
        }

        // the out-of-domain identity, chip by chip
        let ghost post_pcs: ChalState = challenger.state();
        let mut w: usize = 0;
        while w < n_chips
            invariant
                w <= n_chips,
                n_chips as nat == chips@.len(),
                chips@.len() == opened_g.len(),
                opened_g == proof.opened_values.chips@,
                spec_proof_wf(config, proof),
                spec_sizes_ok(config, chips@, opened_g),
                zeta@ == chs.3,
                alpha@ == chs.2,
                zeta@.len() == config.spec_degree(),
                alpha@.len() == config.spec_degree(),
                permutation_challenges.deep_view() == seq![chs.0, chs.1],
                chs.0.len() == config.spec_degree(),
                chs.1.len() == config.spec_degree(),
                trace_domains@.len() == opened_g.len(),
                forall|a: int|
                    0 <= a < opened_g.len() ==> trace_domains@[a] == pcs.spec_natural_domain(
                        pow2((#[trigger] opened_g[a]).log_degree as nat),
                    ),
                forall|a: int|
                    0 <= a < opened_g.len() ==> spec_shape_error(
                        config,
                        chips@[a],
                        #[trigger] opened_g[a],
                    ) is None,
                forall|a: int|
                    0 <= a < w ==> spec_chip_ood_ok(
                        config,
                        pcs,
                        chips@[a],
                        #[trigger] opened_g[a],
                        chs.3,
                        chs.2,
                        seq![chs.0, chs.1],
                        proof.public_values@,
                    ),
                st0 == old(challenger).state(),
                chs == spec_challenges(
                    config,
                    st0,
                    proof.commitment.permutation_commit@,
                    proof.commitment.quotient_commit@,
                ),
                spec_first_shape_error(config, chips@, opened_g, 0) is None,
                pcs.spec_verify_ok(
                    config,
                    spec_rounds(config, pcs, vk, chips@, proof, chs.3),
                    proof.opening_proof.data@,
                    chs.4,
                ),
                post_pcs == pcs.spec_verify_state(
                    config,
                    spec_rounds(config, pcs, vk, chips@, proof, chs.3),
                    proof.opening_proof.data@,
                    chs.4,
                ),
                challenger.state() == post_pcs,
                challenger.wf(config),
            decreases n_chips - w,
        {
            proof {
                config.lemma_op_shapes();
                pcs.lemma_pcs_shapes(config);
            }
            let o = &proof.opened_values.chips[w];
            let chip = &chips[w];
            let ld: usize = o.log_degree as usize;
            let lqd = chip.log_quotient_degree();
            proof {
                lemma_pow2_exceeds(ld as nat + lqd as nat);
                lemma_pow2_le(
                    opened_g[w as int].log_degree as nat,
                    opened_g[w as int].log_degree as nat + chips@[w as int].spec_log_quotient_degree(),
                );
            }
            let sz = pow2_usize(ld + lqd);
            let tsz = pow2_usize(ld);
            let td = pcs.natural_domain_for_degree(tsz);
            let qd = pcs.create_disjoint_domain(&td, sz);
            let qw = chip.quotient_width();
            let qcs = pcs.split_domains(config, &qd, qw);
            proof {
                assert(td == trace_domains@[w as int]);
                assert(qcs@ == spec_qc_domains(config, pcs, chips@[w as int], opened_g[w as int]));
                assert(opened_g[w as int].quotient@.len() == pow2(
                    chips@[w as int].spec_log_quotient_degree(),
                ));
            }
            match Self::verify_constraints(
                config,
                pcs,
                chip,
                o,
                &td,
                &qcs,
                &zeta,
                &alpha,
                &permutation_challenges,
                &proof.public_values,
            ) {
                Result::Err(_) => {
                    proof {
                        lemma_first_ood_skip(
                            config,
                            pcs,
                            chips@,
                            opened_g,
                            chs.3,
                            chs.2,
                            seq![chs.0, chs.1],
                            proof.public_values@,
                            w as nat,
                        );
                    }
                    return Result::Err(VerificationError::OodEvaluationMismatch(chips[w].name()));
                },
                Result::Ok(()) => {},
            }
            w += 1;
        }
        proof {
            lemma_first_ood_skip(
                config,
                pcs,
                chips@,
                opened_g,
                chs.3,
                chs.2,
                seq![chs.0, chs.1],
                proof.public_values@,
                n_chips as nat,
            );
        }
        Result::Ok(())
    }
}

} // verus!
