//! The field capability: a base field together with a degree-`D` extension.
//!
//! An extension element is identified with the sequence of its `D` base-field
//! coefficients in the monomial basis, carried as a `Vec<u64>`. The verifier
//! core is generic over an implementation of [`FieldConfig`]; every operation
//! is pinned to a specification-level function of the implementation, so the
//! whole verification pipeline is a mathematical function of its inputs.
use vstd::prelude::*;

verus! {

/// An extension-field element: the sequence of its base-field coefficients.
pub type Ext = Vec<u64>;

/// Arithmetic of the extension field, with every executable operation bound
/// to a specification function of the same implementation.
pub trait FieldConfig: Sized {
    /// Degree of the extension over the base field.
    spec fn spec_degree(&self) -> nat;

    spec fn spec_add(&self, a: Seq<u64>, b: Seq<u64>) -> Seq<u64>;

    spec fn spec_sub(&self, a: Seq<u64>, b: Seq<u64>) -> Seq<u64>;

    spec fn spec_mul(&self, a: Seq<u64>, b: Seq<u64>) -> Seq<u64>;

    spec fn spec_zero(&self) -> Seq<u64>;

    spec fn spec_one(&self) -> Seq<u64>;

    /// The `i`-th monomial basis element, `0 <= i < D`.
    spec fn spec_monomial(&self, i: int) -> Seq<u64>;

    /// Embedding of a base-field element into the extension.
    spec fn spec_embed(&self, f: u64) -> Seq<u64>;

    /// Width of the sponge permutation used by the transcript.
    spec fn spec_sponge_width(&self) -> nat;

    /// Rate of the sponge: how many elements are absorbed or squeezed per
    /// permutation.
    spec fn spec_sponge_rate(&self) -> nat;

    /// The cryptographic permutation of a sponge state.
    spec fn spec_permute(&self, s: Seq<u64>) -> Seq<u64>;

    /// Whether `a` has a multiplicative inverse.
    spec fn spec_has_inverse(&self, a: Seq<u64>) -> bool;

    /// The inverse of `a`, meaningful only when `spec_has_inverse(a)`.
    spec fn spec_inverse(&self, a: Seq<u64>) -> Seq<u64>;

    /// All operations return well-formed elements, and an inverse really is
    /// one.
    proof fn lemma_op_shapes(&self)
        ensures
            self.spec_degree() >= 1,
            self.spec_zero().len() == self.spec_degree(),
            self.spec_one().len() == self.spec_degree(),
            forall|a: Seq<u64>, b: Seq<u64>|
                (#[trigger] self.spec_add(a, b)).len() == self.spec_degree(),
            forall|a: Seq<u64>, b: Seq<u64>|
                (#[trigger] self.spec_sub(a, b)).len() == self.spec_degree(),
            forall|a: Seq<u64>, b: Seq<u64>|
                (#[trigger] self.spec_mul(a, b)).len() == self.spec_degree(),
            forall|i: int| (#[trigger] self.spec_monomial(i)).len() == self.spec_degree(),
            forall|f: u64| (#[trigger] self.spec_embed(f)).len() == self.spec_degree(),
            forall|a: Seq<u64>| (#[trigger] self.spec_inverse(a)).len() == self.spec_degree(),
            forall|a: Seq<u64>|
                self.spec_has_inverse(a) ==> self.spec_mul(
                    a,
                    #[trigger] self.spec_inverse(a),
                ) == self.spec_one(),
            1 <= self.spec_sponge_rate() <= self.spec_sponge_width(),
            forall|s: Seq<u64>|
                (#[trigger] self.spec_permute(s)).len() == self.spec_sponge_width(),
    ;

    fn sponge_width(&self) -> (r: usize)
        ensures
            r as nat == self.spec_sponge_width(),
    ;

    fn sponge_rate(&self) -> (r: usize)
        ensures
            r as nat == self.spec_sponge_rate(),
            r >= 1,
    ;

    fn permute(&self, s: &Vec<u64>) -> (r: Vec<u64>)
        requires
            s@.len() == self.spec_sponge_width(),
        ensures
            r@ == self.spec_permute(s@),
    ;

    fn degree(&self) -> (r: usize)
        ensures
            r as nat == self.spec_degree(),
            r >= 1,
    ;

    fn add(&self, a: &Ext, b: &Ext) -> (r: Ext)
        requires
            a@.len() == self.spec_degree(),
            b@.len() == self.spec_degree(),
        ensures
            r@ == self.spec_add(a@, b@),
    ;

    fn sub(&self, a: &Ext, b: &Ext) -> (r: Ext)
        requires
            a@.len() == self.spec_degree(),
            b@.len() == self.spec_degree(),
        ensures
            r@ == self.spec_sub(a@, b@),
    ;

    fn mul(&self, a: &Ext, b: &Ext) -> (r: Ext)
        requires
            a@.len() == self.spec_degree(),
            b@.len() == self.spec_degree(),
        ensures
            r@ == self.spec_mul(a@, b@),
    ;

    fn zero(&self) -> (r: Ext)
        ensures
            r@ == self.spec_zero(),
    ;

    fn one(&self) -> (r: Ext)
        ensures
            r@ == self.spec_one(),
    ;

    fn monomial(&self, i: usize) -> (r: Ext)
        requires
            (i as nat) < self.spec_degree(),
        ensures
            r@ == self.spec_monomial(i as int),
    ;

    fn embed(&self, f: u64) -> (r: Ext)
        ensures
            r@ == self.spec_embed(f),
    ;

    /// The inverse of `a`, exactly when one exists.
    fn try_inverse(&self, a: &Ext) -> (r: Option<Ext>)
        requires
            a@.len() == self.spec_degree(),
        ensures
            (match r {
                Option::Some(v) => self.spec_has_inverse(a@) && v@ == self.spec_inverse(a@),
                Option::None => !self.spec_has_inverse(a@),
            }),
    ;
}

/// For coefficient vectors, the deep view is the plain view.
pub broadcast proof fn lemma_deep_view_felts(v: Vec<u64>)
    ensures
        #[trigger] v.deep_view() == v@,
{
    assert(v.deep_view() =~= v@);
}

/// An element-wise copy of a coefficient vector.
pub fn copy_felts(v: &Vec<u64>) -> (r: Vec<u64>)
    ensures
        r@ == v@,
{
    let mut r: Vec<u64> = Vec::new();
    let mut i: usize = 0;
    while i < v.len()
        invariant
            i <= v@.len(),
            r@ == v@.subrange(0, i as int),
        decreases v@.len() - i,
    {
        r.push(v[i]);
        proof {
            assert(r@ =~= v@.subrange(0, i + 1));
        }
        i += 1;
    }
    proof {
        assert(r@ =~= v@);
    }
    r
}

/// Structural equality of two coefficient vectors.
pub fn felts_eq(a: &Vec<u64>, b: &Vec<u64>) -> (r: bool)
    ensures
        r == (a@ == b@),
{
    if a.len() != b.len() {
        return false;
    }
    let mut i: usize = 0;
    while i < a.len()
        invariant
            i <= a@.len(),
            a@.len() == b@.len(),
            forall|j: int| 0 <= j < i ==> a@[j] == b@[j],
        decreases a@.len() - i,
    {
        if a[i] != b[i] {
            assert(a@[i as int] != b@[i as int]);
            return false;
        }
        i += 1;
    }
    proof {
        assert(a@ =~= b@);
    }
    true
}

} // verus!
