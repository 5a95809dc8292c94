//! A small reference configuration over the prime field of 257 elements,
//! with a component-wise extension of degree four, a chained mixing function
//! as sponge permutation and digest compression, and a transparent
//! polynomial-commitment scheme. It instantiates every capability the
//! verifier is generic over, entirely in verified code, and is what the
//! crate's tests run against.
use vstd::prelude::*;
use vstd::arithmetic::mul::{lemma_mul_upper_bound, lemma_mul_is_associative, lemma_mul_is_commutative};
use vstd::arithmetic::div_mod::{lemma_mul_mod_noop_left, lemma_mul_mod_noop_right};
use vstd::arithmetic::power2::pow2;
use vstd::string::StringExecFns;
use crate::bits::pow2_usize;
use crate::field::{Ext, FieldConfig};
use crate::hashing::{Digest, FieldHasher};
use crate::challenger::{ChalState, DuplexChallenger};
use crate::folder::{Chip, ConstraintFolder, FolderModel, spec_fold_constraint};
use crate::pcs::{rounds_model, LagrangeSelectors, Pcs, Round, RoundModel, SelectorsModel};
use crate::types::{Domain, OpeningError, OpeningProof};

verus! {

broadcast use crate::field::lemma_deep_view_felts;

/// The field modulus of the reference configuration.
pub const FIELD_P: u64 = 257;

/// Extension degree of the reference configuration.
pub const SAMPLE_D: usize = 4;

pub open spec fn f_add(x: u64, y: u64) -> u64 {
    (((x as int % 257) + (y as int % 257)) % 257) as u64
}

pub open spec fn f_sub(x: u64, y: u64) -> u64 {
    (((x as int % 257) - (y as int % 257) + 257) % 257) as u64
}

pub open spec fn f_mul(x: u64, y: u64) -> u64 {
    (((x as int % 257) * (y as int % 257)) % 257) as u64
}

/// Indexing that pads with zero beyond the end.
pub open spec fn getf(s: Seq<u64>, i: int) -> u64 {
    if 0 <= i < s.len() {
        s[i]
    } else {
        0
    }
}

/// A running mix: position `i` combines its own entry with the whole prefix.
pub open spec fn chain_f(s: Seq<u64>, i: nat) -> u64
    decreases i,
{
    if i == 0 {
        f_add(f_mul(getf(s, 0), 3), 1)
    } else {
        f_add(f_mul(getf(s, i as int), 3), chain_f(s, (i - 1) as nat))
    }
}

/// The mixing pass over `n` positions.
pub open spec fn spec_mix(s: Seq<u64>, n: nat) -> Seq<u64> {
    Seq::new(n, |i: int| chain_f(s, i as nat))
}

/// A sequence of eight lanes, reversed.
pub open spec fn rev8(s: Seq<u64>) -> Seq<u64> {
    Seq::new(8, |i: int| getf(s, 7 - i))
}

/// One lane of the compression: `5 a + 7 b`.
pub open spec fn spec_pair_lane(a: Seq<u64>, b: Seq<u64>, i: int) -> u64 {
    f_add(f_mul(getf(a, i), 5), f_mul(getf(b, i), 7))
}

/// Field addition, reduced.
pub fn add_f(x: u64, y: u64) -> (r: u64)
    ensures
        r == f_add(x, y),
        r < 257,
{
    ((x % 257) + (y % 257)) % 257
}

/// Field subtraction, reduced.
pub fn sub_f(x: u64, y: u64) -> (r: u64)
    ensures
        r == f_sub(x, y),
        r < 257,
{
    ((x % 257) + 257 - (y % 257)) % 257
}

/// Field multiplication, reduced.
pub fn mul_f(x: u64, y: u64) -> (r: u64)
    ensures
        r == f_mul(x, y),
        r < 257,
{
    let a = x % 257;
    let b = y % 257;
    proof {
        lemma_mul_upper_bound(a as int, 256, b as int, 256);
    }
    (a * b) % 257
}

/// The mixing pass as executable code.
pub fn mix(v: &Vec<u64>) -> (r: Vec<u64>)
    ensures
        r@ == spec_mix(v@, v@.len()),
        r@.len() == v@.len(),
{
    let mut r: Vec<u64> = Vec::new();
    let mut i: usize = 0;
    let mut prev: u64 = 1;
    while i < v.len()
        invariant
            i <= v@.len(),
            r@ == spec_mix(v@, i as nat).subrange(0, i as int),
            r@.len() == i as nat,
            i == 0 ==> prev == 1,
            i > 0 ==> prev == chain_f(v@, (i - 1) as nat),
        decreases v@.len() - i,
    {
        let cur = add_f(mul_f(v[i], 3), if i == 0 { 1 } else { prev });
        proof {
            if i == 0 {
                assert(cur == chain_f(v@, 0)) by {
                    assert(f_add(f_mul(getf(v@, 0), 3), 1) == f_add(f_mul(v@[0], 3), 1));
                }
            }
        }
        r.push(cur);
        proof {
            assert(r@ =~= spec_mix(v@, (i + 1) as nat).subrange(0, i + 1));
        }
        prev = cur;
        i += 1;
    }
    proof {
        assert(r@ =~= spec_mix(v@, v@.len()));
    }
    r
}

/// Whether `v` inverts `c` in the base field.
pub open spec fn is_inv1(c: u64, v: u64) -> bool {
    v < 257 && (c as int % 257) * v % 257 == 1
}

/// Whether `c` has an inverse in the base field.
pub open spec fn has_inv1(c: u64) -> bool {
    exists|v: u64| is_inv1(c, v)
}

/// Inverses in the base field are unique.
proof fn lemma_inv_unique(c: int, v1: int, v2: int)
    requires
        0 <= c,
        0 <= v1 < 257,
        0 <= v2 < 257,
        (c * v1) % 257 == 1,
        (c * v2) % 257 == 1,
    ensures
        v1 == v2,
{
    // v1 == (v1 * c * v2) % 257 == v2
    lemma_mul_mod_noop_left(c * v1, v2, 257);
    assert(((c * v1) % 257) * v2 % 257 == (c * v1) * v2 % 257);
    assert((1 as int) * v2 == v2);
    assert(v2 % 257 == v2);
    lemma_mul_mod_noop_left(c * v2, v1, 257);
    assert(((c * v2) % 257) * v1 % 257 == (c * v2) * v1 % 257);
    assert(v1 % 257 == v1);
    assert((c * v1) * v2 == (c * v2) * v1) by {
        lemma_mul_is_associative(c, v1, v2);
        lemma_mul_is_associative(c, v2, v1);
        lemma_mul_is_commutative(v1, v2);
    }
}

/// The reference field configuration: integers modulo 257, a degree-four
/// component-wise extension, and an eight-lane sponge of rate four.
pub struct SmallConfig;

impl FieldConfig for SmallConfig {
    open spec fn spec_degree(&self) -> nat {
        4
    }

    open spec fn spec_add(&self, a: Seq<u64>, b: Seq<u64>) -> Seq<u64> {
        Seq::new(4, |i: int| f_add(getf(a, i), getf(b, i)))
    }

    open spec fn spec_sub(&self, a: Seq<u64>, b: Seq<u64>) -> Seq<u64> {
        Seq::new(4, |i: int| f_sub(getf(a, i), getf(b, i)))
    }

    open spec fn spec_mul(&self, a: Seq<u64>, b: Seq<u64>) -> Seq<u64> {
        Seq::new(4, |i: int| f_mul(getf(a, i), getf(b, i)))
    }

    open spec fn spec_zero(&self) -> Seq<u64> {
        Seq::new(4, |i: int| 0u64)
    }

    open spec fn spec_one(&self) -> Seq<u64> {
        Seq::new(4, |i: int| 1u64)
    }

    open spec fn spec_monomial(&self, i: int) -> Seq<u64> {
        Seq::new(4, |k: int| if k == i { 1u64 } else { 0u64 })
    }

    open spec fn spec_embed(&self, f: u64) -> Seq<u64> {
        Seq::new(4, |i: int| (f as int % 257) as u64)
    }

    open spec fn spec_sponge_width(&self) -> nat {
        8
    }

    open spec fn spec_sponge_rate(&self) -> nat {
        4
    }

    open spec fn spec_permute(&self, s: Seq<u64>) -> Seq<u64> {
        spec_mix(rev8(spec_mix(s, 8)), 8)
    }

    open spec fn spec_has_inverse(&self, a: Seq<u64>) -> bool {
        forall|i: int| 0 <= i < 4 ==> has_inv1(#[trigger] getf(a, i))
    }

    open spec fn spec_inverse(&self, a: Seq<u64>) -> Seq<u64> {
        Seq::new(4, |i: int| choose|v: u64| is_inv1(getf(a, i), v))
    }

    proof fn lemma_op_shapes(&self) {
        assert forall|a: Seq<u64>|
            self.spec_has_inverse(a) implies self.spec_mul(a, #[trigger] self.spec_inverse(a))
            == self.spec_one() by {
            assert forall|i: int| 0 <= i < 4 implies self.spec_mul(a, self.spec_inverse(a))[i]
                == 1u64 by {
                assert(has_inv1(getf(a, i)));
                let v = choose|v: u64| is_inv1(getf(a, i), v);
                assert(is_inv1(getf(a, i), v));
                assert(self.spec_inverse(a)[i] == v);
                assert(getf(self.spec_inverse(a), i) == v);
                // (a_i % 257) * (v % 257) % 257 == 1
                assert(v as int % 257 == v as int);
                lemma_mul_mod_noop_right(getf(a, i) as int % 257, v as int, 257);
            }
            assert(self.spec_mul(a, self.spec_inverse(a)) =~= self.spec_one());
        }
    }

    fn degree(&self) -> (r: usize) {
        4
    }

    fn add(&self, a: &Ext, b: &Ext) -> (r: Ext) {
        let mut r: Vec<u64> = Vec::new();
        let mut i: usize = 0;
        while i < 4
            invariant
                i <= 4,
                a@.len() == 4,
                b@.len() == 4,
                r@ == self.spec_add(a@, b@).subrange(0, i as int),
            decreases 4 - i,
        {
            let x = add_f(a[i], b[i]);
            r.push(x);
            proof {
                assert(r@ =~= self.spec_add(a@, b@).subrange(0, i + 1));
            }
            i += 1;
        }
        proof {
            assert(r@ =~= self.spec_add(a@, b@));
        }
        r
    }

    fn sub(&self, a: &Ext, b: &Ext) -> (r: Ext) {
        let mut r: Vec<u64> = Vec::new();
        let mut i: usize = 0;
        while i < 4
            invariant
                i <= 4,
                a@.len() == 4,
                b@.len() == 4,
                r@ == self.spec_sub(a@, b@).subrange(0, i as int),
            decreases 4 - i,
        {
            let x = sub_f(a[i], b[i]);
            r.push(x);
            proof {
                assert(r@ =~= self.spec_sub(a@, b@).subrange(0, i + 1));
            }
            i += 1;
        }
        proof {
            assert(r@ =~= self.spec_sub(a@, b@));
        }
        r
    }

    fn mul(&self, a: &Ext, b: &Ext) -> (r: Ext) {
        let mut r: Vec<u64> = Vec::new();
        let mut i: usize = 0;
        while i < 4
            invariant
                i <= 4,
                a@.len() == 4,
                b@.len() == 4,
                r@ == self.spec_mul(a@, b@).subrange(0, i as int),
            decreases 4 - i,
        {
            let x = mul_f(a[i], b[i]);
            r.push(x);
            proof {
                assert(r@ =~= self.spec_mul(a@, b@).subrange(0, i + 1));
            }
            i += 1;
        }
        proof {
            assert(r@ =~= self.spec_mul(a@, b@));
        }
        r
    }

    fn zero(&self) -> (r: Ext) {
        let mut r: Vec<u64> = Vec::new();
        r.push(0);
        r.push(0);
        r.push(0);
        r.push(0);
        proof {
            assert(r@ =~= self.spec_zero());
        }
        r
    }

    fn one(&self) -> (r: Ext) {
        let mut r: Vec<u64> = Vec::new();
        r.push(1);
        r.push(1);
        r.push(1);
        r.push(1);
        proof {
            assert(r@ =~= self.spec_one());
        }
        r
    }

    fn monomial(&self, i: usize) -> (r: Ext) {
        let mut r: Vec<u64> = Vec::new();
        let mut k: usize = 0;
        while k < 4
            invariant
                k <= 4,
                i < 4,
                r@ == self.spec_monomial(i as int).subrange(0, k as int),
            decreases 4 - k,
        {
            r.push(if k == i { 1 } else { 0 });
            proof {
                assert(r@ =~= self.spec_monomial(i as int).subrange(0, k + 1));
            }
            k += 1;
        }
        proof {
            assert(r@ =~= self.spec_monomial(i as int));
        }
        r
    }

    fn embed(&self, f: u64) -> (r: Ext) {
        let v = f % 257;
        let mut r: Vec<u64> = Vec::new();
        r.push(v);
        r.push(v);
        r.push(v);
        r.push(v);
        proof {
            assert(r@ =~= self.spec_embed(f));
        }
        r
    }

    fn sponge_width(&self) -> (r: usize) {
        8
    }

    fn sponge_rate(&self) -> (r: usize) {
        4
    }

    fn permute(&self, s: &Vec<u64>) -> (r: Vec<u64>) {
        let first = mix(s);
        let mut rev: Vec<u64> = Vec::new();
        let mut i: usize = 0;
        while i < 8
            invariant
                i <= 8,
                first@.len() == 8,
                rev@ == rev8(first@).subrange(0, i as int),
            decreases 8 - i,
        {
            rev.push(first[7 - i]);
            proof {
                assert(rev@ =~= rev8(first@).subrange(0, i + 1));
            }
            i += 1;
        }
        proof {
            assert(rev@ =~= rev8(first@));
        }
        let r = mix(&rev);
        proof {
            assert(r@ == spec_mix(rev8(spec_mix(s@, 8)), 8));
        }
        r
    }

    fn try_inverse(&self, a: &Ext) -> (r: Option<Ext>) {
        let mut r: Vec<u64> = Vec::new();
        let mut i: usize = 0;
        while i < 4
            invariant
                i <= 4,
                a@.len() == 4,
                r@.len() == i as nat,
                forall|k: int|
                    0 <= k < i ==> r@[k] < 257 && ((getf(a@, k) as int % 257) * r@[k]) % 257 == 1,
            decreases 4 - i,
        {
            let c = a[i] % 257;
            let mut v: u64 = 0;
            let mut found: bool = false;
            while v < 257 && !found
                invariant
                    v <= 257,
                    i < 4,
                    a@.len() == 4,
                    c == a@[i as int] % 257,
                    forall|w: u64| w < v ==> !is_inv1(c, w),
                    found ==> v < 257 && is_inv1(c, v),
                decreases (if found { 0int } else { 1int }), 257 - v,
            {
                proof {
                    lemma_mul_upper_bound(c as int, 256, v as int, 256);
                }
                if (c * v) % 257 == 1 {
                    proof {
                        assert(c as int % 257 == c as int);
                        assert(is_inv1(c, v));
                    }
                    found = true;
                } else {
                    proof {
                        assert(c as int % 257 == c as int);
                        assert(!is_inv1(c, v));
                    }
                    v += 1;
                }
            }
            if !found {
                proof {
                    assert(forall|w: u64| w < 257 ==> !is_inv1(c, w));
                    assert(getf(a@, i as int) as int % 257 == c as int);
                    assert(!self.spec_has_inverse(a@)) by {
                        if self.spec_has_inverse(a@) {
                            assert(has_inv1(getf(a@, i as int)));
                            let w = choose|w: u64| is_inv1(getf(a@, i as int), w);
                            assert(is_inv1(getf(a@, i as int), w));
                            assert(is_inv1(c, w)) by {
                                assert(c as int % 257 == getf(a@, i as int) as int % 257);
                            }
                        }
                    }
                }
                return Option::None;
            }
            proof {
                assert(is_inv1(c, v));
                assert(c as int % 257 == getf(a@, i as int) as int % 257);
                assert(((getf(a@, i as int) as int % 257) * v) % 257 == 1);
            }
            r.push(v);
            i += 1;
        }
        proof {
            // every component has an inverse, and the found ones are unique
            assert forall|k: int| 0 <= k < 4 implies has_inv1(#[trigger] getf(a@, k)) by {
                assert(r@[k] < 257 && ((getf(a@, k) as int % 257) * r@[k]) % 257 == 1);
                assert(is_inv1(getf(a@, k), r@[k]));
            }
            assert forall|k: int| 0 <= k < 4 implies r@[k] == self.spec_inverse(a@)[k] by {
                assert(is_inv1(getf(a@, k), r@[k]));
                let w = choose|w: u64| is_inv1(getf(a@, k), w);
                assert(is_inv1(getf(a@, k), w));
                lemma_inv_unique(getf(a@, k) as int % 257, r@[k] as int, w as int);
            }
            assert(r@ =~= self.spec_inverse(a@));
        }
        Option::Some(r)
    }
}

/// The reference hasher: eight-lane digests compressed by the mixing pass
/// over `5 a + 7 b`.
pub struct SmallHasher;

impl FieldHasher for SmallHasher {
    open spec fn spec_compress(&self, a: Seq<u64>, b: Seq<u64>) -> Seq<u64> {
        spec_mix(Seq::new(8, |i: int| spec_pair_lane(a, b, i)), 8)
    }

    open spec fn spec_default_digest(&self) -> Seq<u64> {
        Seq::new(8, |i: int| 0u64)
    }

    fn compress(&self, a: &Digest, b: &Digest) -> (r: Digest) {
        let mut combined: Vec<u64> = Vec::new();
        let mut i: usize = 0;
        while i < 8
            invariant
                i <= 8,
                combined@ == Seq::new(8, |k: int| spec_pair_lane(a@, b@, k)).subrange(0, i as int),
            decreases 8 - i,
        {
            let x: u64 = if i < a.len() {
                a[i]
            } else {
                0
            };
            let y: u64 = if i < b.len() {
                b[i]
            } else {
                0
            };
            let lane = add_f(mul_f(x, 5), mul_f(y, 7));
            combined.push(lane);
            proof {
                assert(combined@ =~= Seq::new(8, |k: int| spec_pair_lane(a@, b@, k)).subrange(
                    0,
                    i + 1,
                ));
            }
            i += 1;
        }
        proof {
            assert(combined@ =~= Seq::new(8, |k: int| spec_pair_lane(a@, b@, k)));
        }
        let r = mix(&combined);
        r
    }

    fn default_digest(&self) -> (r: Digest) {
        let mut r: Vec<u64> = Vec::new();
        let mut i: usize = 0;
        while i < 8
            invariant
                i <= 8,
                r@ == Seq::new(i as nat, |k: int| 0u64),
        decreases 8 - i,
        {
            r.push(0);
            proof {
                assert(r@ =~= Seq::new((i + 1) as nat, |k: int| 0u64));
            }
            i += 1;
        }
        proof {
            assert(r@ =~= self.spec_default_digest());
        }
        r
    }
}

/// Checksum of one digest: the running field sum of its lanes.
pub open spec fn chk_digest(s: Seq<u64>, k: nat) -> u64
    decreases k,
{
    if k == 0 {
        0u64
    } else {
        f_add(chk_digest(s, (k - 1) as nat), getf(s, k - 1))
    }
}

/// Checksum of a batch of rounds: the field sum of their commitment lanes.
pub open spec fn chk_rounds(rounds: Seq<RoundModel>, k: nat) -> u64
    decreases k,
{
    if k == 0 {
        0u64
    } else {
        f_add(
            chk_rounds(rounds, (k - 1) as nat),
            chk_digest(rounds[k - 1].commitment, rounds[k - 1].commitment.len()),
        )
    }
}

/// The reference polynomial-commitment scheme: domains are bookkeeping
/// values, vanishing polynomials take only invertible values, and an
/// opening proof is accepted exactly when it carries the checksum of the
/// four round commitments. It stands in for a real scheme so that the
/// verified pipeline around it can be exercised end to end.
pub struct SamplePcs;

impl SamplePcs {
    /// The checksum a valid opening proof must carry, computed from the
    /// round commitments alone.
    pub fn digests_checksum(&self, ds: &Vec<Digest>) -> (r: u64)
        ensures
            r == spec_digests_checksum(ds.deep_view(), ds@.len()),
    {
        let mut acc: u64 = 0;
        let mut i: usize = 0;
        while i < ds.len()
            invariant
                i <= ds@.len(),
                acc == spec_digests_checksum(ds.deep_view(), i as nat),
            decreases ds@.len() - i,
        {
            let d = &ds[i];
            let mut inner: u64 = 0;
            let mut k: usize = 0;
            while k < d.len()
                invariant
                    k <= d@.len(),
                    i < ds@.len(),
                    d@ == ds@[i as int]@,
                    inner == chk_digest(d@, k as nat),
                decreases d@.len() - k,
            {
                proof {
                    assert(getf(d@, k as int) == d@[k as int]);
                }
                inner = add_f(inner, d[k]);
                k += 1;
            }
            proof {
                assert(ds.deep_view()[i as int] == ds@[i as int]@);
            }
            acc = add_f(acc, inner);
            i += 1;
        }
        acc
    }
}

/// Checksum of a sequence of digests.
pub open spec fn spec_digests_checksum(ds: Seq<Seq<u64>>, k: nat) -> u64
    decreases k,
{
    if k == 0 {
        0u64
    } else {
        f_add(spec_digests_checksum(ds, (k - 1) as nat), chk_digest(ds[k - 1], ds[k - 1].len()))
    }
}

impl Pcs<SmallConfig> for SamplePcs {
    open spec fn spec_natural_domain(&self, degree: nat) -> Domain {
        Domain { log_n: 0, shift: (degree % 257) as u64 }
    }

    open spec fn spec_next_point(&self, fc: &SmallConfig, d: Domain, zeta: Seq<u64>) -> Seq<u64> {
        Seq::new(4, |i: int| f_add(getf(zeta, i), f_add(d.shift, 1)))
    }

    open spec fn spec_first_point(&self, fc: &SmallConfig, d: Domain) -> Seq<u64> {
        Seq::new(4, |i: int| (d.shift as int % 257) as u64)
    }

    open spec fn spec_zp_at_point(&self, fc: &SmallConfig, d: Domain, point: Seq<u64>) -> Seq<u64> {
        Seq::new(
            4,
            |i: int| (1 + ((d.shift as int + d.log_n as int + getf(point, i) as int) % 2)) as u64,
        )
    }

    open spec fn spec_selectors(&self, fc: &SmallConfig, d: Domain, point: Seq<u64>) -> SelectorsModel {
        SelectorsModel {
            is_first_row: Seq::new(4, |i: int| f_add(getf(point, i), d.shift)),
            is_last_row: Seq::new(4, |i: int| f_add(getf(point, i), f_mul(d.shift, 2))),
            is_transition: Seq::new(4, |i: int| f_mul(getf(point, i), 3)),
            inv_zeroifier: Seq::new(4, |i: int| 1u64),
        }
    }

    open spec fn spec_create_disjoint_domain(&self, d: Domain, size: nat) -> Domain {
        Domain { log_n: d.log_n, shift: ((d.shift as int + size) % 257) as u64 }
    }

    open spec fn spec_split_domains(&self, d: Domain, n: nat) -> Seq<Domain> {
        Seq::new(n, |i: int| Domain { log_n: d.log_n, shift: ((d.shift as int + i + 1) % 257) as u64 })
    }

    open spec fn spec_verify_ok(
        &self,
        fc: &SmallConfig,
        rounds: Seq<RoundModel>,
        proof: Seq<u64>,
        st: ChalState,
    ) -> bool {
        proof.len() >= 1 && proof[0] == chk_rounds(rounds, rounds.len())
    }

    open spec fn spec_verify_state(
        &self,
        fc: &SmallConfig,
        rounds: Seq<RoundModel>,
        proof: Seq<u64>,
        st: ChalState,
    ) -> ChalState {
        st
    }

    proof fn lemma_pcs_shapes(&self, fc: &SmallConfig) {
    }

    fn natural_domain_for_degree(&self, degree: usize) -> (r: Domain) {
        Domain { log_n: 0, shift: (degree % 257) as u64 }
    }

    fn next_point(&self, fc: &SmallConfig, d: &Domain, zeta: &Ext) -> (r: Ext) {
        let step = add_f(d.shift, 1);
        let mut r: Vec<u64> = Vec::new();
        let mut i: usize = 0;
        while i < 4
            invariant
                i <= 4,
                zeta@.len() == 4,
                step == f_add(d.shift, 1),
                r@ == self.spec_next_point(fc, *d, zeta@).subrange(0, i as int),
            decreases 4 - i,
        {
            r.push(add_f(zeta[i], step));
            proof {
                assert(r@ =~= self.spec_next_point(fc, *d, zeta@).subrange(0, i + 1));
            }
            i += 1;
        }
        proof {
            assert(r@ =~= self.spec_next_point(fc, *d, zeta@));
        }
        r
    }

    fn first_point(&self, fc: &SmallConfig, d: &Domain) -> (r: Ext) {
        let v = d.shift % 257;
        let mut r: Vec<u64> = Vec::new();
        r.push(v);
        r.push(v);
        r.push(v);
        r.push(v);
        proof {
            assert(r@ =~= self.spec_first_point(fc, *d));
        }
        r
    }

    fn zp_at_point(&self, fc: &SmallConfig, d: &Domain, point: &Ext) -> (r: Ext) {
        let mut r: Vec<u64> = Vec::new();
        let mut i: usize = 0;
        while i < 4
            invariant
                i <= 4,
                point@.len() == 4,
                r@ == self.spec_zp_at_point(fc, *d, point@).subrange(0, i as int),
            decreases 4 - i,
        {
            let par: u64 = ((d.shift % 2) + ((d.log_n % 2) as u64) + (point[i] % 2)) % 2;
            proof {
                vstd::arithmetic::div_mod::lemma_add_mod_noop(
                    d.shift as int + d.log_n as int,
                    point@[i as int] as int,
                    2,
                );
                vstd::arithmetic::div_mod::lemma_add_mod_noop(
                    d.shift as int,
                    d.log_n as int,
                    2,
                );
            }
            r.push(1 + par);
            proof {
                assert(r@ =~= self.spec_zp_at_point(fc, *d, point@).subrange(0, i + 1));
            }
            i += 1;
        }
        proof {
            assert(r@ =~= self.spec_zp_at_point(fc, *d, point@));
        }
        r
    }

    fn selectors_at_point(&self, fc: &SmallConfig, d: &Domain, point: &Ext) -> (r: LagrangeSelectors) {
        let mut is_first_row: Vec<u64> = Vec::new();
        let mut is_last_row: Vec<u64> = Vec::new();
        let mut is_transition: Vec<u64> = Vec::new();
        let mut inv_zeroifier: Vec<u64> = Vec::new();
        let m2 = mul_f(d.shift, 2);
        let mut i: usize = 0;
        while i < 4
            invariant
                i <= 4,
                point@.len() == 4,
                m2 == f_mul(d.shift, 2),
                is_first_row@ == self.spec_selectors(fc, *d, point@).is_first_row.subrange(0, i as int),
                is_last_row@ == self.spec_selectors(fc, *d, point@).is_last_row.subrange(0, i as int),
                is_transition@ == self.spec_selectors(fc, *d, point@).is_transition.subrange(0, i as int),
                inv_zeroifier@ == self.spec_selectors(fc, *d, point@).inv_zeroifier.subrange(0, i as int),
            decreases 4 - i,
        {
            is_first_row.push(add_f(point[i], d.shift));
            is_last_row.push(add_f(point[i], m2));
            is_transition.push(mul_f(point[i], 3));
            inv_zeroifier.push(1);
            proof {
                assert(is_first_row@ =~= self.spec_selectors(fc, *d, point@).is_first_row.subrange(0, i + 1));
                assert(is_last_row@ =~= self.spec_selectors(fc, *d, point@).is_last_row.subrange(0, i + 1));
                assert(is_transition@ =~= self.spec_selectors(fc, *d, point@).is_transition.subrange(0, i + 1));
                assert(inv_zeroifier@ =~= self.spec_selectors(fc, *d, point@).inv_zeroifier.subrange(0, i + 1));
            }
            i += 1;
        }
        let r = LagrangeSelectors { is_first_row, is_last_row, is_transition, inv_zeroifier };
        proof {
            assert(r@.is_first_row =~= self.spec_selectors(fc, *d, point@).is_first_row);
            assert(r@.is_last_row =~= self.spec_selectors(fc, *d, point@).is_last_row);
            assert(r@.is_transition =~= self.spec_selectors(fc, *d, point@).is_transition);
            assert(r@.inv_zeroifier =~= self.spec_selectors(fc, *d, point@).inv_zeroifier);
        }
        r
    }

    fn create_disjoint_domain(&self, d: &Domain, size: usize) -> (r: Domain) {
        let shift: u64 = (((d.shift % 257) as u64) + ((size % 257) as u64)) % 257;
        proof {
            vstd::arithmetic::div_mod::lemma_add_mod_noop(d.shift as int, size as int, 257);
        }
        Domain { log_n: d.log_n, shift }
    }

    fn split_domains(&self, fc: &SmallConfig, d: &Domain, n: usize) -> (r: Vec<Domain>) {
        let mut r: Vec<Domain> = Vec::new();
        let mut i: usize = 0;
        while i < n
            invariant
                i <= n,
                r@ == self.spec_split_domains(*d, n as nat).subrange(0, i as int),
            decreases n - i,
        {
            let shift: u64 = ((d.shift % 257) + ((i as u64) % 257) + 1) % 257;
            proof {
                vstd::arithmetic::div_mod::lemma_add_mod_noop(
                    d.shift as int,
                    i as int + 1,
                    257,
                );
                vstd::arithmetic::div_mod::lemma_add_mod_noop(i as int, 1, 257);
                assert((i as u64 % 257) + 1 == ((i as int + 1) % 257) || (i as u64 % 257) + 1 == 257);
            }
            r.push(Domain { log_n: d.log_n, shift });
            proof {
                assert(r@ =~= self.spec_split_domains(*d, n as nat).subrange(0, i + 1));
            }
            i += 1;
        }
        proof {
            assert(r@ =~= self.spec_split_domains(*d, n as nat));
            // every vanishing value is 1 or 2, and both are invertible
            assert(is_inv1(1u64, 1u64));
            assert(is_inv1(2u64, 129u64));
            assert forall|a: int, b: int|
                0 <= a < r@.len() && 0 <= b < r@.len() && a != b implies fc.spec_has_inverse(
                #[trigger] self.spec_zp_at_point(fc, r@[b], self.spec_first_point(fc, r@[a])),
            ) by {
                let zp = self.spec_zp_at_point(fc, r@[b], self.spec_first_point(fc, r@[a]));
                assert forall|k: int| 0 <= k < 4 implies has_inv1(#[trigger] getf(zp, k)) by {
                    assert(getf(zp, k) == zp[k]);
                    assert(zp[k] == 1u64 || zp[k] == 2u64);
                    if zp[k] == 1u64 {
                        assert(is_inv1(getf(zp, k), 1u64));
                    } else {
                        assert(is_inv1(getf(zp, k), 129u64));
                    }
                }
            }
        }
        r
    }

    fn verify(
        &self,
        fc: &SmallConfig,
        rounds: &Vec<Round>,
        proof: &OpeningProof,
        challenger: &mut DuplexChallenger,
    ) -> (r: Result<(), OpeningError>) {
        let mut acc: u64 = 0;
        let mut i: usize = 0;
        while i < rounds.len()
            invariant
                i <= rounds@.len(),
                acc == chk_rounds(rounds_model(rounds@), i as nat),
            decreases rounds@.len() - i,
        {
            let d = &rounds[i].commitment;
            let mut inner: u64 = 0;
            let mut k: usize = 0;
            while k < d.len()
                invariant
                    k <= d@.len(),
                    i < rounds@.len(),
                    d@ == rounds@[i as int].commitment@,
                    inner == chk_digest(d@, k as nat),
                decreases d@.len() - k,
            {
                proof {
                    assert(getf(d@, k as int) == d@[k as int]);
                }
                inner = add_f(inner, d[k]);
                k += 1;
            }
            proof {
                assert(rounds_model(rounds@)[i as int].commitment == rounds@[i as int].commitment@);
            }
            acc = add_f(acc, inner);
            i += 1;
        }
        if proof.data.len() >= 1 && proof.data[0] == acc {
            Result::Ok(())
        } else {
            Result::Err(OpeningError)
        }
    }
}

/// One lane of the sample chip's constraint: `is_first_row + pv0 - m0`.
pub open spec fn spec_sample_constraint(fc: &SmallConfig, f: FolderModel) -> Seq<u64> {
    let pv0: u64 = if f.public_values.len() >= 1 {
        f.public_values[0]
    } else {
        0u64
    };
    fc.spec_add(f.is_first_row, fc.spec_sub(fc.spec_embed(pv0), f.main.local[0]))
}

/// A configurable test chip: declared widths are plain fields, and its one
/// optional constraint ties the first main column to the first public value
/// through the first-row selector.
pub struct SampleChip {
    pub chip_name: String,
    pub preprocessed_w: usize,
    pub main_w: usize,
    pub perm_w: usize,
    pub log_qd: usize,
    pub constrained: bool,
}

impl Chip<SmallConfig> for SampleChip {
    open spec fn spec_name(&self) -> Seq<char> {
        self.chip_name@
    }

    open spec fn spec_preprocessed_width(&self) -> nat {
        self.preprocessed_w as nat
    }

    open spec fn spec_width(&self) -> nat {
        self.main_w as nat
    }

    open spec fn spec_permutation_width(&self) -> nat {
        self.perm_w as nat
    }

    open spec fn spec_log_quotient_degree(&self) -> nat {
        if self.log_qd <= 20 {
            self.log_qd as nat
        } else {
            0
        }
    }

    open spec fn spec_eval(&self, fc: &SmallConfig, f: FolderModel) -> Seq<u64> {
        if self.constrained && f.main.local.len() >= 1 {
            spec_fold_constraint(fc, f, spec_sample_constraint(fc, f)).accumulator
        } else {
            f.accumulator
        }
    }

    proof fn lemma_eval_shape(&self, fc: &SmallConfig, f: FolderModel) {
        fc.lemma_op_shapes();
    }

    fn name(&self) -> (r: String) {
        String::from_str(self.chip_name.as_str())
    }

    fn preprocessed_width(&self) -> (r: usize) {
        self.preprocessed_w
    }

    fn width(&self) -> (r: usize) {
        self.main_w
    }

    fn permutation_width(&self) -> (r: usize) {
        self.perm_w
    }

    fn log_quotient_degree(&self) -> (r: usize) {
        if self.log_qd <= 20 {
            self.log_qd
        } else {
            0
        }
    }

    fn quotient_width(&self) -> (r: usize) {
        let l: usize = if self.log_qd <= 20 {
            self.log_qd
        } else {
            0
        };
        proof {
            vstd::arithmetic::power2::lemma2_to64();
            if (l as nat) < 20 {
                vstd::arithmetic::power2::lemma_pow2_strictly_increases(l as nat, 20);
            }
            assert(pow2(20) == 0x100000);
        }
        pow2_usize(l)
    }

    fn eval(&self, fc: &SmallConfig, folder: &mut ConstraintFolder) {
        if self.constrained && folder.main.local.len() >= 1 {
            let pv0: u64 = if folder.public_values.len() >= 1 {
                folder.public_values[0]
            } else {
                0
            };
            let emb = fc.embed(pv0);
            proof {
                fc.lemma_op_shapes();
                assert(folder.main.local.deep_view()[0] == folder.main.local@[0]@);
                assert(old(folder)@.main.local[0].len() == 4);
            }
            let diff = fc.sub(&emb, &folder.main.local[0]);
            let c = fc.add(&folder.is_first_row, &diff);
            proof {
                fc.lemma_op_shapes();
                assert(c@ == spec_sample_constraint(fc, old(folder)@)) by {
                    assert(old(folder)@.main.local[0] == old(folder).main.local@[0]@);
                }
            }
            folder.assert_zero(fc, &c);
        }
    }
}

} // verus!
