//! A Merkle-tree vector commitment over digests, with leaves stored in
//! bit-reversed order. `commit` builds the tree, `open` produces an
//! authentication path, and `verify` recomputes the root from a path.
//!
//! Callers address leaves by their original index; `commit` permutes the
//! padded leaf layer by bit reversal, and `open`/`verify` translate the
//! index accordingly.
use vstd::prelude::*;
use vstd::arithmetic::power2::{pow2, lemma_pow2_unfold, lemma_pow2_adds, lemma_pow2_pos, lemma2_to64};
use vstd::arithmetic::div_mod::{
    lemma_fundamental_div_mod, lemma_div_denominator, lemma_multiply_divide_lt,
    lemma_div_multiples_vanish,
};
use crate::bits::{rev_bits, lemma_rev_bits_bound, lemma_rev_bits_involution, reverse_bits_len, pow2_usize};
use crate::hashing::{Digest, FieldHasher};
use crate::field::{copy_felts, felts_eq};

verus! {

broadcast use crate::field::lemma_deep_view_felts;

/// Rejection of a Merkle opening: the recomputed root differs.
#[derive(Debug, Clone, Copy, PartialEq, Eq, Structural)]
pub struct VcsError;

/// A committed Merkle tree: all layers except the root, flattened, with the
/// (padded, bit-reversed) leaves first.
pub struct MerkleTree {
    /// The logarithm of the number of padded leaves.
    pub height: usize,
    /// All `2 * 2^height - 2` non-root digests, layer by layer.
    pub digest_layers: Vec<Digest>,
}

/// The leaves padded with default digests up to length `n`.
pub open spec fn spec_padded<H: FieldHasher>(hasher: &H, leaves: Seq<Seq<u64>>, n: nat) -> Seq<Seq<u64>> {
    Seq::new(n, |i: int| if i < leaves.len() { leaves[i] } else { hasher.spec_default_digest() })
}

/// The leaf layer: padded leaves permuted by bit reversal of their index.
pub open spec fn spec_base_layer<H: FieldHasher>(hasher: &H, leaves: Seq<Seq<u64>>, height: nat) -> Seq<Seq<u64>> {
    Seq::new(pow2(height), |j: int| spec_padded(hasher, leaves, pow2(height))[rev_bits(j as nat, height) as int])
}

/// One reduction step: compress adjacent pairs.
pub open spec fn spec_next_layer<H: FieldHasher>(hasher: &H, layer: Seq<Seq<u64>>) -> Seq<Seq<u64>> {
    Seq::new(layer.len() / 2, |i: int| hasher.spec_compress(layer[2 * i], layer[2 * i + 1]))
}

/// Layer `l` of the tree over a given leaf layer.
pub open spec fn spec_layer<H: FieldHasher>(hasher: &H, base: Seq<Seq<u64>>, l: nat) -> Seq<Seq<u64>>
    decreases l,
{
    if l == 0 {
        base
    } else {
        spec_next_layer(hasher, spec_layer(hasher, base, (l - 1) as nat))
    }
}

/// The digest at position `j` of layer `l`; the root is `tree_node(_, _, height, 0)`.
pub open spec fn tree_node<H: FieldHasher>(hasher: &H, base: Seq<Seq<u64>>, l: nat, j: nat) -> Seq<u64> {
    spec_layer(hasher, base, l)[j as int]
}

/// Start of layer `l` within the flattened `digest_layers`.
pub open spec fn layer_offset(height: nat, l: nat) -> nat
    decreases l,
{
    if l == 0 {
        0
    } else {
        layer_offset(height, (l - 1) as nat) + pow2((height - (l - 1)) as nat)
    }
}

/// The index of the sibling of position `i` within its layer.
pub open spec fn sibling_index(i: nat) -> nat {
    if i % 2 == 0 {
        i + 1
    } else {
        (i - 1) as nat
    }
}

/// The flattened vector holds every layer of the tree at its offset.
pub open spec fn layers_stored<H: FieldHasher>(
    hasher: &H,
    base: Seq<Seq<u64>>,
    height: nat,
    flat: Seq<Seq<u64>>,
) -> bool {
    &&& flat.len() == 2 * pow2(height) - 2
    &&& forall|l: nat, j: nat|
        l < height && j < pow2((height - l) as nat) ==> flat[(layer_offset(height, l) + j) as int]
            == #[trigger] tree_node(hasher, base, l, j)
}

/// The authentication path read out of the flattened layers for the
/// (already bit-reversed) position `i0`.
pub open spec fn spec_open_path(height: nat, i0: nat, flat: Seq<Seq<u64>>) -> Seq<Seq<u64>> {
    Seq::new(
        height,
        |l: int| flat[(layer_offset(height, l as nat) + sibling_index(i0 / pow2(l as nat))) as int],
    )
}

/// The same path expressed over tree nodes.
pub open spec fn spec_tree_path<H: FieldHasher>(hasher: &H, base: Seq<Seq<u64>>, height: nat, i0: nat) -> Seq<Seq<u64>> {
    Seq::new(
        height,
        |l: int| tree_node(hasher, base, l as nat, sibling_index(i0 / pow2(l as nat))),
    )
}

/// Recompute the root from a value at (bit-reversed) position `i` and its
/// authentication path: pair by parity, compress, halve the index.
pub open spec fn spec_fold<H: FieldHasher>(hasher: &H, i: nat, value: Seq<u64>, path: Seq<Seq<u64>>) -> Seq<u64>
    decreases path.len(),
{
    if path.len() == 0 {
        value
    } else {
        let next = if i % 2 == 0 {
            hasher.spec_compress(value, path[0])
        } else {
            hasher.spec_compress(path[0], value)
        };
        spec_fold(hasher, i / 2, next, path.subrange(1, path.len() as int))
    }
}

/// The same recomputation driven by a sequence of bits, one per level,
/// low level first; a set bit swaps the pair.
pub open spec fn spec_fold_bits<H: FieldHasher>(hasher: &H, bits: Seq<bool>, value: Seq<u64>, path: Seq<Seq<u64>>) -> Seq<u64>
    decreases path.len(),
{
    if path.len() == 0 || bits.len() == 0 {
        value
    } else {
        let next = if !bits[0] {
            hasher.spec_compress(value, path[0])
        } else {
            hasher.spec_compress(path[0], value)
        };
        spec_fold_bits(hasher, bits.subrange(1, bits.len() as int), next, path.subrange(1, path.len() as int))
    }
}

/// A bit sequence reversed end to end.
pub open spec fn reversed_bools(bits: Seq<bool>) -> Seq<bool> {
    Seq::new(bits.len(), |l: int| bits[bits.len() - 1 - l])
}

pub proof fn lemma_layer_len<H: FieldHasher>(hasher: &H, base: Seq<Seq<u64>>, height: nat, l: nat)
    requires
        base.len() == pow2(height),
        l <= height,
    ensures
        spec_layer(hasher, base, l).len() == pow2((height - l) as nat),
    decreases l,
{
    if l == 0 {
    } else {
        lemma_layer_len(hasher, base, height, (l - 1) as nat);
        lemma_pow2_unfold((height - (l - 1)) as nat);
        assert(spec_layer(hasher, base, (l - 1) as nat).len() == 2 * pow2((height - l) as nat));
        lemma_div_multiples_vanish(pow2((height - l) as nat) as int, 2);
    }
}

/// Closed form of the layer offsets.
pub proof fn lemma_layer_offset(height: nat, l: nat)
    requires
        l <= height,
    ensures
        layer_offset(height, l) + 2 * pow2((height - l) as nat) == 2 * pow2(height),
    decreases l,
{
    if l == 0 {
    } else {
        lemma_layer_offset(height, (l - 1) as nat);
        lemma_pow2_unfold((height - (l - 1)) as nat);
    }
}

/// A whole layer lies before the offset of any later layer.
pub proof fn lemma_layer_offset_mono(height: nat, l1: nat, l2: nat)
    requires
        l1 < l2 <= height,
    ensures
        layer_offset(height, l1) + pow2((height - l1) as nat) <= layer_offset(height, l2),
{
    lemma_layer_offset(height, l1);
    lemma_layer_offset(height, l2);
    // reduces to pow2(height - l1) >= 2 * pow2(height - l2)
    lemma_pow2_unfold((height - l1) as nat);
    if ((height - l2) as nat) < ((height - l1 - 1) as nat) {
        vstd::arithmetic::power2::lemma_pow2_strictly_increases(
            (height - l2) as nat,
            (height - l1 - 1) as nat,
        );
    } else {
        assert((height - l2) as nat == (height - l1 - 1) as nat);
    }
}

/// Folding a correct path from any node reaches the root.
pub proof fn lemma_fold_layers<H: FieldHasher>(
    hasher: &H,
    base: Seq<Seq<u64>>,
    height: nat,
    l: nat,
    i: nat,
    sibs: Seq<Seq<u64>>,
)
    requires
        base.len() == pow2(height),
        l <= height,
        i < pow2((height - l) as nat),
        sibs.len() == height - l,
        forall|k: nat|
            k < height - l ==> #[trigger] sibs[k as int] == tree_node(
                hasher,
                base,
                (l + k) as nat,
                sibling_index(i / pow2(k)),
            ),
    ensures
        spec_fold(hasher, i, tree_node(hasher, base, l, i), sibs) == tree_node(hasher, base, height, 0),
    decreases height - l,
{
    if l == height {
        lemma2_to64();
        assert(i == 0);
    } else {
        lemma_layer_len(hasher, base, height, l);
        lemma_layer_len(hasher, base, height, (l + 1) as nat);
        lemma_pow2_unfold((height - l) as nat);
        let i2 = i / 2;
        assert(i2 < pow2((height - (l + 1)) as nat)) by {
            lemma_fundamental_div_mod(i as int, 2);
            if i2 >= pow2((height - (l + 1)) as nat) {
                assert(i >= 2 * i2);
                assert(2 * i2 >= 2 * pow2((height - (l + 1)) as nat));
            }
        }
        // sibs[0] is the sibling at layer l
        assert(i / pow2(0) == i) by {
            lemma2_to64();
        }
        assert(sibs[0] == tree_node(hasher, base, l, sibling_index(i)));
        // pairing: layer l+1 at i/2 compresses positions 2*(i/2) and 2*(i/2)+1
        assert(spec_layer(hasher, base, (l + 1) as nat) == spec_next_layer(hasher, spec_layer(hasher, base, l)));
        lemma_fundamental_div_mod(i as int, 2);
        let next = if i % 2 == 0 {
            hasher.spec_compress(tree_node(hasher, base, l, i), sibs[0])
        } else {
            hasher.spec_compress(sibs[0], tree_node(hasher, base, l, i))
        };
        assert(next == tree_node(hasher, base, (l + 1) as nat, i2)) by {
            if i % 2 == 0 {
                assert(2 * i2 == i);
                assert(sibling_index(i) == i + 1);
            } else {
                assert(2 * i2 == i - 1);
                assert(sibling_index(i) == i - 1);
            }
            assert(spec_next_layer(hasher, spec_layer(hasher, base, l))[i2 as int]
                == hasher.spec_compress(
                    spec_layer(hasher, base, l)[2 * i2 as int],
                    spec_layer(hasher, base, l)[2 * i2 as int + 1],
                ));
        }
        let sibs2 = sibs.subrange(1, sibs.len() as int);
        assert forall|k: nat| k < height - (l + 1) implies #[trigger] sibs2[k as int] == tree_node(
            hasher,
            base,
            ((l + 1) + k) as nat,
            sibling_index(i2 / pow2(k)),
        ) by {
            assert(sibs2[k as int] == sibs[k + 1 as int]);
            assert(sibs[(k + 1) as int] == tree_node(
                hasher,
                base,
                (l + (k + 1)) as nat,
                sibling_index(i / pow2((k + 1) as nat)),
            ));
            lemma_pow2_pos(k);
            lemma_div_denominator(i as int, 2, pow2(k) as int);
            lemma_pow2_unfold((k + 1) as nat);
            assert(i / pow2((k + 1) as nat) == i2 / pow2(k));
        }
        lemma_fold_layers(hasher, base, height, (l + 1) as nat, i2, sibs2);
        assert(spec_fold(hasher, i, tree_node(hasher, base, l, i), sibs)
            == spec_fold(hasher, i2, next, sibs2));
    }
}

/// What `open` reads out of a stored tree is the sibling path over tree
/// nodes: the form the round-trip law speaks of.
pub proof fn lemma_open_path_nodes<H: FieldHasher>(
    hasher: &H,
    base: Seq<Seq<u64>>,
    height: nat,
    i0: nat,
    flat: Seq<Seq<u64>>,
)
    requires
        layers_stored(hasher, base, height, flat),
        i0 < pow2(height),
    ensures
        spec_open_path(height, i0, flat) == spec_tree_path(hasher, base, height, i0),
{
    assert forall|l: int| 0 <= l < height implies spec_open_path(height, i0, flat)[l]
        == spec_tree_path(hasher, base, height, i0)[l] by {
        let ln = l as nat;
        lemma_pow2_adds(ln, (height - ln) as nat);
        lemma_pow2_pos(ln);
        lemma_pow2_pos((height - ln) as nat);
        lemma_multiply_divide_lt(i0 as int, pow2(ln) as int, pow2((height - ln) as nat) as int);
        let pos = i0 / pow2(ln);
        assert(pos < pow2((height - ln) as nat));
        assert(sibling_index(pos) < pow2((height - ln) as nat)) by {
            lemma_pow2_unfold((height - ln) as nat);
            if pos % 2 == 0 {
                lemma_fundamental_div_mod((pos + 1) as int, 2);
            }
        }
        assert(flat[(layer_offset(height, ln) + sibling_index(pos)) as int] == tree_node(
            hasher,
            base,
            ln,
            sibling_index(pos),
        ));
    }
    assert(spec_open_path(height, i0, flat) =~= spec_tree_path(hasher, base, height, i0));
}

/// The Merkle round trip: opening any leaf of a committed tree yields the
/// leaf itself, and folding its path reproduces the root.
pub proof fn lemma_merkle_round_trip<H: FieldHasher>(hasher: &H, leaves: Seq<Seq<u64>>, height: nat, index: nat)
    requires
        2 <= leaves.len(),
        leaves.len() <= pow2(height),
        index < leaves.len(),
    ensures
        ({
            let base = spec_base_layer(hasher, leaves, height);
            let i0 = rev_bits(index, height);
            &&& base[i0 as int] == leaves[index as int]
            &&& spec_fold(hasher, i0, leaves[index as int], spec_tree_path(hasher, base, height, i0))
                == tree_node(hasher, base, height, 0)
        }),
{
    let base = spec_base_layer(hasher, leaves, height);
    let i0 = rev_bits(index, height);
    lemma_rev_bits_bound(index, height);
    lemma_rev_bits_involution(index, height);
    assert(base[i0 as int] == spec_padded(hasher, leaves, pow2(height))[rev_bits(i0, height) as int]);
    assert(rev_bits(i0, height) == index);
    assert(base[i0 as int] == leaves[index as int]);
    let sibs = spec_tree_path(hasher, base, height, i0);
    assert forall|k: nat| k < height - 0 implies #[trigger] sibs[k as int] == tree_node(
        hasher,
        base,
        (0 + k) as nat,
        sibling_index(i0 / pow2(k)),
    ) by {
        assert(sibs[k as int] == tree_node(hasher, base, k, sibling_index(i0 / pow2(k))));
    }
    assert(tree_node(hasher, base, 0, i0) == base[i0 as int]);
    lemma_fold_layers(hasher, base, height, 0, i0, sibs);
}

/// The commitment and every node of the tree depend only on the padded
/// leaf layer: two leaf vectors with the same padded form commit to the
/// same tree, and so open to the same values and paths.
pub proof fn lemma_padding_independence<H: FieldHasher>(
    hasher: &H,
    leaves1: Seq<Seq<u64>>,
    leaves2: Seq<Seq<u64>>,
    height: nat,
)
    requires
        spec_padded(hasher, leaves1, pow2(height)) == spec_padded(hasher, leaves2, pow2(height)),
    ensures
        spec_base_layer(hasher, leaves1, height) == spec_base_layer(hasher, leaves2, height),
        tree_node(hasher, spec_base_layer(hasher, leaves1, height), height, 0) == tree_node(
            hasher,
            spec_base_layer(hasher, leaves2, height),
            height,
            0,
        ),
{
    assert(spec_base_layer(hasher, leaves1, height) =~= spec_base_layer(hasher, leaves2, height));
}

/// A path of bits, one per level low level first, folds exactly as the
/// integer position whose binary digits they are.
pub proof fn lemma_fold_bits_matches<H: FieldHasher>(
    hasher: &H,
    bits: Seq<bool>,
    i: nat,
    value: Seq<u64>,
    path: Seq<Seq<u64>>,
)
    requires
        bits.len() == path.len(),
        forall|l: nat| l < bits.len() ==> #[trigger] bits[l as int] == ((i / pow2(l)) % 2 == 1),
    ensures
        spec_fold_bits(hasher, bits, value, path) == spec_fold(hasher, i, value, path),
    decreases path.len(),
{
    if path.len() == 0 {
    } else {
        assert(bits[0] == ((i / pow2(0)) % 2 == 1));
        assert(i / pow2(0) == i) by {
            lemma2_to64();
        }
        let next = if i % 2 == 0 {
            hasher.spec_compress(value, path[0])
        } else {
            hasher.spec_compress(path[0], value)
        };
        let bits2 = bits.subrange(1, bits.len() as int);
        let path2 = path.subrange(1, path.len() as int);
        assert forall|l: nat| l < bits2.len() implies #[trigger] bits2[l as int] == (((i / 2) / pow2(l)) % 2
            == 1) by {
            assert(bits2[l as int] == bits[(l + 1) as int]);
            assert(bits[(l + 1) as int] == ((i / pow2((l + 1) as nat)) % 2 == 1));
            lemma_pow2_pos(l);
            lemma_div_denominator(i as int, 2, pow2(l) as int);
            lemma_pow2_unfold((l + 1) as nat);
        }
        lemma_fold_bits_matches(hasher, bits2, i / 2, next, path2);
    }
}

impl MerkleTree {
    /// Structural soundness of a committed tree.
    pub open spec fn wf(&self) -> bool {
        &&& self.height >= 1
        &&& self.digest_layers@.len() == 2 * pow2(self.height as nat) - 2
    }

    /// Commit to a non-empty vector of leaves: pad to a power of two with
    /// default digests, permute by bit reversal, then compress layer by
    /// layer; the root is returned and not stored.
    pub fn commit<H: FieldHasher>(hasher: &H, leaves: Vec<Digest>) -> (res: (Digest, MerkleTree))
        requires
            2 <= leaves@.len(),
            2 * leaves@.len() <= usize::MAX as nat + 1,
            4 * leaves@.len() <= usize::MAX as nat + 4,
        ensures
            ({
                let tree = res.1;
                let h = tree.height as nat;
                let base = spec_base_layer(hasher, leaves.deep_view(), h);
                &&& tree.wf()
                &&& leaves@.len() <= pow2(h)
                &&& pow2(h) < 2 * leaves@.len()
                &&& layers_stored(hasher, base, h, tree.digest_layers.deep_view())
                &&& res.0@ == tree_node(hasher, base, h, 0)
            }),
    {
        let ghost ldv: Seq<Seq<u64>> = leaves.deep_view();
        let len: usize = leaves.len();
        // the padded size: the least power of two not below the leaf count
        let mut n: usize = 1;
        let mut height: usize = 0;
        proof {
            lemma2_to64();
        }
        while n < len
            invariant
                n >= 1,
                height as nat <= n as nat,
                n as nat == pow2(height as nat),
                height == 0 || pow2((height - 1) as nat) < len as nat,
                2 <= len,
                2 * len <= usize::MAX as nat + 1,
            decreases 2 * len - n,
        {
            proof {
                lemma_pow2_unfold((height + 1) as nat);
            }
            n = n * 2;
            height = height + 1;
        }
        let ghost h: nat = height as nat;
        proof {
            lemma2_to64();
            assert(height >= 1);
            assert(pow2(h) >= len as nat);
            assert(pow2(h) < 2 * len as nat) by {
                lemma_pow2_unfold(h);
            }
        }
        // pad with default digests
        let mut padded: Vec<Digest> = leaves;
        proof {
            assert(padded.deep_view() =~~= spec_padded(hasher, ldv, padded@.len() as nat));
        }
        while padded.len() < n
            invariant
                len as nat <= padded@.len() <= n as nat,
                padded.deep_view() == spec_padded(hasher, ldv, padded@.len() as nat),
                ldv.len() == len as nat,
            decreases n - padded@.len(),
        {
            let ghost predv: Seq<Seq<u64>> = padded.deep_view();
            let ghost oldlen: int = padded@.len() as int;
            let d = hasher.default_digest();
            padded.push(d);
            proof {
                assert forall|ii: int| 0 <= ii < padded@.len() implies padded.deep_view()[ii]
                    == spec_padded(hasher, ldv, padded@.len() as nat)[ii] by {
                    if ii < oldlen {
                        assert(padded.deep_view()[ii] == predv[ii]);
                        assert(predv[ii] == spec_padded(hasher, ldv, oldlen as nat)[ii]);
                    } else {
                        assert(padded.deep_view()[ii] == d.deep_view());
                    }
                }
                assert(padded.deep_view() =~= spec_padded(hasher, ldv, padded@.len() as nat));
            }
        }
        proof {
            assert(padded.deep_view() == spec_padded(hasher, ldv, pow2(h)));
        }
        // permute the padded leaves by bit reversal of their index
        let ghost base: Seq<Seq<u64>> = spec_base_layer(hasher, ldv, h);
        let mut cur: Vec<Digest> = Vec::new();
        let mut j: usize = 0;
        while j < n
            invariant
                j <= n,
                h == height as nat,
                n as nat == pow2(h),
                n <= usize::MAX,
                2 * len <= usize::MAX as nat + 1,
                padded@.len() == n as nat,
                padded.deep_view() == spec_padded(hasher, ldv, pow2(h)),
                base == spec_base_layer(hasher, ldv, h),
                cur@.len() == j as nat,
                forall|k: int| 0 <= k < j ==> cur.deep_view()[k] == base[k],
            decreases n - j,
        {
            proof {
                lemma_rev_bits_bound(j as nat, h);
            }
            let rj: usize = reverse_bits_len(j, height);
            let d = copy_felts(&padded[rj]);
            cur.push(d);
            proof {
                assert(cur.deep_view()[j as int] == padded.deep_view()[rj as int]);
                assert(cur.deep_view()[j as int] == base[j as int]);
            }
            j += 1;
        }
        proof {
            assert(cur.deep_view() =~= base);
        }
        // store the leaf layer, then compress layer by layer
        let mut digest_layers: Vec<Digest> = Vec::new();
        let mut k: usize = 0;
        while k < n
            invariant
                k <= n,
                cur@.len() == n as nat,
                cur.deep_view() == base,
                digest_layers@.len() == k as nat,
                forall|t: int| 0 <= t < k ==> digest_layers.deep_view()[t] == base[t],
            decreases n - k,
        {
            let d = copy_felts(&cur[k]);
            digest_layers.push(d);
            k += 1;
        }
        let ghost flat0: Seq<Seq<u64>> = digest_layers.deep_view();
        proof {
            lemma_layer_offset(h, 0);
            assert(base.len() == pow2(h));
            assert(spec_layer(hasher, base, 0) == base);
        }
        // build layers 1 .. height - 1
        let mut lev: usize = 1;
        while lev < height
            invariant
                1 <= lev <= height,
                h == height as nat,
                base.len() == pow2(h),
                base == spec_base_layer(hasher, ldv, h),
                cur.deep_view() == spec_layer(hasher, base, (lev - 1) as nat),
                cur@.len() == pow2((h - (lev - 1)) as nat),
                digest_layers@.len() == layer_offset(h, lev as nat),
                2 * pow2(h) <= usize::MAX as nat + 2,
                forall|l: nat, j2: nat|
                    l < lev && j2 < pow2((h - l) as nat) ==> digest_layers.deep_view()[(layer_offset(
                        h,
                        l,
                    ) + j2) as int] == #[trigger] tree_node(hasher, base, l, j2),
            decreases height - lev,
        {
            proof {
                lemma_layer_len(hasher, base, h, (lev - 1) as nat);
                lemma_layer_len(hasher, base, h, lev as nat);
                lemma_pow2_unfold((h - (lev - 1)) as nat);
            }
            let half: usize = cur.len() / 2;
            proof {
                assert(cur@.len() == 2 * pow2((h - lev) as nat));
                lemma_div_multiples_vanish(pow2((h - lev) as nat) as int, 2);
                assert(half as nat == pow2((h - lev) as nat));
            }
            let mut next: Vec<Digest> = Vec::new();
            let mut m: usize = 0;
            while m < half
                invariant
                    m <= half,
                    2 * half == cur@.len(),
                    cur@.len() <= usize::MAX as nat,
                    cur.deep_view() == spec_layer(hasher, base, (lev - 1) as nat),
                    half as nat == spec_next_layer(hasher, spec_layer(hasher, base, (lev - 1) as nat)).len(),
                    next@.len() == m as nat,
                    forall|t: int|
                        0 <= t < m ==> next.deep_view()[t] == spec_next_layer(
                            hasher,
                            spec_layer(hasher, base, (lev - 1) as nat),
                        )[t],
                decreases half - m,
            {
                let ghost prenext: Seq<Seq<u64>> = next.deep_view();
                let d = hasher.compress(&cur[2 * m], &cur[2 * m + 1]);
                next.push(d);
                proof {
                    assert forall|t: int|
                        0 <= t < m + 1 implies next.deep_view()[t] == spec_next_layer(
                        hasher,
                        spec_layer(hasher, base, (lev - 1) as nat),
                    )[t] by {
                        if t < m {
                            assert(next.deep_view()[t] == prenext[t]);
                        } else {
                            assert(next.deep_view()[t] == d.deep_view());
                            assert(cur.deep_view()[2 * t] == cur@[2 * t]@);
                            assert(cur.deep_view()[2 * t + 1] == cur@[2 * t + 1]@);
                        }
                    }
                }
                m += 1;
            }
            proof {
                assert(next.deep_view() =~= spec_next_layer(hasher, spec_layer(hasher, base, (lev - 1) as nat)));
                assert(next.deep_view() == spec_layer(hasher, base, lev as nat));
            }
            // append the new layer to the flat vector
            let mut t: usize = 0;
            let ghost pre: Seq<Seq<u64>> = digest_layers.deep_view();
            proof {
                lemma_layer_offset(h, (lev + 1) as nat);
                lemma_pow2_pos((h - lev - 1) as nat);
                assert(layer_offset(h, (lev + 1) as nat) <= 2 * pow2(h) - 2);
                assert(pre.len() + half as nat == layer_offset(h, (lev + 1) as nat));
            }
            while t < half
                invariant
                    t <= half,
                    next@.len() == half as nat,
                    digest_layers@.len() == pre.len() + t as nat,
                    pre.len() + half as nat <= usize::MAX as nat,
                    forall|u: int| 0 <= u < pre.len() ==> digest_layers.deep_view()[u] == pre[u],
                    forall|u: int|
                        0 <= u < t ==> digest_layers.deep_view()[pre.len() + u] == next.deep_view()[u],
                decreases half - t,
            {
                let d = copy_felts(&next[t]);
                digest_layers.push(d);
                t += 1;
            }
            proof {
                // offsets advance by the size of the stored layer
                assert(layer_offset(h, (lev + 1) as nat) == layer_offset(h, lev as nat) + pow2((h
                    - lev) as nat));
                lemma_layer_offset(h, (lev + 1) as nat);
                assert forall|l: nat, j2: nat|
                    l < lev as nat + 1 && j2 < pow2((h - l) as nat) implies digest_layers.deep_view()[(
                layer_offset(h, l) + j2) as int] == #[trigger] tree_node(hasher, base, l, j2) by {
                    if l < lev as nat {
                        lemma_layer_offset_mono(h, l, lev as nat);
                        assert(digest_layers.deep_view()[(layer_offset(h, l) + j2) as int] == pre[(
                        layer_offset(h, l) + j2) as int]);
                    } else {
                        assert(l == lev as nat);
                        assert(digest_layers.deep_view()[(pre.len() + j2 as nat) as int]
                            == next.deep_view()[j2 as int]);
                        assert(next.deep_view()[j2 as int] == tree_node(hasher, base, l, j2));
                    }
                }
            }
            cur = next;
            lev += 1;
        }
        proof {
            lemma_layer_len(hasher, base, h, (height - 1) as nat);
            lemma_pow2_unfold((h - (height - 1)) as nat);
            lemma2_to64();
            assert(cur@.len() == 2);
            lemma_layer_offset(h, h);
            assert(digest_layers@.len() == 2 * pow2(h) - 2);
        }
        let root = hasher.compress(&cur[0], &cur[1]);
        proof {
            // the root is the single node of the next reduction
            lemma_layer_len(hasher, base, h, h);
            assert(spec_layer(hasher, base, h) == spec_next_layer(hasher, spec_layer(hasher, base, (h - 1) as nat)));
            assert(tree_node(hasher, base, h, 0) == hasher.spec_compress(
                spec_layer(hasher, base, (h - 1) as nat)[0],
                spec_layer(hasher, base, (h - 1) as nat)[1],
            ));
            assert(cur.deep_view()[0] == spec_layer(hasher, base, (h - 1) as nat)[0]);
            assert(cur.deep_view()[1] == spec_layer(hasher, base, (h - 1) as nat)[1]);
        }
        let tree = MerkleTree { height, digest_layers };
        (root, tree)
    }

    /// Open the leaf at `index` (an original, not bit-reversed, position):
    /// returns the stored digest and the sibling path from leaf to root.
    pub fn open(&self, index: usize) -> (r: (Digest, Vec<Digest>))
        requires
            self.wf(),
            (index as nat) < pow2(self.height as nat),
        ensures
            ({
                let h = self.height as nat;
                let i0 = rev_bits(index as nat, h);
                let flat = self.digest_layers.deep_view();
                &&& r.0@ == flat[i0 as int]
                &&& r.1@.len() == h
                &&& r.1.deep_view() == spec_open_path(h, i0, flat)
            }),
    {
        let ghost h: nat = self.height as nat;
        let ghost flat: Seq<Seq<u64>> = self.digest_layers.deep_view();
        let fl: usize = self.digest_layers.len();
        proof {
            lemma_pow2_pos(h);
            lemma_pow2_unfold(h);
            lemma_pow2_pos((h - 1) as nat);
            lemma_layer_offset(h, 0);
            assert(fl as nat == 2 * pow2(h) - 2);
            assert(pow2(h) >= 2);
            assert(pow2(h) <= usize::MAX as nat + 1);
        }
        let mut i: usize = reverse_bits_len(index, self.height);
        let ghost i0: nat = i as nat;
        proof {
            lemma2_to64();
            assert(i0 / pow2(0) == i0);
        }
        let value = copy_felts(&self.digest_layers[i]);
        let mut path: Vec<Digest> = Vec::new();
        let mut offset: usize = 0;
        let mut l: usize = 0;
        while l < self.height
            invariant
                self.wf(),
                l <= self.height,
                h == self.height as nat,
                flat == self.digest_layers.deep_view(),
                flat.len() == 2 * pow2(h) - 2,
                2 * pow2(h) - 2 <= usize::MAX as nat,
                i as nat == i0 / pow2(l as nat),
                i0 < pow2(h),
                offset as nat == layer_offset(h, l as nat),
                path@.len() == l as nat,
                forall|k: int|
                    0 <= k < l ==> path.deep_view()[k] == spec_open_path(h, i0, flat)[k],
            decreases self.height - l,
        {
            let ghost ln: nat = l as nat;
            proof {
                // the current position is inside its layer
                lemma_pow2_adds(ln, (h - ln) as nat);
                lemma_multiply_divide_lt(i0 as int, pow2(ln) as int, pow2((h - ln) as nat) as int);
                assert((i as nat) < pow2((h - ln) as nat));
                // so the sibling is inside too, and inside the flat vector
                lemma_layer_offset(h, ln);
                lemma_pow2_unfold((h - ln) as nat);
                lemma_fundamental_div_mod(i as int, 2);
            }
            let sib: usize = if i % 2 == 0 { i + 1 } else { i - 1 };
            proof {
                assert(sib as nat == sibling_index(i as nat));
                assert((sib as nat) < pow2((h - ln) as nat)) by {
                    if i % 2 == 0 {
                        // an even position is never the last of an even-sized layer
                        assert(pow2((h - ln) as nat) == 2 * pow2((h - ln - 1) as nat));
                        if i as nat + 1 == pow2((h - ln) as nat) {
                            lemma_fundamental_div_mod((i as nat + 1) as int, 2);
                        }
                    }
                }
                // the sibling's slot lies inside the flat vector
                assert(offset as nat + (sib as nat) < 2 * pow2(h) - 2) by {
                    lemma_pow2_pos((h - ln - 1) as nat);
                    assert(layer_offset(h, ln) + 2 * pow2((h - ln) as nat) == 2 * pow2(h));
                }
                assert(flat[(offset + sib) as int] == self.digest_layers@[(offset + sib) as int]@);
            }
            let ghost prepath: Seq<Seq<u64>> = path.deep_view();
            let d = copy_felts(&self.digest_layers[offset + sib]);
            path.push(d);
            proof {
                assert forall|k: int| 0 <= k < l + 1 implies path.deep_view()[k] == spec_open_path(
                    h,
                    i0,
                    flat,
                )[k] by {
                    if k < l {
                        assert(path.deep_view()[k] == prepath[k]);
                    } else {
                        assert(path.deep_view()[k] == d.deep_view());
                    }
                }
            }
            i = i / 2;
            proof {
                // the next layer's offset still fits a usize
                lemma_layer_offset(h, (ln + 1) as nat);
                lemma_pow2_pos((h - ln - 1) as nat);
                if ln < h {
                    if ((h - ln) as nat) < h {
                        vstd::arithmetic::power2::lemma_pow2_strictly_increases((h - ln) as nat, h);
                    }
                }
                assert(pow2((h - ln) as nat) <= usize::MAX as nat);
            }
            let step = pow2_usize(self.height - l);
            offset = offset + step;
            l += 1;
            proof {
                lemma_div_denominator(i0 as int, pow2((ln) as nat) as int, 2);
                lemma_pow2_unfold((ln + 1) as nat);
                lemma_pow2_adds(ln, 1);
                assert(i as nat == i0 / pow2((ln + 1) as nat));
            }
        }
        proof {
            assert(path.deep_view() =~= spec_open_path(h, i0, flat));
        }
        (value, path)
    }

    /// Check an opened value against a commitment. The path length fixes the
    /// tree height; `index` is the original position of the leaf.
    pub fn verify<H: FieldHasher>(
        hasher: &H,
        index: usize,
        value: Digest,
        path: &Vec<Digest>,
        commitment: Digest,
    ) -> (r: Result<(), VcsError>)
        requires
            (index as nat) < pow2(path@.len() as nat),
            pow2(path@.len() as nat) <= usize::MAX as nat + 1,
        ensures
            r is Ok <==> spec_fold(
                hasher,
                rev_bits(index as nat, path@.len() as nat),
                value@,
                path.deep_view(),
            ) == commitment@,
    {
        let ghost v0: Seq<u64> = value@;
        let ghost full: Seq<Seq<u64>> = path.deep_view();
        let n = path.len();
        let mut i: usize = reverse_bits_len(index, n);
        let ghost i0: nat = i as nat;
        let mut cur: Digest = value;
        let mut l: usize = 0;
        proof {
            assert(full.subrange(0, n as int) =~= full);
        }
        while l < n
            invariant
                l <= n,
                n as nat == full.len(),
                full == path.deep_view(),
                spec_fold(hasher, i0, v0, full) == spec_fold(
                    hasher,
                    i as nat,
                    cur@,
                    full.subrange(l as int, n as int),
                ),
            decreases n - l,
        {
            let even = i % 2 == 0;
            let ghost rest: Seq<Seq<u64>> = full.subrange(l as int, n as int);
            proof {
                assert(rest[0] == full[l as int]);
                assert(rest.subrange(1, rest.len() as int) =~= full.subrange((l + 1) as int, n as int));
            }
            let next = if even {
                hasher.compress(&cur, &path[l])
            } else {
                hasher.compress(&path[l], &cur)
            };
            cur = next;
            i = i / 2;
            l += 1;
        }
        proof {
            assert(full.subrange(n as int, n as int) =~= Seq::<Seq<u64>>::empty());
        }
        if felts_eq(&cur, &commitment) {
            Ok(())
        } else {
            Err(VcsError)
        }
    }
}

/// Check an opened value against a commitment, with the position given as
/// bits of the original index, least significant first; the path is walked
/// leaf to root while the bits are consumed from the most significant end.
pub fn verify<H: FieldHasher>(
    hasher: &H,
    index_bits: &Vec<bool>,
    value: Digest,
    path: &Vec<Digest>,
    commitment: Digest,
) -> (r: Result<(), VcsError>)
    requires
        index_bits@.len() == path@.len(),
    ensures
        r is Ok <==> spec_fold_bits(
            hasher,
            reversed_bools(index_bits@),
            value@,
            path.deep_view(),
        ) == commitment@,
{
    let ghost v0: Seq<u64> = value@;
    let ghost full: Seq<Seq<u64>> = path.deep_view();
    let ghost levelbits: Seq<bool> = reversed_bools(index_bits@);
    let n = path.len();
    let mut cur: Digest = value;
    let mut l: usize = 0;
    proof {
        assert(full.subrange(0, n as int) =~= full);
        assert(levelbits.subrange(0, n as int) =~= levelbits);
    }
    while l < n
        invariant
            l <= n,
            n as nat == full.len(),
            n as nat == index_bits@.len(),
            full == path.deep_view(),
            levelbits == reversed_bools(index_bits@),
            spec_fold_bits(hasher, levelbits, v0, full) == spec_fold_bits(
                hasher,
                levelbits.subrange(l as int, n as int),
                cur@,
                full.subrange(l as int, n as int),
            ),
        decreases n - l,
    {
        let bit = index_bits[n - 1 - l];
        let ghost rest: Seq<Seq<u64>> = full.subrange(l as int, n as int);
        let ghost bitsrest: Seq<bool> = levelbits.subrange(l as int, n as int);
        proof {
            assert(rest[0] == full[l as int]);
            assert(bitsrest[0] == levelbits[l as int]);
            assert(levelbits[l as int] == index_bits@[n - 1 - l as int]);
            assert(rest.subrange(1, rest.len() as int) =~= full.subrange((l + 1) as int, n as int));
            assert(bitsrest.subrange(1, bitsrest.len() as int) =~= levelbits.subrange(
                (l + 1) as int,
                n as int,
            ));
        }
        let next = if !bit {
            hasher.compress(&cur, &path[l])
        } else {
            hasher.compress(&path[l], &cur)
        };
        cur = next;
        l += 1;
    }
    proof {
        assert(full.subrange(n as int, n as int) =~= Seq::<Seq<u64>>::empty());
        assert(levelbits.subrange(n as int, n as int) =~= Seq::<bool>::empty());
    }
    if felts_eq(&cur, &commitment) {
        Ok(())
    } else {
        Err(VcsError)
    }
}

} // verus!
