//! Bit-reversal of bounded-width indices, used by the Merkle commitment to
//! lay leaves out in bit-reversed order.
use vstd::prelude::*;
use vstd::arithmetic::power2::{
    pow2, lemma_pow2_unfold, lemma_pow2_adds, lemma_pow2_pos, lemma2_to64,
    lemma_pow2_strictly_increases,
};
use vstd::arithmetic::mul::{lemma_mul_is_associative, lemma_mul_is_commutative};
use vstd::arithmetic::div_mod::{
    lemma_fundamental_div_mod, lemma_mod_multiples_vanish, lemma_hoist_over_denominator,
    lemma_div_multiples_vanish_fancy, lemma_mod_breakdown, lemma_small_mod,
    lemma_div_is_ordered, lemma_div_denominator,
};

verus! {

/// The low `n` bits of `i`, reversed: the bit at position `k` moves to
/// position `n - 1 - k`. Bits of `i` at position `n` and above are ignored.
pub open spec fn rev_bits(i: nat, n: nat) -> nat
    decreases n,
{
    if n == 0 {
        0
    } else {
        rev_bits(i / 2, (n - 1) as nat) + (i % 2) * pow2((n - 1) as nat)
    }
}

pub proof fn lemma_rev_bits_bound(i: nat, n: nat)
    ensures
        rev_bits(i, n) < pow2(n),
    decreases n,
{
    if n == 0 {
        lemma2_to64();
    } else {
        lemma_rev_bits_bound(i / 2, (n - 1) as nat);
        lemma_pow2_unfold(n);
        if i % 2 == 0 {
            assert((i % 2) * pow2((n - 1) as nat) == 0);
        } else {
            assert(i % 2 == 1);
            assert((i % 2) * pow2((n - 1) as nat) == pow2((n - 1) as nat));
        }
    }
}

/// Prepending a bit `b` at the top of an `n`-bit value `r` reverses to the
/// reversal of `r` followed by `b` as the new low bit.
pub proof fn lemma_rev_bits_double(r: nat, b: nat, n: nat)
    requires
        n >= 1,
        r < pow2((n - 1) as nat),
        b < 2,
    ensures
        rev_bits(r + b * pow2((n - 1) as nat), n) == 2 * rev_bits(r, (n - 1) as nat) + b,
    decreases n,
{
    if n == 1 {
        lemma2_to64();
        assert(r == 0);
        assert(rev_bits(b, 1) == rev_bits(b / 2, 0) + (b % 2) * pow2(0));
        assert(b / 2 == 0 && b % 2 == b);
    } else {
        let m = pow2((n - 2) as nat);
        lemma_pow2_unfold((n - 1) as nat);
        assert(pow2((n - 1) as nat) == 2 * m);
        let x = r + b * (2 * m);
        assert(b * (2 * m) == 2 * (b * m)) by {
            if b == 0 {
            } else {
                assert(b == 1);
            }
        }
        assert(x == 2 * (b * m) + r);
        assert(x % 2 == r % 2) by {
            lemma_mod_multiples_vanish((b * m) as int, r as int, 2);
        }
        assert(x as int / 2 == r as int / 2 + b * m) by {
            lemma_hoist_over_denominator(r as int, (b * m) as int, 2);
        }
        // r / 2 < m
        assert(r / 2 < m) by {
            lemma_fundamental_div_mod(r as int, 2);
            if r / 2 >= m {
                assert(r >= 2 * (r / 2));
                assert(2 * (r / 2) >= 2 * m);
            }
        }
        lemma_rev_bits_double(r / 2, b, (n - 1) as nat);
        // rev_bits(x, n) unfolds on (x / 2, x % 2)
        assert(rev_bits(x, n) == rev_bits(x / 2, (n - 1) as nat) + (x % 2) * pow2((n - 1) as nat));
        assert(x / 2 == r / 2 + b * m);
        assert(rev_bits(r / 2 + b * m, (n - 1) as nat) == 2 * rev_bits(r / 2, (n - 2) as nat) + b);
        // the target right-hand side
        assert(rev_bits(r, (n - 1) as nat) == rev_bits(r / 2, (n - 2) as nat) + (r % 2) * m);
        assert((r % 2) * (2 * m) == 2 * ((r % 2) * m)) by {
            lemma_mul_is_associative((r % 2) as int, 2, m as int);
            lemma_mul_is_commutative((r % 2) as int, 2);
            lemma_mul_is_associative(2, (r % 2) as int, m as int);
        }
        assert((x % 2) * pow2((n - 1) as nat) == 2 * ((r % 2) * m));
        assert(rev_bits(x, n) == 2 * (rev_bits(r / 2, (n - 2) as nat) + (r % 2) * m) + b);
        assert(rev_bits(x, n) == 2 * rev_bits(r, (n - 1) as nat) + b);
    }
}

/// Reversing the low `n` bits twice gives the value back.
pub proof fn lemma_rev_bits_involution(i: nat, n: nat)
    requires
        i < pow2(n),
    ensures
        rev_bits(rev_bits(i, n), n) == i,
    decreases n,
{
    if n == 0 {
        lemma2_to64();
    } else {
        let q = i / 2;
        let b = i % 2;
        lemma_pow2_unfold(n);
        let p = pow2((n - 1) as nat);
        assert(q < p) by {
            lemma_fundamental_div_mod(i as int, 2);
            if q >= p {
                assert(i >= 2 * q);
                assert(2 * q >= 2 * p);
            }
        }
        lemma_rev_bits_involution(q, (n - 1) as nat);
        lemma_rev_bits_bound(q, (n - 1) as nat);
        lemma_rev_bits_double(rev_bits(q, (n - 1) as nat), b, n);
        assert(rev_bits(i, n) == rev_bits(q, (n - 1) as nat) + b * p);
        assert(rev_bits(rev_bits(i, n), n) == 2 * rev_bits(rev_bits(q, (n - 1) as nat), (n - 1) as nat) + b);
        lemma_fundamental_div_mod(i as int, 2);
    }
}

/// `pow2(e)` as an executable value.
pub fn pow2_usize(e: usize) -> (r: usize)
    requires
        pow2(e as nat) <= usize::MAX,
    ensures
        r as nat == pow2(e as nat),
        r >= 1,
{
    let mut r: usize = 1;
    let mut k: usize = 0;
    proof {
        lemma2_to64();
    }
    while k < e
        invariant
            k <= e,
            r as nat == pow2(k as nat),
            pow2(e as nat) <= usize::MAX,
        decreases e - k,
    {
        proof {
            lemma_pow2_unfold((k + 1) as nat);
            if ((k + 1) as nat) < (e as nat) {
                lemma_pow2_strictly_increases((k + 1) as nat, e as nat);
            }
        }
        r = r * 2;
        k = k + 1;
    }
    proof {
        lemma_pow2_pos(e as nat);
    }
    r
}

/// Reverse the low `bit_len` bits of `index`.
pub fn reverse_bits_len(index: usize, bit_len: usize) -> (r: usize)
    requires
        (index as nat) < pow2(bit_len as nat),
        pow2(bit_len as nat) <= usize::MAX as nat + 1,
    ensures
        r as nat == rev_bits(index as nat, bit_len as nat),
        (r as nat) < pow2(bit_len as nat),
{
    let mut r: usize = 0;
    let mut x: usize = index;
    let mut l: usize = 0;
    proof {
        lemma2_to64();
        lemma_small_mod(index as nat % pow2(0), pow2(0));
        assert(index as nat % pow2(0) == 0);
    }
    while l < bit_len
        invariant
            l <= bit_len,
            (index as nat) < pow2(bit_len as nat),
            pow2(bit_len as nat) <= usize::MAX as nat + 1,
            x as nat == (index as nat) / pow2(l as nat),
            r as nat == rev_bits((index as nat) % pow2(l as nat), l as nat),
            (r as nat) < pow2(l as nat),
        decreases bit_len - l,
    {
        let ghost ln: nat = l as nat;
        let ghost pl: nat = pow2(ln);
        let bit: usize = x % 2;
        proof {
            lemma_pow2_pos(ln);
            lemma_pow2_pos((ln + 1) as nat);
            lemma_pow2_adds(ln, 1);
            lemma2_to64();
            assert(pow2(ln + 1) == pl * 2);
            // index % pow2(l + 1) == (index % pow2(l)) + bit * pow2(l)
            lemma_mod_breakdown(index as int, pl as int, 2);
            assert((index as nat) % (pl * 2) == pl * (((index as nat) / pl) % 2) + (index as nat) % pl);
            assert(bit as nat == ((index as nat) / pl) % 2);
            assert(pl * (bit as nat) == (bit as nat) * pl);
            lemma_rev_bits_double((index as nat) % pl, bit as nat, (ln + 1) as nat);
            assert(rev_bits((index as nat) % pow2(ln + 1), ln + 1)
                == 2 * rev_bits((index as nat) % pl, ln) + bit as nat);
            // no overflow: 2 * r + bit < pow2(l + 1) <= pow2(bit_len)
            if (ln + 1) < bit_len as nat {
                lemma_pow2_strictly_increases(ln + 1, bit_len as nat);
            }
            // x / 2 == index / pow2(l + 1)
            lemma_div_denominator(index as int, pl as int, 2);
        }
        r = 2 * r + bit;
        x = x / 2;
        l = l + 1;
    }
    proof {
        lemma_small_mod(index as nat, pow2(bit_len as nat));
    }
    r
}

} // verus!
