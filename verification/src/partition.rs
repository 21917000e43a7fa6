//! Partitioning of the candidate integers across workers.
//!
//! Worker `w` of `n` owns the arithmetic progression `w + i*n` for
//! `i = 0, 1, 2, ...`: the progressions of distinct workers are disjoint and
//! together cover every non-negative integer.

use vstd::arithmetic::div_mod::{lemma_fundamental_div_mod, lemma_fundamental_div_mod_converse};
use vstd::prelude::*;

verus! {

/// The candidate integer worker `w` of `n` workers tries at iteration `i`.
pub open spec fn nonce_value(w: nat, n: nat, i: nat) -> nat {
    w + i * n
}

/// Every candidate of worker `w` is congruent to `w` modulo the worker
/// count, and `i` is recoverable as the quotient: each worker stays on its
/// own residue class.
pub proof fn lemma_partition_residue(w: nat, n: nat, i: nat)
    requires
        1 <= n,
        w < n,
    ensures
        nonce_value(w, n, i) % n == w,
        nonce_value(w, n, i) / n == i,
{
    lemma_fundamental_div_mod_converse(nonce_value(w, n, i) as int, n as int, i as int, w as int);
}

/// Distinct workers' candidate sequences are pairwise disjoint, and one
/// worker never produces the same candidate twice: a collision of values
/// forces the same worker and the same iteration.
pub proof fn lemma_partition_disjoint(n: nat, w1: nat, i1: nat, w2: nat, i2: nat)
    requires
        1 <= n,
        w1 < n,
        w2 < n,
        nonce_value(w1, n, i1) == nonce_value(w2, n, i2),
    ensures
        w1 == w2,
        i1 == i2,
{
    lemma_partition_residue(w1, n, i1);
    lemma_partition_residue(w2, n, i2);
}

/// The workers' sequences together cover everything: every non-negative
/// integer `v` is the candidate of worker `v % n` at iteration `v / n`.
pub proof fn lemma_partition_covers(n: nat, v: nat)
    requires
        1 <= n,
    ensures
        v % n < n,
        nonce_value(v % n, n, v / n) == v,
{
    lemma_fundamental_div_mod(v as int, n as int);
    vstd::arithmetic::mul::lemma_mul_is_commutative(n as int, (v / n) as int);
}

} // verus!
