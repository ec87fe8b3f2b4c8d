use vstd::prelude::*;

use std::cmp::Ordering;

use crate::opt_traits::{as_good_as, Fitness};

verus! {

/// Strict "sorts before" order on positions of a fitness sequence: better
/// fitness first, ties broken by the smaller position.
pub open spec fn key_lt<F: Fitness>(fs: Seq<F>, a: int, b: int) -> bool {
    ||| F::cmp_spec(fs[a]@, fs[b]@) == Ordering::Less
    ||| (F::cmp_spec(fs[a]@, fs[b]@) == Ordering::Equal && a < b)
}

/// Reflexive closure of `key_lt`.
pub open spec fn key_le<F: Fitness>(fs: Seq<F>, a: int, b: int) -> bool {
    key_lt::<F>(fs, a, b) || a == b
}

/// An index sequence is bounded by `n`, has no repeats, and mentions every
/// position below `n`: it is a permutation of the positions of the sequence
/// it indexes.
pub open spec fn is_index_perm(idx: Seq<usize>, n: int) -> bool {
    &&& idx.len() == n
    &&& forall|i: int| 0 <= i < idx.len() ==> (#[trigger] idx[i]) < n
    &&& forall|i: int, j: int| 0 <= i < j < idx.len() ==> idx[i] != idx[j]
    &&& forall|v: usize| v < n ==> idx.contains(v)
}

/// For a total pre-order, `Equal` is symmetric.
pub(crate) proof fn lemma_equal_sym<F: Fitness>(a: F::V, b: F::V)
    requires
        F::totally_ordered(),
        F::cmp_spec(a, b) == Ordering::Equal,
    ensures
        F::cmp_spec(b, a) == Ordering::Equal,
{
    F::cmp_flip(a, b);
    F::cmp_flip(b, a);
}

/// For a total pre-order, the position order `key_le` is transitive.
pub(crate) proof fn lemma_key_le_trans<F: Fitness>(fs: Seq<F>, a: int, b: int, c: int)
    requires
        F::totally_ordered(),
        key_le::<F>(fs, a, b),
        key_le::<F>(fs, b, c),
    ensures
        key_le::<F>(fs, a, c),
{
    if a == b || b == c {
    } else {
        let fa = fs[a]@;
        let fb = fs[b]@;
        let fc = fs[c]@;
        F::cmp_transitive(fa, fb, fc);
        F::cmp_flip(fa, fb);
        F::cmp_flip(fb, fc);
        F::cmp_flip(fa, fc);
        if F::cmp_spec(fa, fc) == Ordering::Equal {
            // then neither step can have been a strict fitness improvement
            if F::cmp_spec(fa, fb) == Ordering::Less {
                lemma_equal_sym::<F>(fa, fc);
                F::cmp_transitive(fc, fa, fb);
                F::cmp_transitive(fb, fc, fa);
            }
            if F::cmp_spec(fb, fc) == Ordering::Less {
                lemma_equal_sym::<F>(fa, fc);
                F::cmp_transitive(fb, fc, fa);
                F::cmp_transitive(fc, fa, fb);
            }
        }
    }
}

/// For a total pre-order, two distinct positions always compare: one of them
/// sorts before the other.
pub(crate) proof fn lemma_key_total<F: Fitness>(fs: Seq<F>, a: int, b: int)
    requires
        F::totally_ordered(),
        a != b,
        !key_lt::<F>(fs, a, b),
    ensures
        key_lt::<F>(fs, b, a),
{
    F::cmp_flip(fs[a]@, fs[b]@);
    F::cmp_flip(fs[b]@, fs[a]@);
    if F::cmp_spec(fs[a]@, fs[b]@) == Ordering::Equal {
        lemma_equal_sym::<F>(fs[a]@, fs[b]@);
    }
}

/// Executable twin of `key_lt`: exact whenever the comparator is
/// deterministic.
fn key_lt_exec<F: Fitness>(fitness: &Vec<F>, a: usize, b: usize) -> (r: bool)
    requires
        a < fitness@.len(),
        b < fitness@.len(),
    ensures
        F::deterministic() ==> r == key_lt::<F>(fitness@, a as int, b as int),
{
    match F::opt_cmp(&fitness[a], &fitness[b]) {
        Ordering::Less => true,
        Ordering::Equal => a < b,
        Ordering::Greater => false,
    }
}

fn swap_positions(idx: &mut Vec<usize>, i: usize, j: usize)
    requires
        i < old(idx)@.len(),
        j < old(idx)@.len(),
    ensures
        final(idx)@ == old(idx)@.update(i as int, old(idx)@[j as int]).update(
            j as int,
            old(idx)@[i as int],
        ),
{
    let a = idx[i];
    let b = idx[j];
    idx[i] = b;
    idx[j] = a;
}

/// Sorts the positions of a fitness sequence, best first, ties broken by the
/// smaller position. The result is always a permutation of the positions;
/// when the fitness type's comparator is deterministic and a total
/// pre-order, the result is fully sorted by it.
pub(crate) fn sort_indices_by_fitness<F: Fitness>(fitness: &Vec<F>) -> (r: Vec<usize>)
    ensures
        is_index_perm(r@, fitness@.len() as int),
        F::deterministic() && F::totally_ordered() ==> forall|p: int, q: int|
            0 <= p < q < r@.len() ==> key_lt::<F>(fitness@, r@[p] as int, r@[q] as int),
{
    let n = fitness.len();
    let mut idx: Vec<usize> = Vec::new();
    for k in 0..n
        invariant
            idx@.len() == k,
            forall|i: int| 0 <= i < k ==> (#[trigger] idx@[i]) == i as usize,
    {
        idx.push(k);
    }
    assert(is_index_perm(idx@, n as int)) by {
        assert(forall|v: usize| v < n ==> idx@[v as int] == v && idx@.contains(v));
    }
    let mut i: usize = 1;
    while i < n
        invariant
            1 <= i,
            i <= n || n == 0,
            n == fitness@.len(),
            idx@.len() == n,
            is_index_perm(idx@, n as int),
            F::deterministic() && F::totally_ordered() ==> forall|p: int, q: int|
                0 <= p < q < i ==> key_lt::<F>(fitness@, idx@[p] as int, idx@[q] as int),
        decreases n - i,
    {
        let mut j: usize = i;
        while j > 0 && key_lt_exec(fitness, idx[j], idx[j - 1])
            invariant
                0 <= j <= i < n,
                n == fitness@.len(),
                idx@.len() == n,
                is_index_perm(idx@, n as int),
                F::deterministic() && F::totally_ordered() ==> forall|p: int, q: int|
                    0 <= p < q <= i && p != j && q != j ==> key_lt::<F>(
                        fitness@,
                        idx@[p] as int,
                        idx@[q] as int,
                    ),
                F::deterministic() && F::totally_ordered() ==> forall|q: int|
                    j < q <= i ==> key_lt::<F>(fitness@, idx@[j as int] as int, idx@[q] as int),
            decreases j,
        {
            let ghost pre = idx@;
            swap_positions(&mut idx, j, j - 1);
            proof {
                let jj = j as int;
                assert forall|v: usize| v < n implies idx@.contains(v) by {
                    assert(pre.contains(v));
                    let p = choose|p: int| 0 <= p < pre.len() && pre[p] == v;
                    if p == jj {
                        assert(idx@[jj - 1] == v);
                    } else if p == jj - 1 {
                        assert(idx@[jj] == v);
                    } else {
                        assert(idx@[p] == v);
                    }
                }
                if F::deterministic() && F::totally_ordered() {
                    // the moved entry sorts before everything it passed
                    assert forall|q: int|
                        jj - 1 < q <= i implies key_lt::<F>(
                        fitness@,
                        idx@[jj - 1] as int,
                        #[trigger] idx@[q] as int,
                    ) by {
                        if q > jj {
                            assert(idx@[jj - 1] != idx@[q]);
                            lemma_key_le_trans::<F>(
                                fitness@,
                                idx@[jj - 1] as int,
                                pre[jj - 1] as int,
                                idx@[q] as int,
                            );
                        }
                    }
                }
            }
            j = j - 1;
        }
        proof {
            if F::deterministic() && F::totally_ordered() {
                let jj = j as int;
                if j > 0 {
                    // the loop stopped, so idx[j - 1] sorts before idx[j]
                    assert(idx@[jj - 1] != idx@[jj]);
                    lemma_key_total::<F>(fitness@, idx@[jj] as int, idx@[jj - 1] as int);
                }
                assert forall|p: int, q: int|
                    0 <= p < q <= i implies key_lt::<F>(fitness@, idx@[p] as int, idx@[q] as int) by {
                    if p == jj {
                        // q > j: given by the inner-loop invariant
                    } else if q == jj {
                        assert(idx@[p] != idx@[q]);
                        lemma_key_le_trans::<F>(
                            fitness@,
                            idx@[p] as int,
                            idx@[jj - 1] as int,
                            idx@[jj] as int,
                        );
                    }
                }
            }
        }
        i = i + 1;
    }
    idx
}

} // verus!
