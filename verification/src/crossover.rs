use vstd::prelude::*;

use crate::opt_data::{bits_wf, NaiveBitVec, VecOptData};
use crate::opt_traits::{pop_inv, Crossover, OptData};
use crate::rng::rand_below;

verus! {

/// Offspring are plain clones of the selected parents, one each.
pub struct IdentityCrossover {}

impl<T: OptData> Crossover<T> for IdentityCrossover {
    fn crossover(&self, population: &Vec<T>, parents_indices: &Vec<usize>, offsprings: &mut Vec<T>) {
        offsprings.clear();
        let mut i: usize = 0;
        while i < parents_indices.len()
            invariant
                i <= parents_indices@.len(),
                offsprings@.len() == i,
                pop_inv(population@),
                pop_inv(offsprings@),
                forall|k: int|
                    0 <= k < parents_indices@.len() ==> (#[trigger] parents_indices@[k])
                        < population@.len(),
            decreases parents_indices@.len() - i,
        {
            offsprings.push(population[parents_indices[i]].duplicate());
            i = i + 1;
        }
    }
}

/// A pairwise recombination rule on element sequences. `post` is what the
/// rule guarantees of the two offspring sequences it writes.
pub trait CrossoverFun<E>: Sized {
    spec fn post(&self, p1: Seq<E>, p2: Seq<E>, o1: Seq<E>, o2: Seq<E>) -> bool;

    fn crossover_fun(&self, p1: &Vec<E>, p2: &Vec<E>, o1: &mut Vec<E>, o2: &mut Vec<E>)
        requires
            p1@.len() == p2@.len(),
            old(o1)@.len() == 0,
            old(o2)@.len() == 0,
        ensures
            final(o1)@.len() == p1@.len(),
            final(o2)@.len() == p2@.len(),
            self.post(p1@, p2@, final(o1)@, final(o2)@),
    ;
}

/// The two offspring of a one-point recombination at `split`: each takes
/// one parent's elements before the split and the other parent's after it.
pub open spec fn one_point_mix<E>(p1: Seq<E>, p2: Seq<E>, o1: Seq<E>, o2: Seq<E>, split: int) -> bool {
    &&& 0 <= split <= p1.len()
    &&& p1.len() == p2.len()
    &&& o1 == p1.subrange(0, split) + p2.subrange(split, p2.len() as int)
    &&& o2 == p2.subrange(0, split) + p1.subrange(split, p1.len() as int)
}

/// Writes the two offspring of a one-point recombination at the given split
/// index.
pub fn one_point_crossover_at<E: Copy>(
    p1: &Vec<E>,
    p2: &Vec<E>,
    split: usize,
    o1: &mut Vec<E>,
    o2: &mut Vec<E>,
)
    requires
        p1@.len() == p2@.len(),
        split <= p1@.len(),
        old(o1)@.len() == 0,
        old(o2)@.len() == 0,
    ensures
        final(o1)@.len() == p1@.len(),
        final(o2)@.len() == p2@.len(),
        one_point_mix(p1@, p2@, final(o1)@, final(o2)@, split as int),
{
    let mut i: usize = 0;
    while i < p1.len()
        invariant
            i <= p1@.len(),
            p1@.len() == p2@.len(),
            split <= p1@.len(),
            o1@.len() == i,
            o2@.len() == i,
            forall|k: int|
                0 <= k < i ==> #[trigger] o1@[k] == (if k < split {
                    p1@[k]
                } else {
                    p2@[k]
                }),
            forall|k: int|
                0 <= k < i ==> #[trigger] o2@[k] == (if k < split {
                    p2@[k]
                } else {
                    p1@[k]
                }),
        decreases p1@.len() - i,
    {
        if i < split {
            o1.push(p1[i]);
            o2.push(p2[i]);
        } else {
            o1.push(p2[i]);
            o2.push(p1[i]);
        }
        i = i + 1;
    }
    proof {
        assert(o1@ =~= p1@.subrange(0, split as int) + p2@.subrange(
            split as int,
            p2@.len() as int,
        ));
        assert(o2@ =~= p2@.subrange(0, split as int) + p1@.subrange(
            split as int,
            p1@.len() as int,
        ));
    }
}

/// One-point recombination at a uniformly random split index.
pub struct OnePointCrossoverFun {}

impl<E: Copy> CrossoverFun<E> for OnePointCrossoverFun {
    open spec fn post(&self, p1: Seq<E>, p2: Seq<E>, o1: Seq<E>, o2: Seq<E>) -> bool {
        exists|split: int| one_point_mix(p1, p2, o1, o2, split)
    }

    fn crossover_fun(&self, p1: &Vec<E>, p2: &Vec<E>, o1: &mut Vec<E>, o2: &mut Vec<E>) {
        let split: usize = if p1.len() > 0 {
            rand_below(p1.len())
        } else {
            0
        };
        one_point_crossover_at(p1, p2, split, o1, o2);
        proof {
            assert(one_point_mix(p1@, p2@, o1@, o2@, split as int));
        }
    }
}

/// Either offspring sequence of a completed pair: when the parents have
/// equal length the recombination rule ran and its guarantee holds; pairs
/// of unequal length pass through as clones.
pub open spec fn pair_crossed<E, CF: CrossoverFun<E>>(
    cf: CF,
    pa: Seq<E>,
    pb: Seq<E>,
    oa: Seq<E>,
    ob: Seq<E>,
) -> bool {
    if pa.len() == pb.len() {
        &&& cf.post(pa, pb, oa, ob)
        &&& oa.len() == pa.len()
        &&& ob.len() == pb.len()
    } else {
        oa == pa && ob == pb
    }
}

/// Splits the parent indices into consecutive pairs and recombines each
/// pair with the given rule; a trailing unpaired parent is dropped.
pub fn crossover_vec_data<E: Copy, VecOptDataT: VecOptData<E>, CrossoverFunT: CrossoverFun<E>>(
    population: &Vec<VecOptDataT>,
    parents_indices: &Vec<usize>,
    offsprings: &mut Vec<VecOptDataT>,
    crossover_fun: &CrossoverFunT,
)
    requires
        forall|k: int|
            0 <= k < parents_indices@.len() ==> (#[trigger] parents_indices@[k])
                < population@.len(),
    ensures
        final(offsprings)@.len() == 2 * (parents_indices@.len() as int / 2),
        forall|j: int|
            0 <= j < parents_indices@.len() as int / 2 ==> #[trigger] pair_crossed(
                *crossover_fun,
                population@[parents_indices@[2 * j] as int].velems(),
                population@[parents_indices@[2 * j + 1] as int].velems(),
                final(offsprings)@[2 * j].velems(),
                final(offsprings)@[2 * j + 1].velems(),
            ),
{
    offsprings.clear();
    let pairs = parents_indices.len() / 2;
    let mut j: usize = 0;
    while j < pairs
        invariant
            pairs == parents_indices@.len() as int / 2,
            2 * pairs <= parents_indices.len(),
            j <= pairs,
            offsprings@.len() == 2 * j,
            forall|k: int|
                0 <= k < parents_indices@.len() ==> (#[trigger] parents_indices@[k])
                    < population@.len(),
            forall|m: int|
                0 <= m < j ==> #[trigger] pair_crossed(
                    *crossover_fun,
                    population@[parents_indices@[2 * m] as int].velems(),
                    population@[parents_indices@[2 * m + 1] as int].velems(),
                    offsprings@[2 * m].velems(),
                    offsprings@[2 * m + 1].velems(),
                ),
        decreases pairs - j,
    {
        let parent1 = &population[parents_indices[2 * j]];
        let parent2 = &population[parents_indices[2 * j + 1]];
        if parent1.get().len() == parent2.get().len() {
            let mut e1: Vec<E> = Vec::new();
            let mut e2: Vec<E> = Vec::new();
            crossover_fun.crossover_fun(parent1.get(), parent2.get(), &mut e1, &mut e2);
            offsprings.push(VecOptDataT::from_elems(e1));
            offsprings.push(VecOptDataT::from_elems(e2));
        } else {
            offsprings.push(VecOptDataT::from_elems(crate::opt_data::clone_vec_copy(
                parent1.get(),
            )));
            offsprings.push(VecOptDataT::from_elems(crate::opt_data::clone_vec_copy(
                parent2.get(),
            )));
        }
        j = j + 1;
    }
}

/// One-point crossover as a population-level strategy.
pub struct OnePointCrossover {}

impl Crossover<NaiveBitVec> for OnePointCrossover {
    fn crossover(
        &self,
        population: &Vec<NaiveBitVec>,
        parents_indices: &Vec<usize>,
        offsprings: &mut Vec<NaiveBitVec>,
    ) {
        crossover_vec_data(population, parents_indices, offsprings, &OnePointCrossoverFun {});
        proof {
            assert forall|m: int|
                0 <= m < final(offsprings)@.len() implies (#[trigger] final(offsprings)@[m]).inv() by {
                let j = m / 2;
                let pa = population@[parents_indices@[2 * j] as int];
                let pb = population@[parents_indices@[2 * j + 1] as int];
                assert(pair_crossed(
                    OnePointCrossoverFun {  },
                    pa.velems(),
                    pb.velems(),
                    final(offsprings)@[2 * j].velems(),
                    final(offsprings)@[2 * j + 1].velems(),
                ));
                pa.inv_is_elems_inv();
                pb.inv_is_elems_inv();
                final(offsprings)@[m].inv_is_elems_inv();
                if pa.velems().len() == pb.velems().len() {
                    let oa = final(offsprings)@[2 * j].velems();
                    let ob = final(offsprings)@[2 * j + 1].velems();
                    let split = choose|split: int|
                        one_point_mix(pa.velems(), pb.velems(), oa, ob, split);
                    assert(bits_wf(oa) && bits_wf(ob));
                }
            }
        }
    }
}

} // verus!
