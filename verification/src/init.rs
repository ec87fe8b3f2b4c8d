use vstd::prelude::*;

use crate::opt_data::{NaiveBitVec, NAIVE_BIT_LEN_LIMIT};
use crate::opt_traits::{pop_inv, InitFunc, InitPopulation, OptData};
use crate::rng::rand_below;

verus! {

/// Always starts from one fixed, valid candidate.
pub struct InitValue<T: OptData> {
    value: T,
}

impl<T: OptData> InitValue<T> {
    #[verifier::type_invariant]
    spec fn type_inv(&self) -> bool {
        self.value.inv()
    }

    pub fn new(value: T) -> (r: Self)
        requires
            value.inv(),
    {
        InitValue { value }
    }
}

impl<T: OptData> InitFunc<T> for InitValue<T> {
    fn init(&self) -> (r: T) {
        proof {
            use_type_invariant(self);
        }
        self.value.duplicate()
    }
}

/// Starts from a fixed, non-empty population of valid candidates.
pub struct InitPopulationFromValues<T: OptData> {
    population: Vec<T>,
}

impl<T: OptData> InitPopulationFromValues<T> {
    #[verifier::type_invariant]
    spec fn type_inv(&self) -> bool {
        pop_inv(self.population@) && self.population@.len() >= 1
    }

    pub fn new(population: Vec<T>) -> (r: Self)
        requires
            pop_inv(population@),
            population@.len() >= 1,
        ensures
            r.popsize() == population@.len(),
    {
        InitPopulationFromValues { population }
    }
}

impl<T: OptData> InitFunc<T> for InitPopulationFromValues<T> {
    fn init(&self) -> (r: T) {
        proof {
            use_type_invariant(self);
        }
        self.population[0].duplicate()
    }
}

impl<T: OptData> InitPopulation<T> for InitPopulationFromValues<T> {
    closed spec fn popsize(&self) -> int {
        self.population@.len() as int
    }

    fn init_pop(&self) -> (r: Vec<T>) {
        proof {
            use_type_invariant(self);
        }
        let mut out: Vec<T> = Vec::new();
        let mut i: usize = 0;
        while i < self.population.len()
            invariant
                i <= self.population@.len(),
                out@.len() == i,
                pop_inv(self.population@),
                pop_inv(out@),
            decreases self.population@.len() - i,
        {
            out.push(self.population[i].duplicate());
            i = i + 1;
        }
        out
    }

    fn duplicate(&self) -> (r: Self) {
        proof {
            use_type_invariant(self);
        }
        let mut out: Vec<T> = Vec::new();
        let mut i: usize = 0;
        while i < self.population.len()
            invariant
                i <= self.population@.len(),
                out@.len() == i,
                pop_inv(self.population@),
                pop_inv(out@),
            decreases self.population@.len() - i,
        {
            out.push(self.population[i].duplicate());
            i = i + 1;
        }
        InitPopulationFromValues { population: out }
    }
}

/// Draws populations of random bit vectors of a fixed, in-range length.
pub struct InitRandomNaiveBitVecPopulation {
    size: usize,
    bits_count: usize,
}

impl InitRandomNaiveBitVecPopulation {
    #[verifier::type_invariant]
    spec fn type_inv(&self) -> bool {
        1 <= self.size && self.bits_count <= NAIVE_BIT_LEN_LIMIT
    }

    pub fn new(size: usize, bits_count: usize) -> (r: Self)
        requires
            1 <= size,
            bits_count <= NAIVE_BIT_LEN_LIMIT,
        ensures
            r.popsize() == size as int,
    {
        InitRandomNaiveBitVecPopulation { size, bits_count }
    }

    fn rand_data(&self) -> (r: NaiveBitVec)
        ensures
            r.inv(),
    {
        proof {
            use_type_invariant(self);
        }
        let mut bits: Vec<u8> = Vec::new();
        let mut i: usize = 0;
        while i < self.bits_count
            invariant
                self.bits_count <= NAIVE_BIT_LEN_LIMIT,
                i <= self.bits_count,
                bits@.len() == i,
                forall|k: int| 0 <= k < i ==> (#[trigger] bits@[k]) <= 1,
            decreases self.bits_count - i,
        {
            let b: u8 = if rand_below(2) == 1 {
                1
            } else {
                0
            };
            bits.push(b);
            i = i + 1;
        }
        NaiveBitVec { bits }
    }
}

impl InitFunc<NaiveBitVec> for InitRandomNaiveBitVecPopulation {
    fn init(&self) -> (r: NaiveBitVec) {
        self.rand_data()
    }
}

impl InitPopulation<NaiveBitVec> for InitRandomNaiveBitVecPopulation {
    closed spec fn popsize(&self) -> int {
        self.size as int
    }

    fn init_pop(&self) -> (r: Vec<NaiveBitVec>) {
        proof {
            use_type_invariant(self);
        }
        let mut out: Vec<NaiveBitVec> = Vec::new();
        let mut i: usize = 0;
        while i < self.size
            invariant
                i <= self.size,
                out@.len() == i,
                pop_inv(out@),
            decreases self.size - i,
        {
            out.push(self.rand_data());
            i = i + 1;
        }
        out
    }

    fn duplicate(&self) -> (r: Self) {
        proof {
            use_type_invariant(self);
        }
        InitRandomNaiveBitVecPopulation { size: self.size, bits_count: self.bits_count }
    }
}

} // verus!
